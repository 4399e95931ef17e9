use live_search::app::App;
use live_search::document::{DocResult, Document, Row, MAX_FILES, MAX_LINES};
use live_search::matcher::{
    make_row, match_line, reaches, score_line, SKIP_LOSS, TAKE_SPAN, UNREACHED,
};

fn lines(text: &[&str]) -> Vec<String> {
    text.iter().map(|line| line.to_string()).collect()
}

fn document(paths: &[&str]) -> Document {
    let mut doc = Document::new();
    for path in paths {
        assert!(doc.insert(path.to_string()));
    }
    doc
}

#[test]
fn query_matches_only_lines_that_hold_it() {
    let doc = document(&["a.txt"]);
    let texts = vec![Some(lines(&["foo bar", "baz"]))];
    let results = doc.search("fo", &texts);
    assert_eq!(results.len(), 1);
    assert_eq!(results[0].path, "a.txt");
    assert_eq!(results[0].file_name, "a.txt");
    assert_eq!(results[0].contents.len(), 1);
    assert_eq!(results[0].contents[0].line, 1);
    assert_eq!(results[0].contents[0].raw, "foo bar");
    assert!(results[0].contents[0].score > 0);
}

#[test]
fn empty_query_returns_every_line() {
    let doc = document(&["a.txt", "dir/b.txt"]);
    let texts = vec![Some(lines(&["foo bar", "baz"])), Some(lines(&["one", "", "three"]))];
    let results = doc.search("", &texts);
    assert_eq!(results.len(), 2);
    assert_eq!(results[0].contents.len(), 2);
    assert_eq!(results[1].file_name, "b.txt");
    assert_eq!(results[1].contents.len(), 3);
    assert_eq!(results[1].contents[2].line, 3);
    assert_eq!(results[1].contents[2].raw, "three");
}

#[test]
fn unreadable_file_is_left_out() {
    let doc = document(&["locked.txt", "open.txt"]);
    let texts = vec![None, Some(lines(&["needle here"]))];
    let results = doc.search("needle", &texts);
    assert_eq!(results.len(), 1);
    assert_eq!(results[0].path, "open.txt");
    assert_eq!(results[0].contents[0].raw, "needle here");
}

#[test]
fn file_without_a_given_text_counts_as_unreadable() {
    let doc = document(&["a.txt", "b.txt"]);
    let texts = vec![Some(lines(&["alpha"]))];
    let results = doc.search("", &texts);
    assert_eq!(results.len(), 1);
    assert_eq!(results[0].path, "a.txt");
}

#[test]
fn file_without_a_match_gives_no_group() {
    let doc = document(&["a.txt", "b.txt"]);
    let texts = vec![Some(lines(&["nothing"])), Some(lines(&["xyz", "zzz"]))];
    let results = doc.search("xyz", &texts);
    assert_eq!(results.len(), 1);
    assert_eq!(results[0].path, "b.txt");
    assert_eq!(results[0].contents.len(), 1);
    assert_eq!(results[0].contents[0].line, 1);
}

#[test]
fn rows_keep_the_numbers_of_their_lines() {
    let doc = document(&["a.txt"]);
    let texts = vec![Some(lines(&["no", "match me", "no", "me too", "no"]))];
    let results = doc.search("me", &texts);
    assert_eq!(results.len(), 1);
    let numbers: Vec<usize> = results[0].contents.iter().map(|row| row.line).collect();
    assert_eq!(numbers, vec![2, 4]);
    assert_eq!(results[0].contents[1].raw, "me too");
}

#[test]
fn match_ignores_ascii_case() {
    let doc = document(&["a.txt"]);
    let texts = vec![Some(lines(&["Hello World", "hello world", "help"]))];
    let results = doc.search("HW", &texts);
    assert_eq!(results.len(), 1);
    let numbers: Vec<usize> = results[0].contents.iter().map(|row| row.line).collect();
    assert_eq!(numbers, vec![1, 2]);
}

#[test]
fn one_file_gives_at_most_the_cap_of_rows() {
    let doc = document(&["a.txt"]);
    let many: Vec<String> = (0..50).map(|n| format!("line {}", n)).collect();
    let texts = vec![Some(many)];
    let results = doc.search("line", &texts);
    assert_eq!(MAX_LINES, 20);
    assert_eq!(results[0].contents.len(), 20);
    assert_eq!(results[0].contents[0].line, 1);
    assert_eq!(results[0].contents[19].line, 20);
    assert_eq!(results[0].contents[19].raw, "line 19");
}

#[test]
fn cap_of_rows_counts_matches_not_lines() {
    let doc = document(&["a.txt"]);
    let mut text: Vec<String> = Vec::new();
    for n in 0..30 {
        text.push("skip".to_string());
        text.push(format!("hit {}", n));
    }
    let results = doc.search("hit", &vec![Some(text)]);
    assert_eq!(results[0].contents.len(), 20);
    assert_eq!(results[0].contents[0].line, 2);
    assert_eq!(results[0].contents[19].line, 40);
}

#[test]
fn search_looks_at_no_more_files_than_the_cap() {
    let mut doc = Document::new();
    let mut texts = Vec::new();
    for n in 0..130 {
        assert!(doc.insert(format!("dir/file{}.txt", n)));
        texts.push(Some(vec![format!("text {}", n)]));
    }
    let results = doc.search("text", &texts);
    assert_eq!(MAX_FILES, 120);
    assert_eq!(results.len(), 120);
    assert_eq!(results[0].path, "dir/file0.txt");
    assert_eq!(results[119].path, "dir/file119.txt");
    let total: usize = results.iter().map(|group| group.contents.len()).sum();
    assert!(total <= MAX_FILES * MAX_LINES);
}

#[test]
fn unreadable_files_count_towards_the_cap_of_files() {
    let mut doc = Document::new();
    let mut texts = Vec::new();
    for n in 0..125 {
        assert!(doc.insert(format!("f{}", n)));
        texts.push(if n < 119 { None } else { Some(vec!["x".to_string()]) });
    }
    let results = doc.search("x", &texts);
    assert_eq!(results.len(), 1);
    assert_eq!(results[0].path, "f119");
}

#[test]
fn search_keeps_the_order_of_discovery() {
    let doc = document(&["z.txt", "a.txt", "m.txt"]);
    let texts = vec![Some(lines(&["k"])), Some(lines(&["k"])), Some(lines(&["k"]))];
    let results = doc.search("k", &texts);
    let paths: Vec<&str> = results.iter().map(|group| group.path.as_str()).collect();
    assert_eq!(paths, vec!["z.txt", "a.txt", "m.txt"]);
}

#[test]
fn search_twice_gives_identical_results() {
    let doc = document(&["a.txt", "b.txt"]);
    let texts = vec![Some(lines(&["foo bar", "baz", "far"])), Some(lines(&["fa", "of"]))];
    let first = doc.search("fa", &texts);
    let second = doc.search("fa", &texts);
    assert_eq!(first.len(), second.len());
    for (a, b) in first.iter().zip(second.iter()) {
        assert_eq!(a.path, b.path);
        assert_eq!(a.file_name, b.file_name);
        assert_eq!(a.contents.len(), b.contents.len());
        for (x, y) in a.contents.iter().zip(b.contents.iter()) {
            assert_eq!(x.line, y.line);
            assert_eq!(x.raw, y.raw);
            assert_eq!(x.score, y.score);
        }
    }
}

#[test]
fn match_line_matches_a_subsequence() {
    let row: Option<Row> = match_line(7, "axbycz".to_string(), "abc");
    let row = row.unwrap();
    assert_eq!(row.line, 7);
    assert_eq!(row.raw, "axbycz");
    assert!(match_line(1, "abc".to_string(), "abx").is_none());
    assert!(match_line(1, "cba".to_string(), "abc").is_none());
    assert!(match_line(1, "".to_string(), "a").is_none());
    assert!(match_line(1, "".to_string(), "").is_some());
}

#[test]
fn tighter_match_scores_higher() {
    let tight = match_line(1, "foo bar".to_string(), "foo").unwrap();
    let loose = match_line(1, "f-o-o bar".to_string(), "foo").unwrap();
    assert!(tight.score > loose.score);
}

#[test]
fn make_row_follows_the_outcome() {
    let row = make_row(3, "text".to_string(), Some(42)).unwrap();
    assert_eq!(row.line, 3);
    assert_eq!(row.raw, "text");
    assert_eq!(row.score, 42);
    assert!(make_row(3, "text".to_string(), None).is_none());
}

#[test]
fn new_group_is_empty_and_named_by_the_file() {
    let group = DocResult::new("./src/main.rs");
    assert_eq!(group.path, "./src/main.rs");
    assert_eq!(group.file_name, "main.rs");
    assert!(group.contents.is_empty());
}

#[test]
fn push_adds_rows_in_order() {
    let mut group = DocResult::new("a.txt");
    group.push(Row { line: 2, raw: "two".to_string(), score: 1 });
    group.push(Row { line: 5, raw: "five".to_string(), score: -3 });
    assert_eq!(group.contents.len(), 2);
    assert_eq!(group.contents[0].line, 2);
    assert_eq!(group.contents[1].raw, "five");
    assert_eq!(group.contents[1].score, -3);
    assert_eq!(group.path, "a.txt");
}

#[test]
fn document_keeps_each_path_once_in_order() {
    let mut doc = Document::new();
    assert_eq!(doc.len(), 0);
    assert!(doc.insert("b".to_string()));
    assert!(doc.insert("a".to_string()));
    assert!(!doc.insert("b".to_string()));
    assert_eq!(doc.len(), 2);
    assert_eq!(doc.path(0).unwrap(), "b");
    assert_eq!(doc.path(1).unwrap(), "a");
    assert!(doc.path(2).is_none());
    assert!(doc.contains("a"));
    assert!(!doc.contains("c"));
}

#[test]
fn app_searches_with_its_query() {
    let mut app = App::new(0);
    assert!(app.add_path("a.txt".to_string()));
    app.input = "fo".to_string();
    app.search(500, &vec![Some(lines(&["foo bar", "baz"]))]);
    assert_eq!(app.messages.len(), 1);
    assert_eq!(app.messages[0].contents.len(), 1);
    assert_eq!(app.messages[0].contents[0].raw, "foo bar");
    assert_eq!(app.last_search, 500);
    assert_eq!(app.index, 0);
}

#[test]
fn reach_is_bounded_in_both_lengths() {
    assert_eq!(UNREACHED, 1 << 30);
    assert_eq!(SKIP_LOSS, 7);
    assert_eq!(TAKE_SPAN, 90);
    assert!(reaches(0, 0));
    assert!(reaches(8_000_001, 0));
    assert!(reaches(100_000_000, 1_000_000));
    assert!(reaches(153_391_689, 0));
    assert!(!reaches(153_391_690, 0));
    assert!(reaches(153_391_676, 1));
    assert!(!reaches(153_391_677, 1));
    assert!(reaches(0, 11_930_464));
    assert!(!reaches(0, 11_930_465));
    assert!(reaches(8_000_000, 8_000_000));
    assert!(!reaches(80_000_000, 8_000_000));
    assert!(!reaches(usize::MAX, 0));
    assert!(!reaches(0, usize::MAX));
    assert!(!reaches(usize::MAX, usize::MAX));
}

#[test]
fn line_of_many_millions_is_matched() {
    let long = "a".repeat(9_000_000);
    assert!(score_line(&long, "").is_some());
    assert!(score_line(&long, "a").is_some());
    assert!(score_line(&long, "b").is_none());
    let doc = document(&["a.txt"]);
    let results = doc.search("", &vec![Some(vec![long, "a short line".to_string()])]);
    assert_eq!(results.len(), 1);
    assert_eq!(results[0].contents.len(), 2);
    assert_eq!(results[0].contents[0].line, 1);
    assert_eq!(results[0].contents[0].raw.len(), 9_000_000);
    assert_eq!(results[0].contents[1].line, 2);
}

#[test]
fn line_out_of_reach_counts_as_no_match() {
    let long = " ".repeat(153_391_690);
    assert!(score_line(&long, "").is_none());
    assert!(score_line(&long, " ").is_none());
    let doc = document(&["a.txt"]);
    let results = doc.search("", &vec![Some(vec![long, "a short line".to_string()])]);
    assert_eq!(results.len(), 1);
    assert_eq!(results[0].contents.len(), 1);
    assert_eq!(results[0].contents[0].line, 2);
}

#[test]
fn group_for_any_path_has_the_final_component_or_no_name() {
    let group = DocResult::for_path("./src/main.rs");
    assert_eq!(group.path, "./src/main.rs");
    assert_eq!(group.file_name, "main.rs");
    assert!(group.contents.is_empty());
    let group = DocResult::for_path("src/");
    assert_eq!(group.path, "src/");
    assert_eq!(group.file_name, "src");
    let group = DocResult::for_path("..");
    assert_eq!(group.path, "..");
    assert_eq!(group.file_name, "");
    assert!(group.contents.is_empty());
}

#[test]
fn search_names_each_group_by_the_final_component() {
    let doc = document(&["./src/main.rs", "docs/", ".."]);
    let texts = vec![Some(lines(&["x"])), Some(lines(&["x"])), Some(lines(&["x"]))];
    let results = doc.search("x", &texts);
    assert_eq!(results.len(), 3);
    assert_eq!(results[0].file_name, "main.rs");
    assert_eq!(results[1].file_name, "docs");
    assert_eq!(results[2].path, "..");
    assert_eq!(results[2].file_name, "");
}

#[test]
fn score_line_gives_the_score_of_a_match() {
    assert!(score_line("foo bar", "fo").unwrap() > 0);
    assert_eq!(score_line("foo bar", "fo"), score_line("foo bar", "fo"));
    assert_eq!(score_line("foo bar", "FO"), match_line(1, "foo bar".to_string(), "FO").map(|r| r.score));
    assert!(score_line("foo bar", "rab").is_none());
}
