use live_search::document::Document;
use live_search::scan::{Scan, ScanStep};

fn known(paths: &[&str]) -> Document {
    let mut doc = Document::new();
    for path in paths {
        doc.insert(path.to_string());
    }
    doc
}

#[test]
fn scan_of_nothing_is_done_at_once() {
    let doc = Document::new();
    let scan = Scan::begin();
    assert_eq!(scan.next_step(&doc), ScanStep::Done);
    assert!(scan.finish().is_empty());
}

#[test]
fn scan_asks_for_each_file_in_turn() {
    let doc = known(&["a.txt", "b.txt"]);
    let mut scan = Scan::begin();
    assert_eq!(scan.next_step(&doc), ScanStep::Open(0));
    scan.opened(&doc, true);
    assert_eq!(scan.next_step(&doc), ScanStep::Read);
    scan.take_line("o", "one".to_string());
    assert_eq!(scan.next_step(&doc), ScanStep::Read);
    scan.take_line("o", "xyz".to_string());
    scan.take_line("o", "two".to_string());
    scan.end();
    assert_eq!(scan.next_step(&doc), ScanStep::Open(1));
    scan.opened(&doc, true);
    scan.take_line("o", "zero".to_string());
    scan.end();
    assert_eq!(scan.next_step(&doc), ScanStep::Done);
    let results = scan.finish();
    assert_eq!(results.len(), 2);
    assert_eq!(results[0].path, "a.txt");
    assert_eq!(results[0].file_name, "a.txt");
    let numbers: Vec<usize> = results[0].contents.iter().map(|row| row.line).collect();
    assert_eq!(numbers, vec![1, 3]);
    assert_eq!(results[1].path, "b.txt");
    assert_eq!(results[1].contents[0].raw, "zero");
}

#[test]
fn scan_passes_over_a_file_that_does_not_open() {
    let doc = known(&["locked", "open"]);
    let mut scan = Scan::begin();
    assert_eq!(scan.next_step(&doc), ScanStep::Open(0));
    scan.opened(&doc, false);
    assert_eq!(scan.next_step(&doc), ScanStep::Open(1));
    scan.opened(&doc, true);
    scan.take_line("", "text".to_string());
    scan.end();
    assert_eq!(scan.next_step(&doc), ScanStep::Done);
    let results = scan.finish();
    assert_eq!(results.len(), 1);
    assert_eq!(results[0].path, "open");
}

#[test]
fn scan_keeps_the_rows_read_before_a_failure() {
    let doc = known(&["a"]);
    let mut scan = Scan::begin();
    scan.opened(&doc, true);
    scan.take_line("x", "x1".to_string());
    scan.take_line("x", "x2".to_string());
    scan.end();
    let results = scan.finish();
    assert_eq!(results.len(), 1);
    assert_eq!(results[0].contents.len(), 2);
}

#[test]
fn scan_leaves_a_file_at_the_cap_of_rows() {
    let doc = known(&["a", "b"]);
    let mut scan = Scan::begin();
    scan.opened(&doc, true);
    for n in 0..19 {
        scan.take_line("", format!("line {}", n));
        assert_eq!(scan.next_step(&doc), ScanStep::Read);
    }
    scan.take_line("", "line 19".to_string());
    assert_eq!(scan.next_step(&doc), ScanStep::Open(1));
    scan.take_line("", "too late".to_string());
    scan.end();
    assert_eq!(scan.next_step(&doc), ScanStep::Open(1));
    scan.opened(&doc, false);
    assert_eq!(scan.next_step(&doc), ScanStep::Done);
    let results = scan.finish();
    assert_eq!(results.len(), 1);
    assert_eq!(results[0].contents.len(), 20);
    assert_eq!(results[0].contents[19].raw, "line 19");
}

#[test]
fn scan_stops_at_the_cap_of_files() {
    let mut doc = Document::new();
    for n in 0..200 {
        doc.insert(format!("file{}", n));
    }
    let mut scan = Scan::begin();
    let mut opened = 0;
    loop {
        match scan.next_step(&doc) {
            ScanStep::Open(index) => {
                assert_eq!(index, opened);
                opened += 1;
                scan.opened(&doc, index % 2 == 0);
            }
            ScanStep::Read => {
                scan.take_line("", "text".to_string());
                scan.end();
            }
            ScanStep::Done => break,
        }
    }
    assert_eq!(opened, 120);
    assert_eq!(scan.finish().len(), 60);
}

#[test]
fn scan_ignores_what_it_did_not_ask_for() {
    let doc = known(&["a"]);
    let mut scan = Scan::begin();
    scan.take_line("", "no file is open".to_string());
    scan.end();
    assert_eq!(scan.next_step(&doc), ScanStep::Open(0));
    scan.opened(&doc, true);
    scan.opened(&doc, false);
    assert_eq!(scan.next_step(&doc), ScanStep::Read);
    scan.record("kept".to_string(), Some(9));
    scan.record("dropped".to_string(), None);
    scan.end();
    scan.opened(&doc, true);
    assert_eq!(scan.next_step(&doc), ScanStep::Done);
    let results = scan.finish();
    assert_eq!(results.len(), 1);
    assert_eq!(results[0].contents.len(), 1);
    assert_eq!(results[0].contents[0].line, 1);
    assert_eq!(results[0].contents[0].score, 9);
}

#[test]
fn scan_agrees_with_the_search_in_memory() {
    let doc = known(&["a", "b", "c"]);
    let texts = vec![
        Some(vec!["foo".to_string(), "bar".to_string(), "fob".to_string()]),
        None,
        Some(vec!["of".to_string(), "fo".to_string()]),
    ];
    let mut scan = Scan::begin();
    loop {
        match scan.next_step(&doc) {
            ScanStep::Open(index) => scan.opened(&doc, texts[index].is_some()),
            ScanStep::Read => {
                let lines = texts[scan.file].as_ref().unwrap();
                if scan.line < lines.len() {
                    let text = lines[scan.line].clone();
                    scan.take_line("fo", text);
                } else {
                    scan.end();
                }
            }
            ScanStep::Done => break,
        }
    }
    let stepped = scan.finish();
    let whole = doc.search("fo", &texts);
    assert_eq!(stepped.len(), 2);
    assert_eq!(stepped.len(), whole.len());
    for (a, b) in stepped.iter().zip(whole.iter()) {
        assert_eq!(a.path, b.path);
        assert_eq!(a.contents.len(), b.contents.len());
        for (x, y) in a.contents.iter().zip(b.contents.iter()) {
            assert_eq!((x.line, &x.raw, x.score), (y.line, &y.raw, y.score));
        }
    }
}
