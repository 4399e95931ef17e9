use live_search::app::{App, Effect, InputMode, Key};
use live_search::document::{DocResult, Row};
use live_search::nav::{clamp, locate};

fn group(path: &str, numbers: &[usize]) -> DocResult {
    let mut group = DocResult::new(path);
    for number in numbers {
        group.push(Row { line: *number, raw: format!("line {}", number), score: 0 });
    }
    group
}

fn app_with(groups: Vec<DocResult>) -> App {
    let mut app = App::new(0);
    app.set_results(groups, 0);
    app
}

#[test]
fn starts_in_editing_with_nothing() {
    let app = App::new(42);
    assert_eq!(app.input_mode, InputMode::Editing);
    assert_eq!(app.input, "");
    assert!(app.messages.is_empty());
    assert!(app.file_contents.is_empty());
    assert_eq!(app.index, 0);
    assert_eq!(app.total_files, 0);
    assert_eq!(app.doc.len(), 0);
    assert_eq!(app.scroll.x, 0);
    assert_eq!(app.scroll.y, 0);
    assert_eq!(app.last_search, 42);
}

#[test]
fn selection_walks_all_rows_of_all_groups() {
    let mut app = app_with(vec![group("a", &[1, 2]), group("b", &[7]), group("c", &[3, 4])]);
    let mut seen = vec![app.index];
    for _ in 0..10 {
        app.move_down();
        seen.push(app.index);
    }
    assert_eq!(seen, vec![0, 1, 2, 3, 4, 4, 4, 4, 4, 4, 4]);
    for _ in 0..10 {
        app.move_up();
    }
    assert_eq!(app.index, 0);
}

#[test]
fn selection_does_not_wrap_at_either_end() {
    let mut app = app_with(vec![group("a", &[1, 2, 3])]);
    app.move_up();
    assert_eq!(app.index, 0);
    app.move_down();
    app.move_down();
    assert_eq!(app.index, 2);
    app.move_down();
    assert_eq!(app.index, 2);
}

#[test]
fn selection_stays_in_range_under_any_moves() {
    let mut app = app_with(vec![group("a", &[1, 2]), group("b", &[5, 6, 7])]);
    let moves = [true, true, false, true, true, true, true, true, false, false, false, false,
        false, false, true, false, true, true];
    for down in moves {
        if down {
            app.move_down();
        } else {
            app.move_up();
        }
        assert!(app.index <= 4);
    }
    assert_eq!(app.index, 2);
}

#[test]
fn selection_stays_at_zero_without_results() {
    let mut app = App::new(0);
    app.move_down();
    assert_eq!(app.index, 0);
    app.move_up();
    assert_eq!(app.index, 0);
    assert_eq!(app.on_key(Key::Down, 10), Effect::Nothing);
    assert_eq!(app.index, 0);
}

#[test]
fn locate_finds_group_and_row() {
    let groups = vec![group("a", &[1, 2]), group("b", &[7]), group("c", &[3, 4])];
    assert_eq!(locate(&groups, 0), Some((0, 0)));
    assert_eq!(locate(&groups, 1), Some((0, 1)));
    assert_eq!(locate(&groups, 2), Some((1, 0)));
    assert_eq!(locate(&groups, 3), Some((2, 0)));
    assert_eq!(locate(&groups, 4), Some((2, 1)));
    assert_eq!(locate(&groups, 5), None);
    assert_eq!(locate(&Vec::new(), 0), None);
}

#[test]
fn locate_passes_over_empty_groups() {
    let groups = vec![group("a", &[]), group("b", &[7]), group("c", &[])];
    assert_eq!(locate(&groups, 0), Some((1, 0)));
    assert_eq!(locate(&groups, 1), None);
}

#[test]
fn selected_path_is_the_file_of_the_selected_row() {
    let mut app = app_with(vec![group("a", &[1, 2]), group("b", &[7])]);
    assert_eq!(app.selected_path().unwrap(), "a");
    app.move_down();
    assert_eq!(app.selected_path().unwrap(), "a");
    app.move_down();
    assert_eq!(app.selected_path().unwrap(), "b");
    let empty = App::new(0);
    assert!(empty.selected_path().is_none());
}

#[test]
fn browsing_keys() {
    let mut app = app_with(vec![group("a", &[1, 2, 3])]);
    assert_eq!(app.on_key(Key::Esc, 1), Effect::Nothing);
    assert_eq!(app.input_mode, InputMode::Normal);
    assert_eq!(app.on_key(Key::Char('j'), 2), Effect::Nothing);
    assert_eq!(app.index, 1);
    assert_eq!(app.on_key(Key::Down, 3), Effect::Nothing);
    assert_eq!(app.index, 2);
    assert_eq!(app.on_key(Key::Char('k'), 4), Effect::Nothing);
    assert_eq!(app.index, 1);
    assert_eq!(app.on_key(Key::Up, 5), Effect::Nothing);
    assert_eq!(app.index, 0);
    assert_eq!(app.on_key(Key::Char('x'), 6), Effect::Nothing);
    assert_eq!(app.input, "");
    assert_eq!(app.on_key(Key::Backspace, 6), Effect::Nothing);
    assert_eq!(app.on_key(Key::Enter, 7), Effect::Open);
    assert_eq!(app.input_mode, InputMode::Normal);
    assert_eq!(app.on_key(Key::Char('i'), 8), Effect::Nothing);
    assert_eq!(app.input_mode, InputMode::Editing);
}

#[test]
fn quit_keys_end_the_run_from_browsing() {
    let mut app = App::new(0);
    app.on_key(Key::Esc, 1);
    assert_eq!(app.input_mode, InputMode::Normal);
    assert_eq!(app.on_key(Key::Char('q'), 2), Effect::Quit);
    assert_eq!(app.on_key(Key::Esc, 3), Effect::Quit);
    assert_eq!(app.input_mode, InputMode::Normal);
}

#[test]
fn editing_keys_change_the_query() {
    let mut app = app_with(vec![group("a", &[1, 2, 3])]);
    app.move_down();
    assert_eq!(app.on_key(Key::Char('q'), 100), Effect::Nothing);
    assert_eq!(app.input, "q");
    assert_eq!(app.index, 0);
    assert_eq!(app.on_key(Key::Char('é'), 499), Effect::Nothing);
    assert_eq!(app.input, "qé");
    assert_eq!(app.on_key(Key::Char('j'), 500), Effect::Search);
    assert_eq!(app.input, "qéj");
    assert_eq!(app.on_key(Key::Backspace, 600), Effect::Search);
    assert_eq!(app.input, "qé");
    app.on_key(Key::Backspace, 600);
    app.on_key(Key::Backspace, 600);
    assert_eq!(app.input, "");
    assert_eq!(app.on_key(Key::Backspace, 600), Effect::Search);
    assert_eq!(app.input, "");
    assert_eq!(app.input_mode, InputMode::Editing);
    assert_eq!(app.messages.len(), 1);
}

#[test]
fn editing_keys_move_the_selection() {
    let mut app = app_with(vec![group("a", &[1, 2, 3])]);
    assert_eq!(app.on_key(Key::Down, 1), Effect::Nothing);
    assert_eq!(app.index, 1);
    assert_eq!(app.on_key(Key::Up, 1), Effect::Nothing);
    assert_eq!(app.index, 0);
    assert_eq!(app.on_key(Key::Left, 1), Effect::Nothing);
    assert_eq!(app.on_key(Key::Other, 1), Effect::Nothing);
    assert_eq!(app.index, 0);
    assert_eq!(app.input, "");
}

#[test]
fn edit_resets_the_selection_also_when_no_search_is_due() {
    let mut app = app_with(vec![group("a", &[1, 2, 3])]);
    app.move_down();
    app.move_down();
    assert_eq!(app.index, 2);
    assert_eq!(app.on_key(Key::Char('a'), 10), Effect::Nothing);
    assert_eq!(app.index, 0);
    assert_eq!(app.messages[0].contents.len(), 3);
}

#[test]
fn enter_without_results_opens_nothing() {
    let mut app = App::new(0);
    assert_eq!(app.on_key(Key::Enter, 1), Effect::Nothing);
    assert_eq!(app.input_mode, InputMode::Editing);
    assert_eq!(app.open_file(&vec!["text".to_string()]), None);
    assert_eq!(app.input_mode, InputMode::Editing);
    assert!(app.file_contents.is_empty());
    assert_eq!(app.index, 0);
}

#[test]
fn selected_line_is_the_number_of_the_selected_row() {
    let mut app = app_with(vec![group("a", &[4, 8]), group("b", &[15])]);
    assert_eq!(app.selected_line(), Some(4));
    app.move_down();
    assert_eq!(app.selected_line(), Some(8));
    app.move_down();
    assert_eq!(app.selected_line(), Some(15));
    assert_eq!(App::new(0).selected_line(), None);
}

#[test]
fn selected_name_is_the_name_of_the_selected_file() {
    let mut app = app_with(vec![group("src/a.rs", &[4, 8]), group("b/c/d.txt", &[15])]);
    assert_eq!(app.selected_name().unwrap(), "a.rs");
    app.move_down();
    app.move_down();
    assert_eq!(app.selected_name().unwrap(), "d.txt");
    assert_eq!(app.selected_path().unwrap(), "b/c/d.txt");
    assert!(App::new(0).selected_name().is_none());
}

#[test]
fn clamp_keeps_a_selection_that_names_a_result() {
    let groups = vec![group("a", &[1, 2]), group("b", &[7]), group("c", &[3, 4])];
    for index in 0..5 {
        assert_eq!(clamp(&groups, index), index);
    }
    assert_eq!(clamp(&groups, 5), 4);
    assert_eq!(clamp(&groups, 6), 4);
    assert_eq!(clamp(&groups, usize::MAX), 4);
    assert_eq!(clamp(&Vec::new(), 0), 0);
    assert_eq!(clamp(&Vec::new(), 3), 0);
    assert_eq!(clamp(&vec![group("a", &[])], 3), 0);
    assert_eq!(clamp(&vec![group("a", &[9])], 3), 0);
}

#[test]
fn new_results_keep_the_selection_in_range() {
    let mut app = app_with(vec![group("a", &[1, 2]), group("b", &[7]), group("c", &[3, 4])]);
    app.move_down();
    app.move_down();
    app.move_down();
    assert_eq!(app.index, 3);
    app.set_results(vec![group("a", &[1, 2]), group("b", &[7, 8, 9])], 10);
    assert_eq!(app.index, 3);
    assert_eq!(app.last_search, 10);
    assert_eq!(app.selected_line(), Some(8));
    app.set_results(vec![group("a", &[1, 2])], 20);
    assert_eq!(app.index, 1);
    assert_eq!(app.selected_line(), Some(2));
    app.set_results(Vec::new(), 30);
    assert_eq!(app.index, 0);
    assert_eq!(app.selected_line(), None);
}

#[test]
fn step_down_is_the_next_result_or_the_last() {
    let mut app = app_with(vec![group("a", &[1, 2]), group("b", &[7])]);
    for index in 0..3usize {
        app.index = index;
        app.move_down();
        assert_eq!(app.index, (index + 1).min(2));
        app.index = index;
        app.move_up();
        assert_eq!(app.index, index.saturating_sub(1));
    }
}
