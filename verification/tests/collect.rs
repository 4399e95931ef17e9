use crossbeam::channel::{bounded, TrySendError};
use live_search::app::App;
use live_search::walk::{walk_step, DirEntry, Outcome, WalkStep, CHANNEL_CAPACITY, WALK_THREADS};

#[test]
fn walk_stops_only_when_the_receiver_is_gone() {
    assert_eq!(walk_step(Outcome::Sent), WalkStep::Continue);
    assert_eq!(walk_step(Outcome::Skipped), WalkStep::Continue);
    assert_eq!(walk_step(Outcome::Refused), WalkStep::Quit);
}

#[test]
fn walk_settings() {
    assert_eq!(CHANNEL_CAPACITY, 100);
    assert_eq!(WALK_THREADS, 2);
}

#[test]
fn entry_carries_its_path() {
    let entry = DirEntry::Message("./src/lib.rs".to_string());
    assert_eq!(entry.path(), "./src/lib.rs");
}

#[test]
fn files_join_the_known_paths_once() {
    let mut app = App::new(0);
    assert!(app.merge(DirEntry::Message("a.txt".to_string()), true));
    assert_eq!(app.total_files, 1);
    assert!(app.merge(DirEntry::Message("b.txt".to_string()), true));
    assert_eq!(app.total_files, 2);
    assert!(!app.merge(DirEntry::Message("a.txt".to_string()), true));
    assert_eq!(app.total_files, 2);
    assert_eq!(app.doc.len(), 2);
    assert_eq!(app.doc.path(0).unwrap(), "a.txt");
    assert_eq!(app.doc.path(1).unwrap(), "b.txt");
}

#[test]
fn directories_do_not_join_the_known_paths() {
    let mut app = App::new(0);
    assert!(!app.merge(DirEntry::Message("src".to_string()), false));
    assert_eq!(app.total_files, 0);
    assert_eq!(app.doc.len(), 0);
}

#[test]
fn number_of_known_paths_never_falls() {
    let mut app = App::new(0);
    let mut last = 0;
    let found = ["a", "b", "a", "c", "c", "d", "a", "e"];
    for (step, path) in found.iter().enumerate() {
        app.merge(DirEntry::Message(path.to_string()), step % 3 != 2);
        app.move_down();
        app.search(1000 * step as u64, &Vec::new());
        assert!(app.doc.len() >= last);
        assert_eq!(app.total_files, app.doc.len());
        last = app.doc.len();
    }
    assert_eq!(last, 4);
}

#[test]
fn finding_files_does_not_search() {
    let mut app = App::new(0);
    app.search(500, &Vec::new());
    assert_eq!(app.last_search, 500);
    app.add_path("a.txt".to_string());
    assert!(app.messages.is_empty());
    assert_eq!(app.last_search, 500);
}

#[test]
fn update_total_files_counts_the_known_paths() {
    let mut app = App::new(0);
    app.doc.insert("a".to_string());
    app.doc.insert("b".to_string());
    assert_eq!(app.total_files, 0);
    app.update_total_files();
    assert_eq!(app.total_files, 2);
}

#[test]
fn full_channel_holds_the_third_entry_back() {
    let (sender, receiver) = bounded::<DirEntry>(2);
    sender.try_send(DirEntry::Message("one".to_string())).unwrap();
    sender.try_send(DirEntry::Message("two".to_string())).unwrap();
    let third = sender.try_send(DirEntry::Message("three".to_string()));
    let held = match third {
        Err(TrySendError::Full(entry)) => entry,
        _ => panic!("the third entry went through"),
    };
    assert_eq!(receiver.recv().unwrap().path(), "one");
    sender.try_send(held).unwrap();
    assert_eq!(receiver.recv().unwrap().path(), "two");
    assert_eq!(receiver.recv().unwrap().path(), "three");
}

#[test]
fn send_fails_once_the_receiver_is_gone() {
    let (sender, receiver) = bounded::<DirEntry>(2);
    drop(receiver);
    let outcome = if sender.send(DirEntry::Message("late".to_string())).is_err() {
        Outcome::Refused
    } else {
        Outcome::Sent
    };
    assert_eq!(walk_step(outcome), WalkStep::Quit);
}
