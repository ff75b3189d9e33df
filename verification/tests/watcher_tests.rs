use noorg::watcher::{title_of_change, ChangeKind, WatchAction, Watcher, DEBOUNCE_MS};

fn is_sync(action: &WatchAction, title: &str) -> bool {
    match action {
        WatchAction::Sync { title: t } => t == title,
        _ => false,
    }
}

#[test]
fn two_changes_ten_milliseconds_apart_sync_once() {
    let mut w = Watcher::new("md".to_string());
    let mut syncs = 0;
    for now in [1000u64, 1010] {
        if is_sync(&w.on_event(ChangeKind::Modified, "/notes/Demo.md", now), "Demo") {
            syncs += 1;
        }
    }
    assert_eq!(syncs, 1);
}

#[test]
fn two_changes_two_hundred_milliseconds_apart_sync_twice() {
    let mut w = Watcher::new("md".to_string());
    assert!(is_sync(&w.on_event(ChangeKind::Modified, "/notes/Demo.md", 1000), "Demo"));
    w.release("/notes/Demo.md");
    assert!(is_sync(&w.on_event(ChangeKind::Modified, "/notes/Demo.md", 1200), "Demo"));
}

#[test]
fn change_within_window_is_debounced_even_after_release() {
    let mut w = Watcher::new("md".to_string());
    assert!(is_sync(&w.on_event(ChangeKind::Created, "/n/a.md", 0), "a"));
    w.release("/n/a.md");
    assert!(matches!(w.on_event(ChangeKind::Modified, "/n/a.md", DEBOUNCE_MS - 1), WatchAction::Debounced));
    assert!(is_sync(&w.on_event(ChangeKind::Modified, "/n/a.md", DEBOUNCE_MS), "a"));
}

#[test]
fn file_in_flight_is_busy_whatever_the_time() {
    let mut w = Watcher::new("md".to_string());
    assert!(is_sync(&w.on_event(ChangeKind::Modified, "/n/a.md", 5), "a"));
    assert!(matches!(w.on_event(ChangeKind::Modified, "/n/a.md", 5000), WatchAction::Busy));
    assert!(is_sync(&w.on_event(ChangeKind::Modified, "/n/b.md", 6), "b"));
    w.release("/n/a.md");
    assert!(is_sync(&w.on_event(ChangeKind::Modified, "/n/a.md", 5001), "a"));
    assert!(matches!(w.on_event(ChangeKind::Modified, "/n/b.md", 5001), WatchAction::Busy));
}

#[test]
fn clock_that_runs_backwards_debounces() {
    let mut w = Watcher::new("md".to_string());
    assert!(is_sync(&w.on_change("/n/a.md", Some("a".to_string()), 500), "a"));
    w.release("/n/a.md");
    assert!(matches!(w.on_change("/n/a.md", Some("a".to_string()), 100), WatchAction::Debounced));
}

#[test]
fn other_events_and_other_files_are_ignored() {
    let mut w = Watcher::new("md".to_string());
    assert!(matches!(w.on_event(ChangeKind::Other, "/n/a.md", 0), WatchAction::Ignore));
    assert!(matches!(w.on_event(ChangeKind::Modified, "/n/a.txt", 0), WatchAction::Ignore));
    assert!(matches!(w.on_event(ChangeKind::Modified, "/n/noext", 0), WatchAction::Ignore));
    assert!(matches!(w.on_change("/n/a.md", None, 0), WatchAction::Ignore));
    assert!(is_sync(&w.on_event(ChangeKind::Modified, "/n/a.md", 0), "a"));
}

#[test]
fn titles_are_percent_decoded() {
    let mut w = Watcher::new("md".to_string());
    assert!(is_sync(&w.on_event(ChangeKind::Created, "/n/My%20Note%C3%A9.md", 0), "My Noteé"));
    assert_eq!(
        title_of_change(ChangeKind::Modified, Some("md".to_string()), Some("a%FFb".to_string()), "md"),
        Some("a%FFb".to_string())
    );
    assert_eq!(
        title_of_change(ChangeKind::Modified, Some("md".to_string()), Some("50%".to_string()), "md"),
        Some("50%".to_string())
    );
    assert_eq!(
        title_of_change(ChangeKind::Other, Some("md".to_string()), Some("a".to_string()), "md"),
        None
    );
    assert_eq!(title_of_change(ChangeKind::Created, None, Some("a".to_string()), "md"), None);
    assert_eq!(title_of_change(ChangeKind::Created, Some("md".to_string()), None, "md"), None);
}

#[test]
fn file_leaves_flight_when_the_window_after_its_sync_has_passed() {
    let mut w = Watcher::new("md".to_string());
    assert!(is_sync(&w.on_event(ChangeKind::Modified, "/n/a.md", 1000), "a"));
    w.sync_done("/n/a.md", 1500);
    w.release_due(1500 + DEBOUNCE_MS - 1);
    assert!(matches!(w.on_event(ChangeKind::Modified, "/n/a.md", 1599), WatchAction::Busy));
    w.release_due(1500 + DEBOUNCE_MS);
    assert!(is_sync(&w.on_event(ChangeKind::Modified, "/n/a.md", 1600), "a"));
}

#[test]
fn releases_are_made_for_due_files_only() {
    let mut w = Watcher::new("md".to_string());
    assert!(is_sync(&w.on_event(ChangeKind::Modified, "/n/a.md", 0), "a"));
    assert!(is_sync(&w.on_event(ChangeKind::Modified, "/n/b.md", 0), "b"));
    w.sync_done("/n/a.md", 10);
    w.sync_done("/n/b.md", 500);
    w.release_due(200);
    assert!(is_sync(&w.on_event(ChangeKind::Modified, "/n/a.md", 200), "a"));
    assert!(matches!(w.on_event(ChangeKind::Modified, "/n/b.md", 200), WatchAction::Busy));
    w.release_due(600);
    assert!(matches!(w.on_event(ChangeKind::Modified, "/n/a.md", 700), WatchAction::Busy));
    assert!(is_sync(&w.on_event(ChangeKind::Modified, "/n/b.md", 700), "b"));
}

#[test]
fn release_at_the_end_of_time_is_made_at_the_last_moment() {
    let mut w = Watcher::new("md".to_string());
    assert!(is_sync(&w.on_event(ChangeKind::Modified, "/n/a.md", 0), "a"));
    w.sync_done("/n/a.md", u64::MAX - 1);
    w.release_due(u64::MAX - 1);
    assert!(matches!(w.on_event(ChangeKind::Modified, "/n/a.md", u64::MAX - 1), WatchAction::Busy));
    w.release_due(u64::MAX);
    assert!(is_sync(&w.on_event(ChangeKind::Modified, "/n/a.md", u64::MAX), "a"));
}
