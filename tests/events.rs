use hotwatch::{log_dead, log_event, log_matching_path, ChangeKind, Event, ModifyKind};

fn parts(items: &[&str]) -> Vec<String> {
    items.iter().map(|s| s.to_string()).collect()
}

fn of_kind(kind: ChangeKind) -> Event {
    Event { paths: vec![parts(&["/", "f"])], kind }
}

#[test]
fn kind_predicates() {
    assert!(of_kind(ChangeKind::Create).created());
    assert!(!of_kind(ChangeKind::Create).changed());
    assert!(of_kind(ChangeKind::Modify(ModifyKind::Data)).changed());
    assert!(!of_kind(ChangeKind::Modify(ModifyKind::Any)).changed());
    assert!(of_kind(ChangeKind::Modify(ModifyKind::Metadata)).chmoded());
    assert!(of_kind(ChangeKind::Modify(ModifyKind::Name)).rename());
    assert!(!of_kind(ChangeKind::Modify(ModifyKind::Name)).removed());
    assert!(of_kind(ChangeKind::Remove).removed());
    assert!(!of_kind(ChangeKind::Access).created());
}

#[test]
fn matching_line_writes_absolute_path() {
    assert_eq!(log_matching_path(&parts(&["/", "a", "b"])), "matching against /a/b");
    assert_eq!(log_matching_path(&parts(&["/"])), "matching against /");
}

#[test]
fn matching_line_writes_relative_and_prefixed_paths() {
    assert_eq!(log_matching_path(&parts(&["a", "b"])), "matching against a/b");
    assert_eq!(log_matching_path(&parts(&["C:", "\\", "x", "y"])), "matching against C:\\x/y");
    assert_eq!(log_matching_path(&parts(&[])), "matching against ");
}

#[test]
fn event_line_names_kind_and_paths() {
    let event = Event {
        paths: vec![parts(&["/", "a"]), parts(&["/", "b", "c"])],
        kind: ChangeKind::Modify(ModifyKind::Name),
    };
    assert_eq!(log_event(&event), "received event: modify (name) /a /b/c");
    let bare = Event { paths: vec![], kind: ChangeKind::Other };
    assert_eq!(log_event(&bare), "received event: other");
}

#[test]
fn dead_line() {
    assert_eq!(log_dead(), "sender disconnected! the watcher is dead");
}
