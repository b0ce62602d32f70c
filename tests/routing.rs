use hotwatch::{handler_for_event, ChangeKind, Event, ModifyKind, Registry};

fn path(text: &str) -> Vec<String> {
    let mut parts = vec!["/".to_string()];
    for part in text.split('/').filter(|p| !p.is_empty()) {
        parts.push(part.to_string());
    }
    parts
}

fn event_at(text: &str) -> Event {
    Event { paths: vec![path(text)], kind: ChangeKind::Modify(ModifyKind::Data) }
}

fn routed(registry: &mut Registry<u32>, text: &str) -> Option<u32> {
    handler_for_event(&event_at(text), registry).map(|h| *h)
}

fn nested() -> Registry<u32> {
    let mut registry = Registry::new();
    registry.insert(path("/a"), 1);
    registry.insert(path("/a/b"), 2);
    registry
}

#[test]
fn deepest_registered_ancestor_wins() {
    let mut registry = nested();
    assert_eq!(routed(&mut registry, "/a/b/c"), Some(2));
    assert_eq!(routed(&mut registry, "/a/x"), Some(1));
    assert_eq!(routed(&mut registry, "/z"), None);
}

#[test]
fn exact_path_goes_to_its_own_handler() {
    let mut registry = nested();
    assert_eq!(routed(&mut registry, "/a/b"), Some(2));
    assert_eq!(routed(&mut registry, "/a"), Some(1));
    assert_eq!(routed(&mut registry, "/"), None);
}

#[test]
fn file_handler_shadows_directory_handler() {
    let mut registry = Registry::new();
    registry.insert(path("/dir"), 10);
    registry.insert(path("/dir/file1"), 11);
    assert_eq!(routed(&mut registry, "/dir/file1"), Some(11));
    assert_eq!(routed(&mut registry, "/dir/file2"), Some(10));
}

#[test]
fn root_handler_catches_everything() {
    let mut registry = Registry::new();
    registry.insert(path("/"), 7);
    assert_eq!(routed(&mut registry, "/z/y"), Some(7));
    assert_eq!(routed(&mut registry, "/"), Some(7));
}

#[test]
fn sibling_with_common_name_prefix_is_no_ancestor() {
    let mut registry = Registry::new();
    registry.insert(path("/ab"), 1);
    assert_eq!(routed(&mut registry, "/abc"), None);
    assert_eq!(routed(&mut registry, "/ab/c"), Some(1));
}

#[test]
fn event_without_path_goes_nowhere() {
    let mut registry = nested();
    let event = Event { paths: vec![], kind: ChangeKind::Create };
    assert!(handler_for_event(&event, &mut registry).is_none());
}

#[test]
fn routing_goes_by_the_first_path() {
    let mut registry = nested();
    let event = Event { paths: vec![path("/z"), path("/a/b")], kind: ChangeKind::Modify(ModifyKind::Name) };
    assert!(handler_for_event(&event, &mut registry).is_none());
    let event = Event { paths: vec![path("/a/b/f"), path("/z")], kind: ChangeKind::Modify(ModifyKind::Name) };
    assert_eq!(handler_for_event(&event, &mut registry).map(|h| *h), Some(2));
}

#[test]
fn empty_registry_routes_nothing() {
    let mut registry: Registry<u32> = Registry::new();
    assert_eq!(registry.len(), 0);
    assert_eq!(routed(&mut registry, "/a"), None);
}

#[test]
fn handler_can_change_through_lookup() {
    let mut registry = nested();
    if let Some(h) = handler_for_event(&event_at("/a/b/c"), &mut registry) {
        *h += 40;
    }
    assert_eq!(routed(&mut registry, "/a/b"), Some(42));
    assert_eq!(routed(&mut registry, "/a"), Some(1));
}

#[test]
fn registering_twice_keeps_one_entry_with_latest_handler() {
    let mut registry = Registry::new();
    assert!(!registry.insert(path("/a"), 1));
    assert!(registry.insert(path("/a"), 2));
    assert_eq!(registry.len(), 1);
    assert_eq!(routed(&mut registry, "/a/f"), Some(2));
}

#[test]
fn unregistering_unknown_path_reports_absence() {
    let mut registry = nested();
    assert!(!registry.remove(&path("/q")));
    assert_eq!(registry.len(), 2);
}

#[test]
fn unregistered_path_falls_back_to_ancestor() {
    let mut registry = nested();
    assert!(registry.remove(&path("/a/b")));
    assert!(!registry.contains(&path("/a/b")));
    assert_eq!(routed(&mut registry, "/a/b"), Some(1));
    assert!(registry.remove(&path("/a")));
    assert_eq!(routed(&mut registry, "/a/b"), None);
    assert!(!registry.remove(&path("/a")));
    assert_eq!(registry.len(), 0);
}

#[test]
fn lookup_ancestor_reads_without_changing() {
    let registry = nested();
    assert_eq!(registry.lookup_ancestor(&path("/a/b/c/d")), Some(&2));
    assert_eq!(registry.lookup_ancestor(&path("/b")), None);
    assert!(registry.contains(&path("/a")));
    assert!(!registry.contains(&path("/a/b/c")));
}

#[test]
fn relative_paths_route_by_components() {
    let mut registry = Registry::new();
    registry.insert(vec!["src".to_string()], 3);
    let event = Event {
        paths: vec![vec!["src".to_string(), "lib.rs".to_string()]],
        kind: ChangeKind::Create,
    };
    assert_eq!(handler_for_event(&event, &mut registry).map(|h| *h), Some(3));
}
