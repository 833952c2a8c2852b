use ourea::watcher::{change_events, event_kind_to_string, EventKind, WatcherState};

#[test]
fn event_kinds_are_normalized() {
    assert_eq!(event_kind_to_string(&EventKind::Create), "create");
    assert_eq!(event_kind_to_string(&EventKind::Modify), "modify");
    assert_eq!(event_kind_to_string(&EventKind::Remove), "remove");
    assert_eq!(event_kind_to_string(&EventKind::Access), "access");
    assert_eq!(event_kind_to_string(&EventKind::Other), "other");
    assert_eq!(event_kind_to_string(&EventKind::Any), "unknown");
}

#[test]
fn modify_of_one_file_gives_one_modify_event() {
    let events = change_events(&vec!["/tmp/x.txt".to_string()], &EventKind::Modify);
    assert_eq!(events.len(), 1);
    assert_eq!(events[0].path, "/tmp/x.txt");
    assert_eq!(events[0].kind, "modify");
}

#[test]
fn one_event_per_path_in_order() {
    let events = change_events(&vec!["/a".to_string(), "/b".to_string()], &EventKind::Remove);
    assert_eq!(events.iter().map(|e| e.path.as_str()).collect::<Vec<_>>(), vec!["/a", "/b"]);
    assert!(events.iter().all(|e| e.kind == "remove"));
    assert!(change_events(&vec![], &EventKind::Create).is_empty());
}

#[test]
fn stopping_twice_is_a_no_op() {
    let mut reg: WatcherState<u32> = WatcherState::new();
    reg.start_watching("/p".to_string(), 1);
    assert_eq!(reg.stop_watching("/p"), Some(1));
    assert_eq!(reg.stop_watching("/p"), None);
    assert_eq!(reg.len(), 0);
    assert_eq!(reg.stop_watching("/never"), None);
}

#[test]
fn starting_twice_replaces_the_watch() {
    let mut reg: WatcherState<u32> = WatcherState::new();
    assert_eq!(reg.start_watching("/p".to_string(), 1), None);
    assert_eq!(reg.len(), 1);
    assert_eq!(reg.start_watching("/p".to_string(), 2), Some(1));
    assert_eq!(reg.len(), 1);
    assert!(reg.is_watching("/p"));
    assert_eq!(reg.stop_watching("/p"), Some(2));
}

#[test]
fn distinct_paths_are_watched_separately() {
    let mut reg: WatcherState<u32> = WatcherState::new();
    reg.start_watching("/a".to_string(), 1);
    reg.start_watching("/b".to_string(), 2);
    assert_eq!(reg.len(), 2);
    assert_eq!(reg.stop_watching("/a"), Some(1));
    assert!(!reg.is_watching("/a"));
    assert!(reg.is_watching("/b"));
}

#[test]
fn stop_all_hands_back_every_handle() {
    let mut reg: WatcherState<u32> = WatcherState::new();
    reg.start_watching("/a".to_string(), 1);
    reg.start_watching("/b".to_string(), 2);
    reg.start_watching("/c".to_string(), 3);
    assert_eq!(reg.stop_all_watching(), vec![1, 2, 3]);
    assert_eq!(reg.len(), 0);
    assert!(!reg.is_watching("/b"));
    assert!(reg.stop_all_watching().is_empty());
}

#[test]
fn default_registry_is_empty() {
    let reg: WatcherState<u32> = WatcherState::default();
    assert_eq!(reg.len(), 0);
    assert!(!reg.is_watching("/a"));
}
