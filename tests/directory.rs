use dprom::directory::{unique_names, BusName, Directory, NameEvent};

fn uniq(s: &str) -> BusName {
    BusName::Unique(s.to_string())
}

fn known(s: &str) -> BusName {
    BusName::WellKnown(s.to_string())
}

#[test]
fn signal_of_new_unique_name_is_a_connect() {
    match NameEvent::from_signal(uniq(":1.5"), false, true) {
        Some(NameEvent::Add(n)) => assert_eq!(n, ":1.5"),
        other => panic!("unexpected {:?}", other),
    }
}

#[test]
fn signal_of_lost_unique_name_is_a_disconnect() {
    match NameEvent::from_signal(uniq(":1.5"), true, false) {
        Some(NameEvent::Del(n)) => assert_eq!(n, ":1.5"),
        other => panic!("unexpected {:?}", other),
    }
}

#[test]
fn owner_change_and_aliases_are_no_events() {
    assert!(NameEvent::from_signal(uniq(":1.5"), true, true).is_none());
    assert!(NameEvent::from_signal(uniq(":1.5"), false, false).is_none());
    assert!(NameEvent::from_signal(known("org.example.Svc"), false, true).is_none());
    assert!(NameEvent::from_signal(known("org.example.Svc"), true, false).is_none());
}

#[test]
fn listing_keeps_unique_names_in_order() {
    let names = vec![uniq(":1.2"), known("org.freedesktop.DBus"), uniq(":1.7"), known("a.b")];
    assert_eq!(unique_names(names), vec![":1.2".to_string(), ":1.7".to_string()]);
}

fn start(bus: &String) -> String {
    format!("task of {}", bus)
}

#[test]
fn peer_gone_before_listing_is_not_tracked() {
    // subscribed; p connects and leaves; then the listing is taken
    let mut dir: Directory<String> = Directory::new();
    dir.on_listing(vec![uniq(":1.1")], start);
    dir.on_event(NameEvent::Add(":1.9".to_string()), start);
    dir.on_event(NameEvent::Del(":1.9".to_string()), start);
    assert!(dir.contains(&":1.1".to_string()));
    assert!(!dir.contains(&":1.9".to_string()));
}

#[test]
fn peer_connecting_before_listing_is_tracked_once() {
    // p connected after the subscription and shows in the listing too
    let mut dir: Directory<String> = Directory::new();
    let stopped = dir.on_listing(vec![uniq(":1.9")], start);
    assert!(stopped.is_empty());
    let prev = dir.on_event(NameEvent::Add(":1.9".to_string()), start);
    assert_eq!(prev, Some("task of :1.9".to_string()));
    assert_eq!(dir.get(&":1.9".to_string()), Some(&"task of :1.9".to_string()));
    let gone = dir.on_event(NameEvent::Del(":1.9".to_string()), start);
    assert_eq!(gone, Some("task of :1.9".to_string()));
    assert!(!dir.contains(&":1.9".to_string()));
}

#[test]
fn disconnect_of_untracked_peer_changes_nothing() {
    let mut dir: Directory<String> = Directory::new();
    dir.on_listing(vec![uniq(":1.1"), known("x.y")], start);
    assert!(dir.on_event(NameEvent::Del(":1.4".to_string()), start).is_none());
    assert!(dir.contains(&":1.1".to_string()));
    assert!(!dir.contains(&"x.y".to_string()));
}

#[test]
fn repeated_name_in_listing_is_taken_once() {
    let mut dir: Directory<String> = Directory::new();
    let stopped = dir.on_listing(vec![uniq(":1.1"), uniq(":1.1")], start);
    assert!(stopped.is_empty());
    assert_eq!(dir.get(&":1.1".to_string()), Some(&"task of :1.1".to_string()));
}

#[test]
fn listing_hands_back_tasks_of_tracked_peers() {
    let mut dir: Directory<String> = Directory::new();
    dir.on_event(NameEvent::Add(":1.3".to_string()), |b: &String| format!("old {}", b));
    dir.on_event(NameEvent::Add(":1.4".to_string()), |b: &String| format!("old {}", b));
    let stopped = dir.on_listing(vec![uniq(":1.4"), uniq(":1.5"), uniq(":1.4")], start);
    assert_eq!(stopped, vec!["old :1.4".to_string()]);
    assert_eq!(dir.get(&":1.3".to_string()), Some(&"old :1.3".to_string()));
    assert_eq!(dir.get(&":1.4".to_string()), Some(&"task of :1.4".to_string()));
    assert_eq!(dir.get(&":1.5".to_string()), Some(&"task of :1.5".to_string()));
}
