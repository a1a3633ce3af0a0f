use dprom::tasks::TaskMap;

fn keys(list: &[&str]) -> Vec<String> {
    list.iter().map(|s| s.to_string()).collect()
}

#[test]
fn snapshot_diff_keeps_starts_and_stops() {
    let mut map: TaskMap<String> = TaskMap::new();
    let stopped = map.apply_snapshot(keys(&["a", "b"]), |k: &String| format!("{}#1", k));
    assert_eq!(stopped.get(&"a".to_string()), None);
    assert_eq!(map.get(&"a".to_string()), Some(&"a#1".to_string()));
    assert_eq!(map.get(&"b".to_string()), Some(&"b#1".to_string()));

    let stopped = map.apply_snapshot(keys(&["b", "c"]), |k: &String| format!("{}#2", k));
    // a is cancelled
    assert!(!map.contains(&"a".to_string()));
    assert_eq!(stopped.get(&"a".to_string()), Some(&"a#1".to_string()));
    // b keeps the task it had
    assert_eq!(map.get(&"b".to_string()), Some(&"b#1".to_string()));
    assert!(!stopped.contains(&"b".to_string()));
    // c gets a fresh one
    assert_eq!(map.get(&"c".to_string()), Some(&"c#2".to_string()));
    assert!(!stopped.contains(&"c".to_string()));
}

#[test]
fn snapshot_with_repeated_key_starts_one_task() {
    let mut map: TaskMap<u32> = TaskMap::new();
    let stopped = map.apply_snapshot(keys(&["p", "p"]), |_k: &String| 7u32);
    assert_eq!(map.get(&"p".to_string()), Some(&7));
    assert!(!stopped.contains(&"p".to_string()));
}

#[test]
fn empty_snapshot_stops_everything() {
    let mut map: TaskMap<u32> = TaskMap::new();
    map.apply_snapshot(keys(&["a", "b"]), |_k: &String| 1u32);
    let stopped = map.apply_snapshot(Vec::new(), |_k: &String| 2u32);
    assert!(!map.contains(&"a".to_string()));
    assert!(!map.contains(&"b".to_string()));
    assert_eq!(stopped.get(&"a".to_string()), Some(&1));
    assert_eq!(stopped.get(&"b".to_string()), Some(&1));
}

#[test]
fn insert_replaces_and_remove_hands_back() {
    let mut map: TaskMap<u32> = TaskMap::new();
    assert_eq!(map.insert("k".to_string(), 1), None);
    assert_eq!(map.insert("k".to_string(), 2), Some(1));
    assert_eq!(map.get(&"k".to_string()), Some(&2));
    assert_eq!(map.remove(&"k".to_string()), Some(2));
    assert_eq!(map.remove(&"k".to_string()), None);
    assert!(!map.contains(&"k".to_string()));
}
