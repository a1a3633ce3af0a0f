use dprom::live::LiveTable;
use dprom::order::name_less;
use dprom::registry::MetricName;

fn name(s: &str) -> MetricName {
    MetricName::new(s.to_string())
}

fn names(t: &LiveTable<f64>) -> Vec<String> {
    t.entries().iter().map(|(n, _)| n.as_str().to_string()).collect()
}

#[test]
fn name_order_is_lexicographic() {
    assert!(name_less("a", "b"));
    assert!(name_less("ab", "b"));
    assert!(name_less("a", "ab"));
    assert!(name_less("", "a"));
    assert!(!name_less("a", "a"));
    assert!(!name_less("b", "ab"));
    assert!(name_less("Z", "a"));
    assert!(name_less("cpu_temp", "cpu_tenp"));
}

#[test]
fn publish_sets_and_replaces() {
    let mut t = LiveTable::new();
    t.apply((name("x"), Some(1.0)));
    assert_eq!(t.get(&name("x")), Some(&1.0));
    t.apply((name("x"), Some(2.0)));
    assert_eq!(t.get(&name("x")), Some(&2.0));
    assert_eq!(t.entries().len(), 1);
}

#[test]
fn retraction_removes() {
    let mut t = LiveTable::new();
    t.apply((name("x"), Some(1.0)));
    t.apply((name("y"), Some(5.0)));
    t.apply((name("x"), None));
    assert_eq!(t.get(&name("x")), None);
    assert_eq!(names(&t), vec!["y".to_string()]);
    // retracting an absent name changes nothing
    t.apply((name("q"), None));
    assert_eq!(names(&t), vec!["y".to_string()]);
}

#[test]
fn entries_stay_in_name_order() {
    let mut t = LiveTable::new();
    for (n, v) in [("mem", 1.0), ("cpu", 2.0), ("disk", 3.0), ("a_b", 4.0), ("cpu", 5.0)] {
        t.apply((name(n), Some(v)));
    }
    assert_eq!(names(&t), vec!["a_b", "cpu", "disk", "mem"]);
    assert_eq!(t.get(&name("cpu")), Some(&5.0));
}

#[test]
fn chunk_is_applied_in_order() {
    let mut t = LiveTable::new();
    t.receive_chunk(vec![
        (name("b"), Some(1.0)),
        (name("a"), Some(2.0)),
        (name("b"), None),
        (name("c"), Some(3.0)),
        (name("b"), Some(4.0)),
    ]);
    assert_eq!(names(&t), vec!["a", "b", "c"]);
    assert_eq!(t.get(&name("b")), Some(&4.0));
    t.receive_chunk(Vec::new());
    assert_eq!(names(&t), vec!["a", "b", "c"]);
}
