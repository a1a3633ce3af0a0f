use dprom::registry::{next, ExportShared, MetricName};

fn name(s: &str) -> MetricName {
    MetricName::new(s.to_string())
}

#[test]
fn next_hands_out_current_and_advances() {
    let mut serial: u64 = 1;
    assert_eq!(next(&mut serial), 1);
    assert_eq!(serial, 2);
    assert_eq!(next(&mut serial), 2);
    assert_eq!(serial, 3);
}

#[test]
fn fresh_registry_owns_nothing() {
    let shared = ExportShared::new();
    assert_eq!(shared.serial(), 1);
    assert_eq!(shared.get_uniq(&name("x")), None);
    let dflt = ExportShared::default();
    assert_eq!(dflt.serial(), 1);
}

#[test]
fn register_draws_increasing_tokens() {
    let mut shared = ExportShared::new();
    let a = shared.register(name("a"));
    let b = shared.register(name("b"));
    assert_eq!(a.uniq, 1);
    assert_eq!(b.uniq, 2);
    assert_eq!(a.name.as_str(), "a");
    assert_eq!(shared.get_uniq(&name("a")), Some(1));
    assert_eq!(shared.get_uniq(&name("b")), Some(2));
    assert_eq!(shared.serial(), 3);
}

#[test]
fn generation_race_safety() {
    let mut shared = ExportShared::new();
    let h1 = shared.register(name("x"));
    let h2 = shared.register(name("x"));
    assert_ne!(h1.uniq, h2.uniq);
    // the superseded handle publishes nothing
    assert!(shared.measure(&h1, 1.0f64).is_none());
    // discarding it retracts nothing and leaves h2 in force
    assert!(shared.release(&h1).is_none());
    assert_eq!(shared.get_uniq(&name("x")), Some(h2.uniq));
    let rec = shared.measure(&h2, 2.0f64).expect("h2 owns x");
    assert_eq!(rec.0.as_str(), "x");
    assert_eq!(rec.1, Some(2.0));
    // discarding h2 retracts x, exactly once
    let gone = shared.release(&h2).expect("h2 owned x");
    assert_eq!(gone.as_str(), "x");
    assert_eq!(shared.get_uniq(&name("x")), None);
    assert!(shared.release(&h2).is_none());
}

#[test]
fn remove_uniq_only_for_current_owner() {
    let mut shared = ExportShared::new();
    let h = shared.register(name("m"));
    assert!(!shared.remove_uniq(&name("m"), h.uniq + 1));
    assert_eq!(shared.get_uniq(&name("m")), Some(h.uniq));
    assert!(!shared.remove_uniq(&name("other"), h.uniq));
    assert!(shared.remove_uniq(&name("m"), h.uniq));
    assert_eq!(shared.get_uniq(&name("m")), None);
    assert!(!shared.remove_uniq(&name("m"), h.uniq));
}

#[test]
fn names_compare_by_text() {
    let a = name("cpu");
    let b = MetricName::from("cpu".to_string());
    assert_eq!(a, b);
    assert_ne!(a, name("mem"));
    assert_eq!(a.clone().as_str(), "cpu");
    assert_eq!(a.duplicate(), a);
}
