use dprom::watch::{
    is_unknown_dispatch_error, is_unknown_dispatch_error_name, outcome_of,
    protect_unknown_dispatch, BusFault, GaugeWatch, Outcome, Phase, WatchAction, WatchEvent,
};

fn s(x: &str) -> String {
    x.to_string()
}

#[test]
fn unknown_dispatch_error_names() {
    assert!(is_unknown_dispatch_error_name(&s("org.freedesktop.DBus.Error.UnknownInterface")));
    assert!(is_unknown_dispatch_error_name(&s("org.freedesktop.DBus.Error.UnknownObject")));
    assert!(is_unknown_dispatch_error_name(&s("org.freedesktop.DBus.Error.UnknownMethod")));
    assert!(is_unknown_dispatch_error_name(&s("org.freedesktop.DBus.Error.UnknownProperty")));
    assert!(!is_unknown_dispatch_error_name(&s("org.freedesktop.DBus.Error.Failed")));
    assert!(!is_unknown_dispatch_error_name(&s("")));
}

#[test]
fn capability_mismatch_classes() {
    assert!(is_unknown_dispatch_error(&BusFault::UnknownObject(s("no"))));
    assert!(is_unknown_dispatch_error(&BusFault::UnknownMethod(s("no"))));
    assert!(is_unknown_dispatch_error(&BusFault::UnknownInterface(s("no"))));
    assert!(is_unknown_dispatch_error(&BusFault::UnknownProperty(s("no"))));
    assert!(is_unknown_dispatch_error(&BusFault::MethodError(
        s("org.freedesktop.DBus.Error.UnknownInterface"),
        None
    )));
    assert!(!is_unknown_dispatch_error(&BusFault::MethodError(
        s("org.example.Error.Broken"),
        Some(s("broken"))
    )));
    assert!(!is_unknown_dispatch_error(&BusFault::Standard(s("access denied"))));
    assert!(!is_unknown_dispatch_error(&BusFault::Other(s("connection lost"))));
}

#[test]
fn protect_passes_success_and_faults() {
    match protect_unknown_dispatch::<u8>(Ok(3)) {
        Ok(Some(3)) => {}
        other => panic!("unexpected {:?}", other),
    }
    match protect_unknown_dispatch::<u8>(Err(BusFault::UnknownProperty(s("value")))) {
        Ok(None) => {}
        other => panic!("unexpected {:?}", other),
    }
    match protect_unknown_dispatch::<u8>(Err(BusFault::Other(s("eof")))) {
        Err(BusFault::Other(d)) => assert_eq!(d, "eof"),
        other => panic!("unexpected {:?}", other),
    }
}

#[test]
fn outcome_of_fault() {
    assert!(matches!(outcome_of(BusFault::UnknownInterface(s("i"))), Outcome::UnknownType));
    assert!(matches!(outcome_of(BusFault::Other(s("x"))), Outcome::Failed(BusFault::Other(_))));
}

#[test]
fn gauge_watch_subscribes_before_reading_and_forwards_in_order() {
    let (mut w, first) = GaugeWatch::start::<f64>();
    assert!(matches!(first, WatchAction::ReadName));
    assert_eq!(w.phase(), Phase::Probing);
    assert!(matches!(w.step(WatchEvent::<f64>::Named(Ok(s("x")))), WatchAction::Subscribe));
    assert!(!w.accepts(&WatchEvent::<f64>::Value(Ok(0.0))));
    assert!(matches!(w.step(WatchEvent::<f64>::Subscribed), WatchAction::ReadValue));
    match w.step(WatchEvent::Value(Ok(1.0))) {
        WatchAction::Register(n, v) => {
            assert_eq!(n.as_str(), "x");
            assert_eq!(v, 1.0);
        }
        other => panic!("unexpected {:?}", other),
    }
    let mut seen = Vec::new();
    for v in [2.0, 3.0, 2.5] {
        match w.step(WatchEvent::Value(Ok(v))) {
            WatchAction::Publish(p) => seen.push(p),
            other => panic!("unexpected {:?}", other),
        }
    }
    assert_eq!(seen, vec![2.0, 3.0, 2.5]);
    assert_eq!(w.phase(), Phase::Streaming);
    assert!(matches!(w.step(WatchEvent::<f64>::Ended), WatchAction::Stop(Outcome::Ended)));
    assert_eq!(w.phase(), Phase::Finished);
    assert!(!w.accepts(&WatchEvent::<f64>::Ended));
}

#[test]
fn gauge_watch_stops_quietly_on_mismatch() {
    let (mut w, _) = GaugeWatch::start::<f64>();
    let a = w.step(WatchEvent::<f64>::Named(Err(BusFault::MethodError(
        s("org.freedesktop.DBus.Error.UnknownInterface"),
        None,
    ))));
    assert!(matches!(a, WatchAction::Stop(Outcome::UnknownType)));
    assert_eq!(w.phase(), Phase::Finished);
}

#[test]
fn gauge_watch_fails_on_other_fault() {
    let (mut w, _) = GaugeWatch::start::<f64>();
    w.step(WatchEvent::<f64>::Named(Ok(s("y"))));
    w.step(WatchEvent::<f64>::Subscribed);
    let a = w.step(WatchEvent::<f64>::Value(Err(BusFault::Other(s("timeout")))));
    assert!(matches!(a, WatchAction::Stop(Outcome::Failed(BusFault::Other(_)))));
}

#[test]
fn gauge_watch_fault_mid_stream() {
    let (mut w, _) = GaugeWatch::start::<f64>();
    w.step(WatchEvent::<f64>::Named(Ok(s("y"))));
    w.step(WatchEvent::<f64>::Subscribed);
    w.step(WatchEvent::Value(Ok(4.0)));
    let a = w.step(WatchEvent::<f64>::Value(Err(BusFault::Standard(s("denied")))));
    assert!(matches!(a, WatchAction::Stop(Outcome::Failed(BusFault::Standard(_)))));
}
