use dprom::config::{
    bool_false, bool_true, default_refresh_secs, parse_gauge_name, BusKind, Dbus,
    GaugeNameError, Interval, NoBusConfigured, Watch,
};
use dprom::paths::{gauge_path, gauge_path_text};

#[test]
fn defaults() {
    assert!(bool_true());
    assert!(!bool_false());
    let d = Dbus::new();
    assert!(d.system);
    assert!(!d.session);
    assert_eq!(default_refresh_secs(), Interval { secs: 5, nanos: 0 });
    assert_eq!(Watch::new().refresh_secs, Interval::from_secs(5));
}

#[test]
fn charset_accepts_cpu_temp() {
    let g = parse_gauge_name("cpu_temp".to_string()).expect("valid name");
    assert_eq!(g.as_str(), "cpu_temp");
    assert!(parse_gauge_name("Abc_019".to_string()).is_ok());
}

#[test]
fn charset_rejects_cpu_dash_temp() {
    match parse_gauge_name("cpu-temp".to_string()) {
        Err(GaugeNameError::InvalidChar { name, found }) => {
            assert_eq!(name, "cpu-temp");
            assert_eq!(found, '-');
        }
        other => panic!("unexpected {:?}", other),
    }
}

#[test]
fn charset_names_first_bad_char() {
    match parse_gauge_name("a.b/c".to_string()) {
        Err(GaugeNameError::InvalidChar { found, .. }) => assert_eq!(found, '.'),
        other => panic!("unexpected {:?}", other),
    }
    match parse_gauge_name("tempé".to_string()) {
        Err(GaugeNameError::InvalidChar { found, .. }) => assert_eq!(found, 'é'),
        other => panic!("unexpected {:?}", other),
    }
}

#[test]
fn charset_rejects_empty() {
    assert!(matches!(parse_gauge_name(String::new()), Err(GaugeNameError::Empty)));
}

#[test]
fn gauge_paths() {
    let g = parse_gauge_name("cpu_temp".to_string()).unwrap();
    assert_eq!(gauge_path_text(&g), "/org/hails/dprom/metric/cpu_temp");
    let p = gauge_path(&g);
    assert_eq!(p.as_str(), "/org/hails/dprom/metric/cpu_temp");
}

#[test]
fn buses_in_order_and_at_least_one() {
    let both = Dbus { system: true, session: true };
    assert_eq!(both.buses(), Ok(vec![BusKind::Session, BusKind::System]));
    let system = Dbus { system: true, session: false };
    assert_eq!(system.buses(), Ok(vec![BusKind::System]));
    let session = Dbus { system: false, session: true };
    assert_eq!(session.buses(), Ok(vec![BusKind::Session]));
    let none = Dbus { system: false, session: false };
    assert_eq!(none.buses(), Err(NoBusConfigured));
}
