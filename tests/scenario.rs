use dprom::live::LiveTable;
use dprom::registry::{ExportShared, Registration};
use dprom::tasks::TaskMap;
use dprom::watch::{GaugeWatch, WatchAction, WatchEvent};

/// One gauge object `x` is advertised, reports 1.0, then 2.0, then is
/// withdrawn from the directory.
#[test]
fn end_to_end_gauge_lifecycle() {
    let mut shared = ExportShared::new();
    let mut live: LiveTable<f64> = LiveTable::new();
    let path = "/org/example/metric/x".to_string();

    // the per-bus watcher sees the object and starts its watcher
    let mut watchers: TaskMap<u32> = TaskMap::new();
    watchers.apply_snapshot(vec![path.clone()], |_p: &String| 1u32);
    assert!(watchers.contains(&path));

    let (mut w, _) = GaugeWatch::start::<f64>();
    w.step(WatchEvent::<f64>::Named(Ok("x".to_string())));
    w.step(WatchEvent::<f64>::Subscribed);
    let reg: Registration = match w.step(WatchEvent::Value(Ok(1.0))) {
        WatchAction::Register(name, v) => {
            let reg = shared.register(name);
            let rec = shared.measure(&reg, v).expect("fresh registration owns x");
            live.apply(rec);
            reg
        }
        other => panic!("unexpected {:?}", other),
    };
    assert_eq!(live.entries().len(), 1);
    assert_eq!(live.get(&reg.name), Some(&1.0));

    match w.step(WatchEvent::Value(Ok(2.0))) {
        WatchAction::Publish(v) => {
            let rec = shared.measure(&reg, v).expect("still the owner");
            live.apply(rec);
        }
        other => panic!("unexpected {:?}", other),
    }
    // straight from 1.0 to 2.0, never absent
    assert_eq!(live.get(&reg.name), Some(&2.0));
    assert_eq!(live.entries().len(), 1);

    // the directory withdraws the object: its watcher is stopped
    let stopped = watchers.apply_snapshot(Vec::new(), |_p: &String| 2u32);
    assert_eq!(stopped.get(&path), Some(&1));
    let mut retractions = 0;
    for _ in 0..2 {
        if let Some(name) = shared.release(&reg) {
            retractions += 1;
            live.apply((name, None));
        }
    }
    assert_eq!(retractions, 1);
    assert_eq!(live.get(&reg.name), None);
    assert!(live.entries().is_empty());
}
