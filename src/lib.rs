//! Discovery and liveness core of a bus-to-metrics bridge: the generation
//! registry of exported metric names, the keyed task maps that the discovery
//! watchers keep in step with changing sets, the per-metric watcher protocol,
//! the live value table and the configuration rules.

pub mod order;
pub mod registry;
pub mod tasks;
pub mod directory;
pub mod watch;
pub mod live;
pub mod config;
pub mod paths;
