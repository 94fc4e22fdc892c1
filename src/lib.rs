//! A telemetry router's verified core: the event model, the baseline
//! filters, the flush clock and the wiring of the routing topology.

pub mod metric;
pub mod tags;
pub mod filter;
pub mod flush;
pub mod topology;
pub mod verbosity;
