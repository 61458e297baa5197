//! The threat monitor: it watches what happens at the broker, asks for a
//! classification, and blocks offenders.
pub mod client;
pub mod clock;
pub mod event;
pub mod event_laws;
pub mod monitor;
pub mod monitor_laws;

pub use client::AnalysisResult;
pub use event::{BrokerEvent, EventWindow};
pub use monitor::Monitor;
