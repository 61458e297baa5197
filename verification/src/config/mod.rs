//! The broker's configuration.
pub mod laws;
pub mod notes;
pub mod parser;
pub mod setting_laws;

pub use parser::{
    InferenceConfig, ListenerConfig, LogDest, LogLevel, MastConfig, TlsListenerConfig,
};
