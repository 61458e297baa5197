//! The broker: who is let in, and what it listens on.
pub mod block_list;
pub mod engine;
pub mod engine_laws;
pub mod settings;
pub mod tls;

pub use block_list::BlockList;
