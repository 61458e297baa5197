pub mod assoc;
pub mod auth;
pub mod broker;
pub mod config;
pub mod error;
pub mod inference;
pub mod names;
pub mod number;
pub mod number_laws;
pub mod order;
pub mod order_laws;
pub mod passwd_cmd;
pub mod text;
pub mod text_laws;
