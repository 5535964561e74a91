//! The multiplexer: per-connection buffering and the registry-and-command
//! state machine the event loop runs on.

pub mod connection;
pub mod service;
