//! Transport core of a lightweight message broker.
//!
//! The crate has three layers:
//! - `wire_protocol`: the binary, length-prefixed frame format and its
//!   encoder/decoder, together with the frame-reassembly rules for a byte
//!   stream that arrives in arbitrary chunks;
//! - `service`: the connection registry and control-plane state machine of
//!   the single-threaded multiplexer (the host process performs the actual
//!   socket and channel I/O and feeds events in);
//! - `packet` and `codec`: an alternate fixed-header packet format and a
//!   length-prefixed JSON payload codec.

pub mod codec;
pub mod packet;
pub mod service;
pub mod wire_protocol;

pub use service::service::{Command, Service, ServiceMessage};
pub use wire_protocol::message::{Message, OpCode};
