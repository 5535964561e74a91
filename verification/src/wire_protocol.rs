//! The binary wire format: one length-prefixed frame per message, and the
//! rules for cutting a raw byte stream into frames.

pub mod error;
pub mod frames;
pub mod message;
