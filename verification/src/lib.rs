//! Builds wire-format messages for register-style, byte-oriented protocols
//! from a declarative description, and validates them by checksum.

pub mod text;
pub mod conversion;
pub mod checksum;
pub mod config;
pub mod segment;
pub mod message;
pub mod device;
pub mod prototype;
pub mod encoder;
pub mod simulation;
pub mod protocol;
