//! Ember+ consumer/provider library core.
//!
//! The library covers the computational heart of the Ember+ device-control
//! protocol: S101 byte framing (escaping and non-escaping) with CRC-16
//! integrity, fragmentation and reassembly of Glow payloads into fixed-size
//! packets, the Glow data model with its relative-OID identifiers, and the
//! consumer tree-traversal state machine. Socket I/O, timers and the BER
//! codec for whole Glow messages live outside, in the embedding application.

pub mod com;
pub mod consumer;
pub mod ember;
pub mod error;
pub mod glow;
pub mod oid;
pub mod s101;
pub mod utils;
