//! Unified failure kinds of the library.

use vstd::prelude::*;

verus! {

/// The failure taxonomy shared by all layers.
///
/// `Deserialization` covers malformed S101 frames or Glow content,
/// `Io` socket failures, `Connection` logical protocol failures,
/// `S101Decode` unknown wire enum variants, and `BerEncode` /
/// `BerDecode` failures of the BER codec for Glow payloads.
#[derive(Debug, Clone, PartialEq, Eq)]
pub enum EmberError {
    Deserialization(String),
    Io(String),
    Connection(String),
    S101Decode(String),
    BerEncode(String),
    BerDecode(String),
}

impl EmberError {
    /// A deserialization failure is recoverable: the reader logs it and
    /// continues with the next frame. Every other kind tears the
    /// connection pipeline down.
    pub fn is_recoverable(&self) -> (r: bool)
        ensures
            r == (self is Deserialization),
    {
        match self {
            EmberError::Deserialization(_) => true,
            _ => false,
        }
    }
}

pub type EmberResult<T> = Result<T, EmberError>;

} // verus!
