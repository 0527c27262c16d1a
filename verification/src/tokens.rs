//! The token record produced by scanning.

use vstd::prelude::*;

verus! {

/// An abstract token of type `token_type` occurring at `source_offset` with
/// byte length `source_length` in its source code.
///
/// The record is deliberately 8 bytes: token arrays are dense and hot.
#[derive(Clone, Copy, Debug, PartialEq, Eq, Structural)]
pub struct Token {
    pub source_offset: u32,
    pub source_length: u16,
    pub token_type: u16,
}

} // verus!
