//! A verified decoder and responder for a small subset of the REdis
//! Serialization Protocol (RESP): arrays of bulk strings come in, the `PING`
//! command (with an optional echo argument) is recognized, and every reply
//! goes out as a RESP simple string.

use vstd::prelude::*;

pub mod command;
pub mod frame;
pub mod laws;
pub mod lines;
pub mod numbers;
pub mod respond;
pub mod tokens;
pub mod trim;

verus! {

/// A byte is NUL padding.
pub open spec fn is_nul(b: u8) -> bool {
    b == 0u8
}

/// A byte counts as whitespace when trimming and tokenizing.
pub open spec fn is_space(b: u8) -> bool {
    b == 32u8 || b == 9u8 || b == 10u8 || b == 13u8 || b == 11u8 || b == 12u8
}

} // verus!
