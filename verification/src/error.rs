//! The ways in which decoding can fail.

use vstd::prelude::*;

verus! {

/// Why a string was not decoded.
#[derive(Debug, Clone, Copy, PartialEq, Eq, Structural)]
pub enum Error {
    /// The string holds a character outside the alphabet.
    InvalidCode,
    /// Every character is a symbol, but the code is too long or denotes a
    /// value above `u64::MAX`.
    CodeRangeExceeded,
}

} // verus!
