//! Why a text could not be read.

use vstd::prelude::*;

verus! {

/// The ways in which reading a text fails.
#[derive(Debug, Clone, Copy, PartialEq, Eq, Structural)]
pub enum Error {
    /// The byte at the given offset is no symbol of the alphabet.
    InvalidByte(usize, u8),
    /// The text, of the given length, is one symbol longer than any text can
    /// be.
    InvalidLength(usize),
    /// The last symbol, at the given offset, holds bits that belong to no
    /// byte, and they are not zero.
    InvalidLastSymbol(usize, u8),
    /// The text ends in padding, which is never written.
    InvalidPadding,
}

} // verus!
