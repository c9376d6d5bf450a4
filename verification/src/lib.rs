//! A streaming transcoder from Bencode to JSON.
//!
//! The transcoder reads a Bencode byte sequence in a single forward pass and
//! emits the corresponding JSON text as bytes, without building an
//! intermediate tree of the decoded values.  Integers are copied digit for
//! digit, strings become JSON string literals (non-UTF-8 contents are
//! rendered as a lowercase-hex placeholder), and lists and dictionaries
//! become JSON arrays and objects with separators placed by a stack of
//! parsing states.

use vstd::prelude::*;

pub mod byte_reader;
pub mod io;
pub mod parsers;

verus! {

/// The fatal conditions that abort a transcode.
///
/// Any of these means the input was exhausted or malformed in a way that
/// leaves no legitimate recovery point; no partial JSON output is valid.
#[derive(Clone, Copy, Debug, PartialEq, Eq, Structural)]
pub enum Error {
    /// The input ended in the middle of a value (integer, string length,
    /// or string contents).
    UnexpectedEndOfInput,
    /// A byte inside an integer was neither a digit, a leading minus,
    /// nor a final `e` after at least one digit.
    InvalidInteger,
    /// The digits before the `:` of a string did not form a decimal
    /// length that fits in `usize`.
    InvalidStringLength,
    /// An `e` was read with no open list or dictionary to close, or in
    /// place of a dictionary value.
    UnexpectedEndOfContainer,
    /// A lead byte that begins no Bencode value: not `i`, a digit, `l`,
    /// `d` or `e`.
    UnexpectedLeadByte,
}

} // verus!
