//! Bencode integer parser.
//!
//! It consumes the body of an integer value (`i<digits>e` or
//! `i-<digits>e`, after the lead `i`) and streams the digits and the
//! optional leading minus straight to the output: the Bencode digit
//! sequence is the JSON number literal.  Encodings with a leading
//! zero, such as `i03e`, are accepted and copied unchanged.

use vstd::prelude::*;

use crate::byte_reader::ByteReader;
use crate::io::writer::Writer;
use crate::Error;

verus! {

/// ASCII `e`, the end delimiter of a Bencode integer.
pub const INTEGER_END: u8 = 101;

/// ASCII `-`, the optional leading sign of a Bencode integer.
pub const INTEGER_MINUS: u8 = 45;

/// Whether a byte is an ASCII digit `0`..`9`.
pub open spec fn is_ascii_digit(byte: u8) -> bool {
    48 <= byte <= 57
}

/// The current state parsing the integer.
#[derive(Clone, Copy, Debug, PartialEq, Eq, Structural)]
pub enum StateExpecting {
    /// At the very first byte: a digit or a minus sign.
    DigitOrSign,
    /// Just after the minus sign: only a digit.
    DigitAfterSign,
    /// At least one digit seen: a digit or the final `e`.
    DigitOrEnd,
}

/// How a scan of an integer body ends.
pub ghost enum IntScan {
    /// The body is well formed; `end` is the position just after the
    /// final `e`.
    Complete { end: int },
    /// The input ran out before the final `e`.
    Truncated,
    /// The byte at `at` is neither a digit, an acceptable minus, nor
    /// an acceptable `e`.
    Malformed { at: int },
}

/// The result of scanning an integer body in `s` from position `q`
/// onward, starting in state `st`.
///
/// A digit always moves to `DigitOrEnd`; `e` completes the scan only
/// after a digit; a minus is accepted only as the very first byte.
pub open spec fn scan_integer(s: Seq<u8>, q: int, st: StateExpecting) -> IntScan
    decreases s.len() - q,
{
    if q < 0 || q >= s.len() {
        IntScan::Truncated
    } else if is_ascii_digit(s[q]) {
        scan_integer(s, q + 1, StateExpecting::DigitOrEnd)
    } else if s[q] == INTEGER_END && st == StateExpecting::DigitOrEnd {
        IntScan::Complete { end: q + 1 }
    } else if s[q] == INTEGER_MINUS && st == StateExpecting::DigitOrSign {
        scan_integer(s, q + 1, StateExpecting::DigitAfterSign)
    } else {
        IntScan::Malformed { at: q }
    }
}

/// A completed scan ends past its starting point and within the
/// input; a malformed scan points at a byte of the input.
pub proof fn lemma_scan_integer_bounds(s: Seq<u8>, q: int, st: StateExpecting)
    ensures
        scan_integer(s, q, st) matches IntScan::Complete { end } ==> q < end <= s.len(),
        scan_integer(s, q, st) matches IntScan::Malformed { at } ==> q <= at < s.len(),
    decreases s.len() - q,
{
    if 0 <= q < s.len() {
        if is_ascii_digit(s[q]) {
            lemma_scan_integer_bounds(s, q + 1, StateExpecting::DigitOrEnd);
        } else if s[q] == INTEGER_MINUS && st == StateExpecting::DigitOrSign {
            lemma_scan_integer_bounds(s, q + 1, StateExpecting::DigitAfterSign);
        }
    }
}

/// It parses an integer bencoded value: it reads bytes until the
/// final `e`, writing every accepted digit and the optional leading
/// minus to the output as they are read.
pub fn parse<W: Writer>(reader: &mut ByteReader, writer: &mut W) -> (result: Result<(), Error>)
    requires
        old(reader).wf(),
    ensures
        final(reader).wf(),
        final(reader).data() == old(reader).data(),
        ({
            let s = old(reader).data();
            let q0 = old(reader).position();
            match scan_integer(s, q0, StateExpecting::DigitOrSign) {
                IntScan::Complete { end } => {
                    &&& result is Ok
                    &&& final(reader).position() == end
                    &&& final(writer).out() == old(writer).out() + s.subrange(q0, end - 1)
                },
                IntScan::Truncated => {
                    &&& result == Err::<(), Error>(Error::UnexpectedEndOfInput)
                    &&& final(reader).position() == s.len()
                    &&& final(writer).out() == old(writer).out() + s.subrange(q0, s.len() as int)
                },
                IntScan::Malformed { at } => {
                    &&& result == Err::<(), Error>(Error::InvalidInteger)
                    &&& final(reader).position() == at + 1
                    &&& final(writer).out() == old(writer).out() + s.subrange(q0, at)
                },
            }
        }),
{
    let ghost s = reader.data();
    let ghost q0 = reader.position();
    let mut state = StateExpecting::DigitOrSign;

    loop
        invariant
            s == old(reader).data(),
            q0 == old(reader).position(),
            reader.wf(),
            reader.data() == s,
            0 <= q0 <= reader.position() <= s.len(),
            scan_integer(s, q0, StateExpecting::DigitOrSign) == scan_integer(
                s,
                reader.position(),
                state,
            ),
            writer.out() == old(writer).out() + s.subrange(q0, reader.position()),
        decreases s.len() - reader.position(),
    {
        let ghost pos = reader.position();
        let byte = match reader.read_byte() {
            Some(byte) => byte,
            None => {
                return Err(Error::UnexpectedEndOfInput);
            },
        };

        if byte >= 48 && byte <= 57 {
            state = StateExpecting::DigitOrEnd;
            writer.write_byte(byte);
            proof {
                assert(s.subrange(q0, pos + 1) =~= s.subrange(q0, pos).push(s[pos]));
            }
        } else if byte == INTEGER_END && state == StateExpecting::DigitOrEnd {
            return Ok(());
        } else if byte == INTEGER_MINUS && state == StateExpecting::DigitOrSign {
            state = StateExpecting::DigitAfterSign;
            writer.write_byte(byte);
            proof {
                assert(s.subrange(q0, pos + 1) =~= s.subrange(q0, pos).push(s[pos]));
            }
        } else {
            return Err(Error::InvalidInteger);
        }
    }
}

} // verus!
