//! The push-based output capability used by the transcoder.

use vstd::prelude::*;

verus! {

/// A sink of bytes.
///
/// The transcoder is polymorphic over this capability: anything that
/// can take one byte or a run of bytes, and can tell what it has
/// accumulated so far, can receive the emitted JSON.
pub trait Writer {
    /// Everything written to this sink so far.
    spec fn out(&self) -> Seq<u8>;

    /// It writes one byte to the output.
    fn write_byte(&mut self, byte: u8)
        ensures
            final(self).out() == old(self).out().push(byte),
    ;

    /// It writes a run of bytes to the output.
    fn write_str(&mut self, value: &Vec<u8>)
        ensures
            final(self).out() == old(self).out() + value@,
    ;

    /// It returns a copy of the captured output.
    fn get_captured_output(&self) -> (result: Option<Vec<u8>>)
        ensures
            result matches Some(captured) && captured@ == self.out(),
    ;
}

} // verus!
