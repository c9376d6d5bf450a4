//! A writer that accumulates the output destined for a text sink.

use vstd::prelude::*;

use super::writer::Writer;

verus! {

/// A text-oriented sink that captures the full emitted output.
///
/// The transcoder only ever emits bytes that concatenate into valid
/// UTF-8, so the captured bytes can be handed verbatim to a character
/// output by the host environment.  From the transcoder's point of
/// view it is interchangeable with the byte-oriented writer.
pub struct StringWriter {
    /// Length in bytes of the text written to the output.
    pub output_string_length: u64,
    captured: Vec<u8>,
}

impl StringWriter {
    pub fn new() -> (writer: Self)
        ensures
            writer.out() == Seq::<u8>::empty(),
    {
        Self { output_string_length: 0, captured: Vec::new() }
    }
}

impl Writer for StringWriter {
    closed spec fn out(&self) -> Seq<u8> {
        self.captured@
    }

    fn write_byte(&mut self, byte: u8) {
        self.captured.push(byte);
        self.output_string_length = self.captured.len() as u64;
    }

    fn write_str(&mut self, value: &Vec<u8>) {
        let mut i: usize = 0;
        while i < value.len()
            invariant
                i <= value@.len(),
                self.captured@ == old(self).captured@ + value@.subrange(0, i as int),
            decreases value@.len() - i,
        {
            self.captured.push(value[i]);
            i = i + 1;
            proof {
                assert(value@.subrange(0, i as int)
                    =~= value@.subrange(0, i as int - 1).push(value@[i as int - 1]));
            }
        }
        self.output_string_length = self.captured.len() as u64;
        proof {
            assert(value@.subrange(0, value@.len() as int) =~= value@);
        }
    }

    fn get_captured_output(&self) -> (result: Option<Vec<u8>>) {
        let mut copy: Vec<u8> = Vec::new();
        let mut i: usize = 0;
        while i < self.captured.len()
            invariant
                i <= self.captured@.len(),
                copy@ == self.captured@.subrange(0, i as int),
            decreases self.captured@.len() - i,
        {
            copy.push(self.captured[i]);
            i = i + 1;
            proof {
                assert(self.captured@.subrange(0, i as int)
                    =~= self.captured@.subrange(0, i as int - 1).push(self.captured@[i as int - 1]));
            }
        }
        proof {
            assert(self.captured@.subrange(0, self.captured@.len() as int) =~= self.captured@);
        }
        Some(copy)
    }
}

} // verus!
