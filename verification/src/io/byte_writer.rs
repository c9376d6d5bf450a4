//! A writer that accumulates raw bytes.

use vstd::prelude::*;

use super::writer::Writer;

verus! {

/// A byte-oriented sink that captures the full emitted output.
///
/// Everything the transcoder writes through it is kept in order, so
/// the caller can hand the finished JSON bytes to whatever byte
/// output the host environment provides.
pub struct ByteWriter {
    /// Number of bytes written to the output.
    pub output_byte_counter: u64,
    captured: Vec<u8>,
}

impl ByteWriter {
    pub fn new() -> (writer: Self)
        ensures
            writer.out() == Seq::<u8>::empty(),
    {
        Self { output_byte_counter: 0, captured: Vec::new() }
    }
}

impl Writer for ByteWriter {
    closed spec fn out(&self) -> Seq<u8> {
        self.captured@
    }

    fn write_byte(&mut self, byte: u8) {
        self.captured.push(byte);
        self.output_byte_counter = self.captured.len() as u64;
    }

    fn write_str(&mut self, value: &Vec<u8>) {
        let mut i: usize = 0;
        while i < value.len()
            invariant
                i <= value@.len(),
                self.captured@ == old(self).captured@ + value@.subrange(0, i as int),
            decreases value@.len() - i,
        {
            self.captured.push(value[i]);
            i = i + 1;
            proof {
                assert(value@.subrange(0, i as int)
                    =~= value@.subrange(0, i as int - 1).push(value@[i as int - 1]));
            }
        }
        self.output_byte_counter = self.captured.len() as u64;
        proof {
            assert(value@.subrange(0, value@.len() as int) =~= value@);
        }
    }

    fn get_captured_output(&self) -> (result: Option<Vec<u8>>) {
        let mut copy: Vec<u8> = Vec::new();
        let mut i: usize = 0;
        while i < self.captured.len()
            invariant
                i <= self.captured@.len(),
                copy@ == self.captured@.subrange(0, i as int),
            decreases self.captured@.len() - i,
        {
            copy.push(self.captured[i]);
            i = i + 1;
            proof {
                assert(self.captured@.subrange(0, i as int)
                    =~= self.captured@.subrange(0, i as int - 1).push(self.captured@[i as int - 1]));
            }
        }
        proof {
            assert(self.captured@.subrange(0, self.captured@.len() as int) =~= self.captured@);
        }
        Some(copy)
    }
}

} // verus!
