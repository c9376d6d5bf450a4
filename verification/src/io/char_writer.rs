//! A writer that accumulates characters, encoding them as UTF-8.

use vstd::prelude::*;
use vstd::utf8::encode_scalar;

verus! {

/// A character-oriented sink that captures the full emitted output.
///
/// Characters are stored in their UTF-8 encoding, so the captured
/// bytes are always valid UTF-8 and can back a text output.
pub struct CharWriter {
    /// Number of characters written to the output, counting a run of
    /// bytes as one character per byte of its length.
    pub output_char_counter: u64,
    captured: Vec<u8>,
}

impl CharWriter {
    /// Everything written to this sink so far, as UTF-8 bytes.
    pub closed spec fn out(&self) -> Seq<u8> {
        self.captured@
    }

    /// The character counter never outruns the captured bytes: every
    /// counted character contributed at least one byte.
    pub closed spec fn wf(&self) -> bool {
        self.output_char_counter <= self.captured@.len()
    }

    pub fn new() -> (writer: Self)
        ensures
            writer.wf(),
            writer.out() == Seq::<u8>::empty(),
    {
        Self { output_char_counter: 0, captured: Vec::new() }
    }

    /// It writes one character to the output, in UTF-8.
    pub fn write_char(&mut self, c: char)
        requires
            old(self).wf(),
        ensures
            final(self).wf(),
            final(self).out() == old(self).out() + encode_scalar(c as u32),
    {
        proof {
            vstd::utf8::char_is_scalar(c);
        }
        let scalar = c as u32;
        if scalar < 0x80 {
            proof {
                assert(scalar & 0x7F == scalar) by (bit_vector)
                    requires
                        scalar < 0x80,
                ;
            }
            self.captured.push(scalar as u8);
        } else if scalar < 0x800 {
            self.captured.push(0xC0u8 | (((scalar >> 6u32) & 0x1F) as u8));
            self.captured.push(0x80u8 | ((scalar & 0x3F) as u8));
        } else if scalar < 0x10000 {
            self.captured.push(0xE0u8 | (((scalar >> 12u32) & 0x0F) as u8));
            self.captured.push(0x80u8 | (((scalar >> 6u32) & 0x3F) as u8));
            self.captured.push(0x80u8 | ((scalar & 0x3F) as u8));
        } else {
            self.captured.push(0xF0u8 | (((scalar >> 18u32) & 0x7) as u8));
            self.captured.push(0x80u8 | (((scalar >> 12u32) & 0x3F) as u8));
            self.captured.push(0x80u8 | (((scalar >> 6u32) & 0x3F) as u8));
            self.captured.push(0x80u8 | ((scalar & 0x3F) as u8));
        }
        proof {
            assert(self.captured@ =~= old(self).captured@ + encode_scalar(c as u32));
        }
        proof {
            assert(self.captured.len() <= usize::MAX);
        }
        self.output_char_counter = self.output_char_counter + 1;
    }

    /// It writes a run of bytes to the output.
    ///
    /// The counter grows by the byte length of the run, as a text
    /// sink counting code units would report.
    pub fn write_str(&mut self, value: &Vec<u8>)
        requires
            old(self).wf(),
        ensures
            final(self).wf(),
            final(self).out() == old(self).out() + value@,
    {
        let mut i: usize = 0;
        while i < value.len()
            invariant
                i <= value@.len(),
                self.captured@ == old(self).captured@ + value@.subrange(0, i as int),
                self.output_char_counter == old(self).output_char_counter,
                old(self).wf(),
            decreases value@.len() - i,
        {
            self.captured.push(value[i]);
            i = i + 1;
            proof {
                assert(value@.subrange(0, i as int)
                    =~= value@.subrange(0, i as int - 1).push(value@[i as int - 1]));
            }
        }
        proof {
            assert(value@.subrange(0, value@.len() as int) =~= value@);
        }
        proof {
            assert(self.captured.len() <= usize::MAX);
        }
        self.output_char_counter = self.output_char_counter + (value.len() as u64);
    }

    /// It returns a copy of the captured output.
    pub fn get_captured_output(&self) -> (result: Option<Vec<u8>>)
        ensures
            result matches Some(captured) && captured@ == self.out(),
    {
        let mut copy: Vec<u8> = Vec::new();
        let mut i: usize = 0;
        while i < self.captured.len()
            invariant
                i <= self.captured@.len(),
                copy@ == self.captured@.subrange(0, i as int),
            decreases self.captured@.len() - i,
        {
            copy.push(self.captured[i]);
            i = i + 1;
            proof {
                assert(self.captured@.subrange(0, i as int)
                    =~= self.captured@.subrange(0, i as int - 1).push(self.captured@[i as int - 1]));
            }
        }
        proof {
            assert(self.captured@.subrange(0, self.captured@.len() as int) =~= self.captured@);
        }
        Some(copy)
    }
}

} // verus!
