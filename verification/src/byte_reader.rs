//! A pull-based reader that hands out one byte at a time from an
//! in-memory input, counting the bytes consumed.

use vstd::prelude::*;

verus! {

/// A reader that reads bytes from an input buffer.
///
/// It keeps the position of the next unread byte; `None` from
/// [`ByteReader::read_byte`] marks the end of the input.
pub struct ByteReader {
    /// Number of bytes read from the input.
    pub input_byte_counter: u64,
    bytes: Vec<u8>,
    pos: usize,
}

impl ByteReader {
    /// The whole input this reader was created over.
    pub closed spec fn data(&self) -> Seq<u8> {
        self.bytes@
    }

    /// The position of the next unread byte.
    pub closed spec fn position(&self) -> int {
        self.pos as int
    }

    /// The counter equals the number of bytes handed out.
    pub closed spec fn counter_ok(&self) -> bool {
        self.input_byte_counter == self.position()
    }

    /// The position never runs past the input, and the counter equals
    /// the number of bytes handed out.
    pub open spec fn wf(&self) -> bool {
        &&& 0 <= self.position() <= self.data().len()
        &&& self.counter_ok()
    }

    pub fn new(bytes: Vec<u8>) -> (reader: Self)
        ensures
            reader.wf(),
            reader.data() == bytes@,
            reader.position() == 0,
    {
        Self { input_byte_counter: 0, bytes, pos: 0 }
    }

    /// It reads one byte from the input, or `None` at the end of the
    /// input.
    pub fn read_byte(&mut self) -> (result: Option<u8>)
        requires
            old(self).wf(),
        ensures
            final(self).wf(),
            final(self).data() == old(self).data(),
            0 <= final(self).position() <= final(self).data().len(),
            old(self).position() < old(self).data().len() ==> {
                &&& result == Some(old(self).data()[old(self).position()])
                &&& final(self).position() == old(self).position() + 1
            },
            old(self).position() >= old(self).data().len() ==> {
                &&& result is None
                &&& *final(self) == *old(self)
            },
    {
        if self.pos < self.bytes.len() {
            let byte = self.bytes[self.pos];
            self.pos = self.pos + 1;
            self.input_byte_counter = self.input_byte_counter + 1;
            Some(byte)
        } else {
            None
        }
    }
}

} // verus!
