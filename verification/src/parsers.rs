//! The streaming transcoder: the top-level loop that dispatches on
//! lead bytes, and the container-boundary logic driven by the stack
//! of parsing states.

use vstd::prelude::*;

pub mod integer;
pub mod stack;
pub mod string;

use crate::byte_reader::ByteReader;
use crate::io::byte_writer::ByteWriter;
use crate::io::string_writer::StringWriter;
use crate::io::writer::Writer;
use crate::Error;
use integer::{scan_integer, IntScan, StateExpecting};
use stack::{
    begin_emission, begin_transition, end_accepts, end_emission, states_well_formed, Stack, State,
};
use string::{scan_string, StringScan};

verus! {

/// ASCII `i`, the lead byte of a Bencode integer.
pub const BENCODE_BEGIN_INTEGER: u8 = 105;

/// ASCII `l`, the lead byte of a Bencode list.
pub const BENCODE_BEGIN_LIST: u8 = 108;

/// ASCII `d`, the lead byte of a Bencode dictionary.
pub const BENCODE_BEGIN_DICT: u8 = 100;

/// ASCII `e`, the end byte of a Bencode list or dictionary.
pub const BENCODE_END: u8 = 101;

/// Opening delimiter of a JSON array: `[`.
pub const JSON_ARRAY_BEGIN: u8 = 91;

/// Separator between JSON array items: `,`.
pub const JSON_ARRAY_ITEMS_SEPARATOR: u8 = 44;

/// Closing delimiter of a JSON array: `]`.
pub const JSON_ARRAY_END: u8 = 93;

/// Opening delimiter of a JSON object: `{`.
pub const JSON_OBJ_BEGIN: u8 = 123;

/// Separator between JSON object fields: `,`.
pub const JSON_OBJ_FIELDS_SEPARATOR: u8 = 44;

/// Separator between a JSON object key and its value: `:`.
pub const JSON_OBJ_FIELD_KEY_VALUE_SEPARATOR: u8 = 58;

/// Closing delimiter of a JSON object: `}`.
pub const JSON_OBJ_END: u8 = 125;

/// Everything a transcode of some input does: the JSON bytes it
/// emits, the stack it ends with, the position it stops at, and the
/// fatal condition that stopped it, if any.
#[verifier::ext_equal]
pub ghost struct Transcript {
    /// `None` when the input was consumed to its end; otherwise the
    /// fatal condition that aborted the transcode.
    pub err: Option<Error>,
    /// The bytes emitted up to the end of the transcode, including a
    /// transcode that was aborted.
    pub emitted: Seq<u8>,
    /// The run of parsing states left on the stack.
    pub stack: Seq<State>,
    /// The position just after the last consumed input byte.
    pub end: int,
}

/// The transcode of `s` from position `p` onward, starting with the
/// given stack and previously emitted bytes.
///
/// This is the transition system of the transcoder, one lead byte at
/// a time: `i` runs the integer scan, a digit runs the string scan,
/// `l` and `d` emit their opening delimiter and push a state, `e`
/// closes the innermost container, and anything else is fatal.
pub open spec fn run_from(s: Seq<u8>, p: int, stack: Seq<State>, emitted: Seq<u8>) -> Transcript
    decreases s.len() - p,
{
    if p < 0 || p >= s.len() {
        Transcript { err: None, emitted, stack, end: p }
    } else {
        let top = stack.last();
        let byte = s[p];
        let stack2 = stack.drop_last().push(begin_transition(top));
        let emitted2 = emitted + begin_emission(top);
        if byte == BENCODE_BEGIN_INTEGER {
            match scan_integer(s, p + 1, StateExpecting::DigitOrSign) {
                IntScan::Complete { end } => {
                    proof {
                        integer::lemma_scan_integer_bounds(s, p + 1, StateExpecting::DigitOrSign);
                    }
                    run_from(s, end, stack2, emitted2 + s.subrange(p + 1, end - 1))
                },
                IntScan::Truncated => Transcript {
                    err: Some(Error::UnexpectedEndOfInput),
                    emitted: emitted2 + s.subrange(p + 1, s.len() as int),
                    stack: stack2,
                    end: s.len() as int,
                },
                IntScan::Malformed { at } => Transcript {
                    err: Some(Error::InvalidInteger),
                    emitted: emitted2 + s.subrange(p + 1, at),
                    stack: stack2,
                    end: at + 1,
                },
            }
        } else if 48 <= byte && byte <= 57 {
            match scan_string(s, p + 1, byte) {
                StringScan::Complete { end, emission } => {
                    proof {
                        string::lemma_scan_string_bounds(s, p + 1, byte);
                    }
                    run_from(s, end, stack2, emitted2 + emission)
                },
                StringScan::Truncated => Transcript {
                    err: Some(Error::UnexpectedEndOfInput),
                    emitted: emitted2,
                    stack: stack2,
                    end: s.len() as int,
                },
                StringScan::BadLength { at } => Transcript {
                    err: Some(Error::InvalidStringLength),
                    emitted: emitted2,
                    stack: stack2,
                    end: at,
                },
            }
        } else if byte == BENCODE_BEGIN_LIST {
            run_from(
                s,
                p + 1,
                stack2.push(State::ExpectingFirstListItemOrEnd),
                emitted2 + seq![JSON_ARRAY_BEGIN],
            )
        } else if byte == BENCODE_BEGIN_DICT {
            run_from(
                s,
                p + 1,
                stack2.push(State::ExpectingFirstDictFieldOrEnd),
                emitted2 + seq![JSON_OBJ_BEGIN],
            )
        } else if byte == BENCODE_END {
            if end_accepts(top) {
                run_from(s, p + 1, stack.drop_last(), emitted + end_emission(top))
            } else {
                Transcript { err: Some(Error::UnexpectedEndOfContainer), emitted, stack, end: p + 1 }
            }
        } else {
            Transcript { err: Some(Error::UnexpectedLeadByte), emitted, stack, end: p + 1 }
        }
    }
}

/// The transcript of transcoding a whole input from the initial
/// state: position zero, the sentinel alone on the stack, nothing
/// emitted yet.
pub open spec fn transcript(s: Seq<u8>) -> Transcript {
    run_from(s, 0, seq![State::Initial], Seq::<u8>::empty())
}

/// Law: on any input, well formed or not, the parse-context stack
/// invariant holds at every step of the transcode.  The `Initial`
/// sentinel is never popped and stays alone at the bottom: each
/// recursive step of `run_from` starts from a well-formed stack, and
/// the final stack is well formed too.  The matching of pushes and
/// pops is visible in `run_from` itself: a state is pushed only at
/// `l` or `d`, and exactly one state is popped at each accepted `e`.
pub proof fn lemma_run_from_preserves_stack_invariant(
    s: Seq<u8>,
    p: int,
    stack: Seq<State>,
    emitted: Seq<u8>,
)
    requires
        states_well_formed(stack),
    ensures
        states_well_formed(run_from(s, p, stack, emitted).stack),
    decreases s.len() - p,
{
    if 0 <= p < s.len() {
        let top = stack.last();
        let byte = s[p];
        let stack2 = stack.drop_last().push(begin_transition(top));
        let emitted2 = emitted + begin_emission(top);
        assert(states_well_formed(stack2)) by {
            if top == State::Initial {
                assert(stack2 =~= stack);
            }
        }
        if byte == BENCODE_BEGIN_INTEGER {
            match scan_integer(s, p + 1, StateExpecting::DigitOrSign) {
                IntScan::Complete { end } => {
                    integer::lemma_scan_integer_bounds(s, p + 1, StateExpecting::DigitOrSign);
                    lemma_run_from_preserves_stack_invariant(
                        s,
                        end,
                        stack2,
                        emitted2 + s.subrange(p + 1, end - 1),
                    );
                },
                _ => {},
            }
        } else if 48 <= byte && byte <= 57 {
            match scan_string(s, p + 1, byte) {
                StringScan::Complete { end, emission } => {
                    string::lemma_scan_string_bounds(s, p + 1, byte);
                    lemma_run_from_preserves_stack_invariant(s, end, stack2, emitted2 + emission);
                },
                _ => {},
            }
        } else if byte == BENCODE_BEGIN_LIST {
            lemma_run_from_preserves_stack_invariant(
                s,
                p + 1,
                stack2.push(State::ExpectingFirstListItemOrEnd),
                emitted2 + seq![JSON_ARRAY_BEGIN],
            );
        } else if byte == BENCODE_BEGIN_DICT {
            lemma_run_from_preserves_stack_invariant(
                s,
                p + 1,
                stack2.push(State::ExpectingFirstDictFieldOrEnd),
                emitted2 + seq![JSON_OBJ_BEGIN],
            );
        } else if byte == BENCODE_END {
            if end_accepts(top) {
                lemma_run_from_preserves_stack_invariant(
                    s,
                    p + 1,
                    stack.drop_last(),
                    emitted + end_emission(top),
                );
            }
        }
    }
}

/// Law: the stack invariant holds for a whole transcode started from
/// the initial state.
pub proof fn lemma_transcript_stack_invariant(s: Seq<u8>)
    ensures
        states_well_formed(transcript(s).stack),
{
    lemma_run_from_preserves_stack_invariant(s, 0, seq![State::Initial], Seq::<u8>::empty());
}

/// Law: the transcode is deterministic.  The transcript, and with it
/// every emitted byte, is a function of the input byte sequence
/// alone: equal inputs give byte-for-byte equal outputs, equal final
/// stacks, and equal outcomes.
pub proof fn lemma_transcode_deterministic(s1: Seq<u8>, s2: Seq<u8>)
    requires
        s1 == s2,
    ensures
        transcript(s1) == transcript(s2),
        transcript(s1).emitted == transcript(s2).emitted,
{
}

/// The stack-driven Bencode to JSON transcoder.
///
/// It owns the reader over the input bytes and the stack of parsing
/// states, and writes the emitted JSON through any [`Writer`].
pub struct BencodeParser {
    byte_reader: ByteReader,
    stack: Stack,
}

impl BencodeParser {
    /// The whole input under transcode.
    pub closed spec fn input(&self) -> Seq<u8> {
        self.byte_reader.data()
    }

    /// The position of the next unread input byte.
    pub closed spec fn position(&self) -> int {
        self.byte_reader.position()
    }

    /// The run of parsing states on the stack, bottom first.
    pub closed spec fn states(&self) -> Seq<State> {
        self.stack@
    }

    /// The reader is within its input and the stack is well formed.
    pub closed spec fn wf(&self) -> bool {
        &&& self.byte_reader.wf()
        &&& states_well_formed(self.stack@)
    }

    pub fn new(input: Vec<u8>) -> (parser: Self)
        ensures
            parser.wf(),
            parser.input() == input@,
            parser.position() == 0,
            parser.states() == seq![State::Initial],
    {
        BencodeParser { byte_reader: ByteReader::new(input), stack: Stack::default() }
    }

    /// It parses the bencoded input and writes the corresponding JSON
    /// value to the given byte-oriented writer.
    pub fn write_bytes(&mut self, writer: &mut ByteWriter) -> (result: Result<(), Error>)
        requires
            old(self).wf(),
        ensures
            final(self).wf(),
            final(self).input() == old(self).input(),
            ({
                let t = run_from(
                    old(self).input(),
                    old(self).position(),
                    old(self).states(),
                    Seq::<u8>::empty(),
                );
                &&& final(writer).out() == old(writer).out() + t.emitted
                &&& final(self).states() == t.stack
                &&& final(self).position() == t.end
                &&& (match t.err {
                    None => result == Ok::<(), Error>(()),
                    Some(err) => result == Err::<(), Error>(err),
                })
            }),
    {
        self.parse(writer)
    }

    /// It parses the bencoded input and writes the corresponding JSON
    /// value to the given text-oriented writer.
    pub fn write_str(&mut self, writer: &mut StringWriter) -> (result: Result<(), Error>)
        requires
            old(self).wf(),
        ensures
            final(self).wf(),
            final(self).input() == old(self).input(),
            ({
                let t = run_from(
                    old(self).input(),
                    old(self).position(),
                    old(self).states(),
                    Seq::<u8>::empty(),
                );
                &&& final(writer).out() == old(writer).out() + t.emitted
                &&& final(self).states() == t.stack
                &&& final(self).position() == t.end
                &&& (match t.err {
                    None => result == Ok::<(), Error>(()),
                    Some(err) => result == Err::<(), Error>(err),
                })
            }),
    {
        self.parse(writer)
    }

    /// It parses the bencoded input: it reads one lead byte at a
    /// time and dispatches until the input ends at a value boundary,
    /// or a fatal condition aborts the transcode.
    fn parse<W: Writer>(&mut self, writer: &mut W) -> (result: Result<(), Error>)
        requires
            old(self).wf(),
        ensures
            final(self).wf(),
            final(self).input() == old(self).input(),
            ({
                let t = run_from(
                    old(self).input(),
                    old(self).position(),
                    old(self).states(),
                    Seq::<u8>::empty(),
                );
                &&& final(writer).out() == old(writer).out() + t.emitted
                &&& final(self).states() == t.stack
                &&& final(self).position() == t.end
                &&& (match t.err {
                    None => result == Ok::<(), Error>(()),
                    Some(err) => result == Err::<(), Error>(err),
                })
            }),
    {
        let ghost s = self.input();
        let ghost p0 = self.position();
        let ghost st0 = self.states();
        let ghost base = writer.out();

        loop
            invariant
                s == old(self).input(),
                p0 == old(self).position(),
                st0 == old(self).states(),
                base == old(writer).out(),
                self.wf(),
                self.input() == s,
                0 <= self.position() <= s.len(),
                base.len() <= writer.out().len(),
                writer.out().subrange(0, base.len() as int) == base,
                run_from(s, p0, st0, Seq::<u8>::empty()) == run_from(
                    s,
                    self.position(),
                    self.states(),
                    writer.out().skip(base.len() as int),
                ),
            decreases s.len() - self.position(),
        {
            let ghost pos = self.position();
            let ghost states_now = self.states();
            let ghost delta = writer.out().skip(base.len() as int);
            let ghost top = states_now.last();

            let byte = match self.byte_reader.read_byte() {
                Some(byte) => byte,
                None => {
                    proof {
                        assert(writer.out() =~= base + delta);
                    }
                    return Ok(());
                },
            };

            if byte == BENCODE_BEGIN_INTEGER {
                // Begin of integer
                self.begin_bencoded_value(writer);
                let ghost emitted2 = delta + begin_emission(top);
                proof {
                    integer::lemma_scan_integer_bounds(s, pos + 1, StateExpecting::DigitOrSign);
                }
                match integer::parse(&mut self.byte_reader, writer) {
                    Ok(()) => {
                        proof {
                            let sc = scan_integer(s, pos + 1, StateExpecting::DigitOrSign);
                            match sc {
                                IntScan::Complete { end } => {
                                    assert(writer.out().skip(base.len() as int) =~= emitted2
                                        + s.subrange(pos + 1, end - 1));
                                },
                                _ => {},
                            }
                        }
                    },
                    Err(err) => {
                        proof {
                            let sc = scan_integer(s, pos + 1, StateExpecting::DigitOrSign);
                            match sc {
                                IntScan::Truncated => {
                                    assert(writer.out() =~= base + (emitted2 + s.subrange(
                                        pos + 1,
                                        s.len() as int,
                                    )));
                                },
                                IntScan::Malformed { at } => {
                                    assert(writer.out() =~= base + (emitted2 + s.subrange(
                                        pos + 1,
                                        at,
                                    )));
                                },
                                _ => {},
                            }
                        }
                        return Err(err);
                    },
                }
            } else if 48 <= byte && byte <= 57 {
                // Begin of string
                self.begin_bencoded_value(writer);
                let ghost emitted2 = delta + begin_emission(top);
                proof {
                    string::lemma_scan_string_bounds(s, pos + 1, byte);
                }
                match string::parse(&mut self.byte_reader, writer, byte) {
                    Ok(()) => {
                        proof {
                            let sc = scan_string(s, pos + 1, byte);
                            match sc {
                                StringScan::Complete { end, emission } => {
                                    assert(writer.out().skip(base.len() as int) =~= emitted2
                                        + emission);
                                },
                                _ => {},
                            }
                        }
                    },
                    Err(err) => {
                        proof {
                            assert(writer.out() =~= base + emitted2);
                        }
                        return Err(err);
                    },
                }
            } else if byte == BENCODE_BEGIN_LIST {
                // Begin of list
                self.begin_bencoded_value(writer);
                writer.write_byte(JSON_ARRAY_BEGIN);
                self.stack.push(State::ExpectingFirstListItemOrEnd);
                proof {
                    assert(writer.out().skip(base.len() as int) =~= delta + begin_emission(top)
                        + seq![JSON_ARRAY_BEGIN]);
                }
            } else if byte == BENCODE_BEGIN_DICT {
                // Begin of dictionary
                self.begin_bencoded_value(writer);
                writer.write_byte(JSON_OBJ_BEGIN);
                self.stack.push(State::ExpectingFirstDictFieldOrEnd);
                proof {
                    assert(writer.out().skip(base.len() as int) =~= delta + begin_emission(top)
                        + seq![JSON_OBJ_BEGIN]);
                }
            } else if byte == BENCODE_END {
                // End of list or dictionary (not end of integer)
                match self.end_bencoded_value(writer) {
                    Ok(()) => {
                        proof {
                            assert(writer.out().skip(base.len() as int) =~= delta + end_emission(
                                top,
                            ));
                        }
                    },
                    Err(err) => {
                        proof {
                            assert(writer.out() =~= base + delta);
                        }
                        return Err(err);
                    },
                }
            } else {
                proof {
                    assert(writer.out() =~= base + delta);
                }
                return Err(Error::UnexpectedLeadByte);
            }
        }
    }

    /// It updates the stack state and emits the separator owed before
    /// a value, when one is owed.
    ///
    /// Called when the first byte of a bencoded value (integer,
    /// string, list or dict) is received.
    pub fn begin_bencoded_value<W: Writer>(&mut self, writer: &mut W)
        requires
            old(self).wf(),
        ensures
            final(self).wf(),
            final(self).input() == old(self).input(),
            final(self).position() == old(self).position(),
            final(self).states() == old(self).states().drop_last().push(
                begin_transition(old(self).states().last()),
            ),
            final(writer).out() == old(writer).out() + begin_emission(old(self).states().last()),
    {
        let ghost states0 = self.stack@;
        match self.stack.peek() {
            State::Initial => {
                proof {
                    assert(states0.drop_last().push(State::Initial) =~= states0);
                    assert(writer.out() =~= writer.out() + begin_emission(State::Initial));
                }
            },
            State::ExpectingFirstListItemOrEnd => {
                self.stack.swap_top(State::ExpectingNextListItem);
                proof {
                    assert(writer.out() =~= writer.out() + begin_emission(
                        State::ExpectingFirstListItemOrEnd,
                    ));
                }
            },
            State::ExpectingNextListItem => {
                // Items separator
                writer.write_byte(JSON_ARRAY_ITEMS_SEPARATOR);
                proof {
                    assert(states0.drop_last().push(State::ExpectingNextListItem) =~= states0);
                    assert(writer.out() =~= old(writer).out() + begin_emission(
                        State::ExpectingNextListItem,
                    ));
                }
            },
            State::ExpectingFirstDictFieldOrEnd => {
                self.stack.swap_top(State::ExpectingDictFieldValue);
                proof {
                    assert(writer.out() =~= writer.out() + begin_emission(
                        State::ExpectingFirstDictFieldOrEnd,
                    ));
                }
            },
            State::ExpectingDictFieldValue => {
                // Key/Value separator
                writer.write_byte(JSON_OBJ_FIELD_KEY_VALUE_SEPARATOR);
                self.stack.swap_top(State::ExpectingDictFieldKey);
                proof {
                    assert(writer.out() =~= old(writer).out() + begin_emission(
                        State::ExpectingDictFieldValue,
                    ));
                }
            },
            State::ExpectingDictFieldKey => {
                // Field separator
                writer.write_byte(JSON_OBJ_FIELDS_SEPARATOR);
                self.stack.swap_top(State::ExpectingDictFieldValue);
                proof {
                    assert(writer.out() =~= old(writer).out() + begin_emission(
                        State::ExpectingDictFieldKey,
                    ));
                }
            },
        }
    }

    /// It pops the stack state and emits the closing delimiter of the
    /// innermost container, or rejects an `e` that closes nothing.
    ///
    /// Called when the end of list or dictionary byte is received.
    /// End of integers or strings are processed while parsing them.
    pub fn end_bencoded_value<W: Writer>(&mut self, writer: &mut W) -> (result: Result<(), Error>)
        requires
            old(self).wf(),
        ensures
            final(self).wf(),
            final(self).input() == old(self).input(),
            final(self).position() == old(self).position(),
            end_accepts(old(self).states().last()) ==> {
                &&& result == Ok::<(), Error>(())
                &&& final(self).states() == old(self).states().drop_last()
                &&& final(writer).out() == old(writer).out() + end_emission(
                    old(self).states().last(),
                )
            },
            !end_accepts(old(self).states().last()) ==> {
                &&& result == Err::<(), Error>(Error::UnexpectedEndOfContainer)
                &&& final(self).states() == old(self).states()
                &&& final(writer).out() == old(writer).out()
            },
    {
        match self.stack.peek() {
            State::ExpectingFirstListItemOrEnd | State::ExpectingNextListItem => {
                writer.write_byte(JSON_ARRAY_END);
                self.stack.pop();
                proof {
                    assert(writer.out() =~= old(writer).out() + end_emission(
                        old(self).states().last(),
                    ));
                }
                Ok(())
            },
            State::ExpectingFirstDictFieldOrEnd | State::ExpectingDictFieldKey => {
                writer.write_byte(JSON_OBJ_END);
                self.stack.pop();
                proof {
                    assert(writer.out() =~= old(writer).out() + end_emission(
                        old(self).states().last(),
                    ));
                }
                Ok(())
            },
            State::ExpectingDictFieldValue | State::Initial => {
                // An end byte with no container to close, or in place
                // of a dictionary field value.
                Err(Error::UnexpectedEndOfContainer)
            },
        }
    }

    /// It returns a copy of the output captured by the writer.
    pub fn opt_captured_output<W: Writer>(&self, writer: &W) -> (result: Option<Vec<u8>>)
        ensures
            result matches Some(captured) && captured@ == writer.out(),
    {
        writer.get_captured_output()
    }
}

} // verus!
