//! Bencode string parser.
//!
//! A Bencode string is `length:value`: a run of decimal digits, a
//! colon, then exactly `length` arbitrary bytes.  The emitted JSON is
//! a string literal: the value bytes verbatim between quotes when
//! they are valid UTF-8, and otherwise the fixed textual form
//! `<hex>` + lowercase hex of every byte + `</hex>` between quotes,
//! so that even a non-UTF-8 value becomes a valid JSON string.

use vstd::prelude::*;
use vstd::utf8::valid_utf8;

use crate::byte_reader::ByteReader;
use crate::io::writer::Writer;
use crate::parsers::integer::is_ascii_digit;
use crate::Error;

verus! {

/// ASCII `:`, the delimiter between the length digits and the value.
pub const STRING_LENGTH_SEPARATOR: u8 = 58;

/// ASCII `"`, the JSON string quote.
pub const JSON_QUOTE: u8 = 34;

/// The position of the first `:` in `s` at or after `q`, or -1 when
/// there is none.
pub open spec fn find_colon(s: Seq<u8>, q: int) -> int
    decreases s.len() - q,
{
    if q < 0 || q >= s.len() {
        -1
    } else if s[q] == STRING_LENGTH_SEPARATOR {
        q
    } else {
        find_colon(s, q + 1)
    }
}

/// A found colon lies at or after the starting point, within the
/// input, and is a colon.
pub proof fn lemma_find_colon_bounds(s: Seq<u8>, q: int)
    ensures
        find_colon(s, q) != -1 ==> q <= find_colon(s, q) < s.len() && s[find_colon(s, q)]
            == STRING_LENGTH_SEPARATOR,
    decreases s.len() - q,
{
    if 0 <= q < s.len() && s[q] != STRING_LENGTH_SEPARATOR {
        lemma_find_colon_bounds(s, q + 1);
    }
}

/// Whether every byte of `s` is an ASCII digit.
pub open spec fn all_digits(s: Seq<u8>) -> bool {
    forall|i: int| 0 <= i < s.len() ==> is_ascii_digit(s[i])
}

/// The value of `s` read as a base-10 numeral in ASCII digits.
pub open spec fn decimal_value(s: Seq<u8>) -> int
    decreases s.len(),
{
    if s.len() == 0 {
        0
    } else {
        decimal_value(s.drop_last()) * 10 + (s.last() - 48)
    }
}

/// Whether `s` is a string length the parser accepts: at least one
/// byte, all digits, and a value that fits in `usize`.
pub open spec fn is_valid_length(s: Seq<u8>) -> bool {
    &&& s.len() >= 1
    &&& all_digits(s)
    &&& decimal_value(s) <= usize::MAX as int
}

/// A numeral of digits is never negative.
pub proof fn lemma_decimal_value_nonneg(s: Seq<u8>)
    requires
        all_digits(s),
    ensures
        decimal_value(s) >= 0,
    decreases s.len(),
{
    if s.len() > 0 {
        lemma_decimal_value_nonneg(s.drop_last());
    }
}

/// Reading more digits never shrinks the value: any prefix of a
/// numeral is at most the whole numeral.
pub proof fn lemma_decimal_value_prefix_le(s: Seq<u8>, i: int)
    requires
        all_digits(s),
        0 <= i <= s.len(),
    ensures
        decimal_value(s.subrange(0, i)) <= decimal_value(s),
    decreases s.len() - i,
{
    if i == s.len() {
        assert(s.subrange(0, i) =~= s);
    } else {
        let shorter = s.subrange(0, i);
        let longer = s.subrange(0, i + 1);
        assert(longer.drop_last() =~= shorter);
        assert(all_digits(shorter));
        lemma_decimal_value_nonneg(shorter);
        assert(decimal_value(longer) == decimal_value(shorter) * 10 + (s[i] - 48));
        lemma_decimal_value_prefix_le(s, i + 1);
    }
}

/// The lowercase hex digit for a nibble, from the table
/// `0123456789abcdef`.
pub open spec fn hex_digit(nibble: int) -> u8 {
    if nibble < 10 {
        (48 + nibble) as u8
    } else {
        (87 + nibble) as u8
    }
}

/// The lowercase hex encoding of a byte sequence: two digits per
/// byte, high nibble first.
pub open spec fn hex_bytes(s: Seq<u8>) -> Seq<u8>
    decreases s.len(),
{
    if s.len() == 0 {
        Seq::<u8>::empty()
    } else {
        seq![hex_digit(s[0] as int / 16), hex_digit(s[0] as int % 16)] + hex_bytes(s.drop_first())
    }
}

/// The bytes of the opening marker `<hex>`.
pub open spec fn hex_open_tag() -> Seq<u8> {
    seq![60u8, 104u8, 101u8, 120u8, 62u8]
}

/// The bytes of the closing marker `</hex>`.
pub open spec fn hex_close_tag() -> Seq<u8> {
    seq![60u8, 47u8, 104u8, 101u8, 120u8, 62u8]
}

/// The placeholder emitted for a non-UTF-8 string value: `<hex>`,
/// the hex digits of every byte, `</hex>`.
pub open spec fn hex_placeholder(bytes: Seq<u8>) -> Seq<u8> {
    hex_open_tag() + hex_bytes(bytes) + hex_close_tag()
}

/// The text emitted for a string value: the bytes verbatim when they
/// are valid UTF-8, the hex placeholder otherwise.
pub open spec fn string_text(bytes: Seq<u8>) -> Seq<u8> {
    if valid_utf8(bytes) {
        bytes
    } else {
        hex_placeholder(bytes)
    }
}

/// The JSON string literal emitted for a string value.
pub open spec fn json_string(bytes: Seq<u8>) -> Seq<u8> {
    seq![JSON_QUOTE] + string_text(bytes) + seq![JSON_QUOTE]
}

/// How a scan of a string value ends.
pub ghost enum StringScan {
    /// The string is well formed; `end` is the position just after
    /// its last value byte, and `emission` the JSON literal for it.
    Complete { end: int, emission: Seq<u8> },
    /// The input ran out inside the length digits or the value bytes.
    Truncated,
    /// The bytes before the colon are not a decimal length that fits
    /// in `usize`; `at` is the position just after the colon.
    BadLength { at: int },
}

/// The result of scanning a string in `s` whose lead digit was the
/// byte `lead`, with `q` the position just after that lead byte.
pub open spec fn scan_string(s: Seq<u8>, q: int, lead: u8) -> StringScan {
    let c = find_colon(s, q);
    if c == -1 {
        StringScan::Truncated
    } else {
        let length_bytes = seq![lead] + s.subrange(q, c);
        if !is_valid_length(length_bytes) {
            StringScan::BadLength { at: c + 1 }
        } else {
            let n = decimal_value(length_bytes);
            if c + 1 + n <= s.len() {
                StringScan::Complete {
                    end: c + 1 + n,
                    emission: json_string(s.subrange(c + 1, c + 1 + n)),
                }
            } else {
                StringScan::Truncated
            }
        }
    }
}

/// A completed scan ends past its starting point and within the
/// input; a bad length is reported just after a colon of the input.
pub proof fn lemma_scan_string_bounds(s: Seq<u8>, q: int, lead: u8)
    requires
        0 <= q,
    ensures
        scan_string(s, q, lead) matches StringScan::Complete { end, .. } ==> q < end <= s.len(),
        scan_string(s, q, lead) matches StringScan::BadLength { at } ==> q < at <= s.len(),
{
    lemma_find_colon_bounds(s, q);
    let c = find_colon(s, q);
    if c != -1 {
        let length_bytes = seq![lead] + s.subrange(q, c);
        if is_valid_length(length_bytes) {
            lemma_decimal_value_nonneg(length_bytes);
        }
    }
}

/// Relies on hex::encode: each input byte becomes two lowercase hex
/// digits, high nibble first, from the table `0123456789abcdef`.
#[verifier::external_body]
fn hex_encode(data: &Vec<u8>) -> (result: Vec<u8>)
    ensures
        result@ == hex_bytes(data@),
{
    hex::encode(data.as_slice()).into_bytes()
}

/// Relies on str::from_utf8: it returns `Ok` exactly when the bytes
/// are a valid UTF-8 encoding, which vstd's `valid_utf8` spells out.
#[verifier::external_body]
fn utf8_check(bytes: &Vec<u8>) -> (result: bool)
    ensures
        result == valid_utf8(bytes@),
{
    core::str::from_utf8(bytes.as_slice()).is_ok()
}

/// The length part of a string under parse: the digit bytes read so
/// far, and the number they were converted to.
struct Length {
    bytes: Vec<u8>,
    number: usize,
}

impl Length {
    fn add_byte(&mut self, byte: u8)
        ensures
            final(self).bytes@ == old(self).bytes@.push(byte),
            final(self).number == old(self).number,
    {
        self.bytes.push(byte);
    }

    /// It converts the bytes read so far into the length they spell
    /// in decimal, rejecting non-digits and values over `usize::MAX`.
    fn convert_to_number(&mut self) -> (result: Result<usize, Error>)
        ensures
            final(self).bytes@ == old(self).bytes@,
            is_valid_length(old(self).bytes@) ==> {
                &&& result == Ok::<usize, Error>(decimal_value(old(self).bytes@) as usize)
                &&& final(self).number == decimal_value(old(self).bytes@)
            },
            !is_valid_length(old(self).bytes@) ==> {
                &&& result == Err::<usize, Error>(Error::InvalidStringLength)
                &&& final(self).number == old(self).number
            },
    {
        if self.bytes.len() == 0 {
            return Err(Error::InvalidStringLength);
        }
        let mut number: usize = 0;
        let mut i: usize = 0;
        while i < self.bytes.len()
            invariant
                self.bytes@ == old(self).bytes@,
                self.number == old(self).number,
                i <= self.bytes@.len(),
                all_digits(self.bytes@.subrange(0, i as int)),
                number == decimal_value(self.bytes@.subrange(0, i as int)),
            decreases self.bytes@.len() - i,
        {
            let byte = self.bytes[i];
            if byte < 48 || byte > 57 {
                return Err(Error::InvalidStringLength);
            }
            let digit = (byte - 48) as usize;
            proof {
                assert(self.bytes@.subrange(0, i + 1).drop_last() =~= self.bytes@.subrange(
                    0,
                    i as int,
                ));
            }
            if number > (usize::MAX - digit) / 10 {
                proof {
                    lemma_overflow_means_invalid(self.bytes@, i as int, number as int, digit as int);
                }
                return Err(Error::InvalidStringLength);
            }
            proof {
                vstd::arithmetic::div_mod::lemma_fundamental_div_mod(
                    usize::MAX - digit as int,
                    10,
                );
                vstd::arithmetic::div_mod::lemma_mod_bound(usize::MAX - digit as int, 10);
            }
            number = number * 10 + digit;
            i = i + 1;
        }
        proof {
            assert(self.bytes@.subrange(0, self.bytes@.len() as int) =~= self.bytes@);
        }
        self.number = number;
        Ok(number)
    }
}

/// When the next digit would push the accumulated value over
/// `usize::MAX`, no continuation of these bytes is a valid length.
proof fn lemma_overflow_means_invalid(s: Seq<u8>, i: int, number: int, digit: int)
    requires
        0 <= i < s.len(),
        all_digits(s.subrange(0, i)),
        number == decimal_value(s.subrange(0, i)),
        digit == s[i] - 48,
        number > (usize::MAX - digit) / 10,
    ensures
        !is_valid_length(s),
{
    if all_digits(s) {
        assert(s.subrange(0, i + 1).drop_last() =~= s.subrange(0, i));
        assert(decimal_value(s.subrange(0, i + 1)) == number * 10 + digit);
        vstd::arithmetic::div_mod::lemma_fundamental_div_mod(usize::MAX - digit, 10);
        vstd::arithmetic::div_mod::lemma_mod_bound(usize::MAX - digit, 10);
        assert(number * 10 >= ((usize::MAX - digit) / 10 + 1) * 10) by (nonlinear_arith)
            requires
                number > (usize::MAX - digit) / 10,
        ;
        assert(decimal_value(s.subrange(0, i + 1)) > usize::MAX as int);
        lemma_decimal_value_prefix_le(s, i + 1);
    }
}

/// The value part of a string under parse: the raw bytes read so
/// far, counted as they arrive.
struct Value {
    bytes: Vec<u8>,
    bytes_counter: usize,
}

impl Value {
    fn add_byte(&mut self, byte: u8)
        ensures
            final(self).bytes@ == old(self).bytes@.push(byte),
            final(self).bytes_counter == final(self).bytes@.len(),
    {
        self.bytes.push(byte);
        self.bytes_counter = self.bytes.len();
    }

    /// The text to emit for these bytes: themselves when they are
    /// valid UTF-8, the hex placeholder otherwise.
    fn utf8(&self) -> (result: Vec<u8>)
        ensures
            result@ == string_text(self.bytes@),
    {
        if utf8_check(&self.bytes) {
            let mut copy: Vec<u8> = Vec::new();
            let mut i: usize = 0;
            while i < self.bytes.len()
                invariant
                    i <= self.bytes@.len(),
                    copy@ == self.bytes@.subrange(0, i as int),
                decreases self.bytes@.len() - i,
            {
                copy.push(self.bytes[i]);
                i = i + 1;
                proof {
                    assert(self.bytes@.subrange(0, i as int) =~= self.bytes@.subrange(
                        0,
                        i as int - 1,
                    ).push(self.bytes@[i as int - 1]));
                }
            }
            proof {
                assert(self.bytes@.subrange(0, self.bytes@.len() as int) =~= self.bytes@);
            }
            copy
        } else {
            Self::bytes_to_hex(&self.bytes)
        }
    }

    /// The hex placeholder for bytes that are not valid UTF-8.
    fn bytes_to_hex(data: &Vec<u8>) -> (result: Vec<u8>)
        ensures
            result@ == hex_placeholder(data@),
    {
        let mut out: Vec<u8> = Vec::new();
        out.push(60);  // <
        out.push(104);  // h
        out.push(101);  // e
        out.push(120);  // x
        out.push(62);  // >
        let mut digits = hex_encode(data);
        out.append(&mut digits);
        out.push(60);  // <
        out.push(47);  // /
        out.push(104);  // h
        out.push(101);  // e
        out.push(120);  // x
        out.push(62);  // >
        proof {
            assert(out@ =~= hex_placeholder(data@));
        }
        out
    }
}

/// The transient state owned while one string value is parsed.
struct StringParser {
    length: Length,
    value: Value,
}

impl StringParser {
    spec fn is_fresh(&self) -> bool {
        &&& self.length.bytes@.len() == 0
        &&& self.value.bytes@.len() == 0
    }

    fn new() -> (parser: Self)
        ensures
            parser.is_fresh(),
    {
        StringParser {
            length: Length { bytes: Vec::new(), number: 0 },
            value: Value { bytes: Vec::new(), bytes_counter: 0 },
        }
    }

    /// It parses a whole string value and writes its JSON literal.
    fn parse<W: Writer>(
        &mut self,
        reader: &mut ByteReader,
        writer: &mut W,
        initial_byte: u8,
    ) -> (result: Result<(), Error>)
        requires
            old(reader).wf(),
            old(self).is_fresh(),
        ensures
            final(reader).wf(),
            final(reader).data() == old(reader).data(),
            ({
                let s = old(reader).data();
                let q0 = old(reader).position();
                match scan_string(s, q0, initial_byte) {
                    StringScan::Complete { end, emission } => {
                        &&& result is Ok
                        &&& final(reader).position() == end
                        &&& final(writer).out() == old(writer).out() + emission
                    },
                    StringScan::Truncated => {
                        &&& result == Err::<(), Error>(Error::UnexpectedEndOfInput)
                        &&& final(reader).position() == s.len()
                        &&& final(writer).out() == old(writer).out()
                    },
                    StringScan::BadLength { at } => {
                        &&& result == Err::<(), Error>(Error::InvalidStringLength)
                        &&& final(reader).position() == at
                        &&& final(writer).out() == old(writer).out()
                    },
                }
            }),
    {
        match self.parse_length(reader, initial_byte) {
            Ok(()) => {},
            Err(err) => {
                return Err(err);
            },
        }

        match self.parse_value(reader) {
            Ok(()) => {},
            Err(err) => {
                return Err(err);
            },
        }

        let piece = self.json();
        writer.write_str(&piece);

        Ok(())
    }

    /// It reads the remaining length digits up to the colon and
    /// converts them.
    fn parse_length(&mut self, reader: &mut ByteReader, initial_byte: u8) -> (result: Result<
        (),
        Error,
    >)
        requires
            old(reader).wf(),
            old(self).length.bytes@.len() == 0,
        ensures
            final(reader).wf(),
            final(reader).data() == old(reader).data(),
            final(self).value.bytes@ == old(self).value.bytes@,
            ({
                let s = old(reader).data();
                let q0 = old(reader).position();
                let c = find_colon(s, q0);
                let length_bytes = seq![initial_byte] + s.subrange(q0, c);
                if c == -1 {
                    &&& result == Err::<(), Error>(Error::UnexpectedEndOfInput)
                    &&& final(reader).position() == s.len()
                } else if !is_valid_length(length_bytes) {
                    &&& result == Err::<(), Error>(Error::InvalidStringLength)
                    &&& final(reader).position() == c + 1
                } else {
                    &&& result is Ok
                    &&& final(reader).position() == c + 1
                    &&& final(self).length.number == decimal_value(length_bytes)
                }
            }),
    {
        let ghost s = reader.data();
        let ghost q0 = reader.position();

        self.length.add_byte(initial_byte);

        loop
            invariant
                s == old(reader).data(),
                q0 == old(reader).position(),
                reader.wf(),
                reader.data() == s,
                0 <= q0 <= reader.position() <= s.len(),
                find_colon(s, q0) == find_colon(s, reader.position()),
                self.length.bytes@ == seq![initial_byte] + s.subrange(q0, reader.position()),
                self.value.bytes@ == old(self).value.bytes@,
            decreases s.len() - reader.position(),
        {
            let ghost pos = reader.position();
            let byte = match reader.read_byte() {
                Some(byte) => byte,
                None => {
                    return Err(Error::UnexpectedEndOfInput);
                },
            };

            if byte == STRING_LENGTH_SEPARATOR {
                // End of string length
                match self.process_end_of_string_length() {
                    Ok(_) => {
                        return Ok(());
                    },
                    Err(err) => {
                        return Err(err);
                    },
                }
            } else {
                self.length.add_byte(byte);
                proof {
                    assert(seq![initial_byte] + s.subrange(q0, pos + 1) =~= (
                    seq![initial_byte] + s.subrange(q0, pos)).push(s[pos]));
                }
            }
        }
    }

    /// It reads exactly the announced number of value bytes.
    fn parse_value(&mut self, reader: &mut ByteReader) -> (result: Result<(), Error>)
        requires
            old(reader).wf(),
            old(self).value.bytes@.len() == 0,
        ensures
            final(reader).wf(),
            final(reader).data() == old(reader).data(),
            final(self).length.bytes@ == old(self).length.bytes@,
            final(self).length.number == old(self).length.number,
            ({
                let s = old(reader).data();
                let q0 = old(reader).position();
                let n = old(self).length.number as int;
                if q0 + n <= s.len() {
                    &&& result is Ok
                    &&& final(reader).position() == q0 + n
                    &&& final(self).value.bytes@ == s.subrange(q0, q0 + n)
                } else {
                    &&& result == Err::<(), Error>(Error::UnexpectedEndOfInput)
                    &&& final(reader).position() == s.len()
                }
            }),
    {
        let ghost s = reader.data();
        let ghost q0 = reader.position();
        let n = self.length.number;
        let mut i: usize = 0;

        while i < n
            invariant
                s == old(reader).data(),
                q0 == old(reader).position(),
                n == old(self).length.number,
                reader.wf(),
                reader.data() == s,
                0 <= q0 <= reader.position() <= s.len(),
                reader.position() == q0 + i,
                i <= n,
                self.value.bytes@ == s.subrange(q0, q0 + i),
                self.length.bytes@ == old(self).length.bytes@,
                self.length.number == old(self).length.number,
            decreases n - i,
        {
            let ghost pos = reader.position();
            let byte = match reader.read_byte() {
                Some(byte) => byte,
                None => {
                    return Err(Error::UnexpectedEndOfInput);
                },
            };

            self.value.add_byte(byte);
            i = i + 1;
            proof {
                assert(s.subrange(q0, pos + 1) =~= s.subrange(q0, pos).push(s[pos]));
            }
        }

        Ok(())
    }

    /// This function is called when the `:` delimiter ends the bytes
    /// representing the string length.
    fn process_end_of_string_length(&mut self) -> (result: Result<usize, Error>)
        ensures
            final(self).length.bytes@ == old(self).length.bytes@,
            final(self).value == old(self).value,
            is_valid_length(old(self).length.bytes@) ==> {
                &&& result == Ok::<usize, Error>(decimal_value(old(self).length.bytes@) as usize)
                &&& final(self).length.number == decimal_value(old(self).length.bytes@)
            },
            !is_valid_length(old(self).length.bytes@) ==> {
                &&& result == Err::<usize, Error>(Error::InvalidStringLength)
                &&& final(self).length.number == old(self).length.number
            },
    {
        self.length.convert_to_number()
    }

    /// The text form of the value bytes.
    fn utf8(&self) -> (result: Vec<u8>)
        ensures
            result@ == string_text(self.value.bytes@),
    {
        self.value.utf8()
    }

    /// The JSON string literal for the value bytes.
    fn json(&self) -> (result: Vec<u8>)
        ensures
            result@ == json_string(self.value.bytes@),
    {
        let mut out: Vec<u8> = Vec::new();
        out.push(JSON_QUOTE);
        let mut text = self.utf8();
        out.append(&mut text);
        out.push(JSON_QUOTE);
        proof {
            assert(out@ =~= json_string(self.value.bytes@));
        }
        out
    }
}

/// It parses a string bencoded value whose lead digit `initial_byte`
/// was already consumed, and writes the JSON string literal for it.
pub fn parse<W: Writer>(reader: &mut ByteReader, writer: &mut W, initial_byte: u8) -> (result:
    Result<(), Error>)
    requires
        old(reader).wf(),
    ensures
        final(reader).wf(),
        final(reader).data() == old(reader).data(),
        ({
            let s = old(reader).data();
            let q0 = old(reader).position();
            match scan_string(s, q0, initial_byte) {
                StringScan::Complete { end, emission } => {
                    &&& result is Ok
                    &&& final(reader).position() == end
                    &&& final(writer).out() == old(writer).out() + emission
                },
                StringScan::Truncated => {
                    &&& result == Err::<(), Error>(Error::UnexpectedEndOfInput)
                    &&& final(reader).position() == s.len()
                    &&& final(writer).out() == old(writer).out()
                },
                StringScan::BadLength { at } => {
                    &&& result == Err::<(), Error>(Error::InvalidStringLength)
                    &&& final(reader).position() == at
                    &&& final(writer).out() == old(writer).out()
                },
            }
        }),
{
    let mut string_parser = StringParser::new();
    string_parser.parse(reader, writer, initial_byte)
}

/// Every byte of the hex encoding is a plain ASCII digit or letter.
pub proof fn lemma_hex_bytes_ascii(s: Seq<u8>)
    ensures
        forall|i: int| 0 <= i < hex_bytes(s).len() ==> hex_bytes(s)[i] < 0x80,
    decreases s.len(),
{
    if s.len() > 0 {
        lemma_hex_bytes_ascii(s.drop_first());
        let pair = seq![hex_digit(s[0] as int / 16), hex_digit(s[0] as int % 16)];
        assert(hex_bytes(s) == pair + hex_bytes(s.drop_first()));
        assert forall|i: int| 0 <= i < hex_bytes(s).len() implies hex_bytes(s)[i] < 0x80 by {
            if i >= 2 {
                assert(hex_bytes(s)[i] == hex_bytes(s.drop_first())[i - 2]);
            }
        }
    }
}

/// A sequence of plain ASCII bytes is valid UTF-8.
pub proof fn lemma_ascii_valid_utf8(bytes: Seq<u8>)
    requires
        forall|i: int| 0 <= i < bytes.len() ==> bytes[i] < 0x80,
    ensures
        valid_utf8(bytes),
    decreases bytes.len(),
{
    if bytes.len() > 0 {
        assert(vstd::utf8::is_leading_byte_width_1(bytes[0]));
        let b0 = bytes[0];
        assert(b0 & 0x7F < 0x80) by (bit_vector);
        assert(vstd::utf8::valid_first_scalar(bytes));
        assert(vstd::utf8::pop_first_scalar(bytes) =~= bytes.subrange(1, bytes.len() as int));
        lemma_ascii_valid_utf8(bytes.subrange(1, bytes.len() as int));
    }
}

/// Law: a string value whose bytes are valid UTF-8 is emitted
/// verbatim: the JSON string literal is exactly the original bytes
/// between quotes.
pub proof fn lemma_valid_utf8_emitted_verbatim(bytes: Seq<u8>)
    requires
        valid_utf8(bytes),
    ensures
        json_string(bytes) == seq![JSON_QUOTE] + bytes + seq![JSON_QUOTE],
{
}

/// Law: a string value whose bytes are not valid UTF-8 is emitted as
/// the hex placeholder between quotes, and the placeholder is plain
/// ASCII, hence itself valid UTF-8 whatever the input bytes were.
pub proof fn lemma_non_utf8_emitted_as_hex(bytes: Seq<u8>)
    requires
        !valid_utf8(bytes),
    ensures
        json_string(bytes) == seq![JSON_QUOTE] + hex_placeholder(bytes) + seq![JSON_QUOTE],
        forall|i: int| 0 <= i < hex_placeholder(bytes).len() ==> hex_placeholder(bytes)[i] < 0x80,
        valid_utf8(hex_placeholder(bytes)),
{
    lemma_hex_bytes_ascii(bytes);
    assert(forall|i: int|
        0 <= i < hex_placeholder(bytes).len() ==> hex_placeholder(bytes)[i] < 0x80);
    lemma_ascii_valid_utf8(hex_placeholder(bytes));
}

} // verus!
