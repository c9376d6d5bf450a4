//! Boundary behaviors, error conditions, and the smaller components.

use torrust_bencode2json::byte_reader::ByteReader;
use torrust_bencode2json::io::byte_writer::ByteWriter;
use torrust_bencode2json::io::char_writer::CharWriter;
use torrust_bencode2json::io::string_writer::StringWriter;
use torrust_bencode2json::io::writer::Writer;
use torrust_bencode2json::parsers::{integer, string, BencodeParser};
use torrust_bencode2json::Error;

fn transcode(bytes: &[u8]) -> Result<Vec<u8>, Error> {
    let mut parser = BencodeParser::new(bytes.to_vec());
    let mut writer = ByteWriter::new();
    parser.write_bytes(&mut writer)?;
    Ok(writer.get_captured_output().expect("capturing output is enabled"))
}

fn to_json(bytes: &[u8]) -> String {
    String::from_utf8(transcode(bytes).expect("Bencode to JSON conversion failed"))
        .expect("output is valid UTF-8")
}

#[test]
fn nested_dictionary() {
    assert_eq!(to_json(b"d3:food3:bari42eee"), r#"{"foo":{"bar":42}}"#);
}

#[test]
fn dictionary_nested_in_list() {
    assert_eq!(to_json(b"ld3:fooi42eee"), r#"[{"foo":42}]"#);
}

#[test]
fn deeply_nested_empty_containers() {
    assert_eq!(to_json(b"llldeeee"), "[[[{}]]]");
}

#[test]
fn leading_zero_integer_is_copied_as_is() {
    // The lineage accepts encodings with a leading zero and streams
    // the digits through unchanged.
    assert_eq!(to_json(b"i03e"), "03");
}

#[test]
fn trailing_unclosed_container_is_not_an_error() {
    // End of input at a lead-byte boundary is normal termination,
    // even inside an open container.
    assert_eq!(to_json(b"l"), "[");
    assert_eq!(to_json(b"li42e"), "[42");
}

#[test]
fn empty_input_gives_empty_output() {
    assert_eq!(to_json(b""), "");
}

#[test]
fn two_top_level_values_are_both_emitted() {
    assert_eq!(to_json(b"i1ei2e"), "12");
}

#[test]
fn error_end_of_input_inside_integer() {
    assert_eq!(transcode(b"i42"), Err(Error::UnexpectedEndOfInput));
}

#[test]
fn error_end_of_input_inside_string_length() {
    assert_eq!(transcode(b"4"), Err(Error::UnexpectedEndOfInput));
}

#[test]
fn error_end_of_input_inside_string_value() {
    assert_eq!(transcode(b"4:sp"), Err(Error::UnexpectedEndOfInput));
}

#[test]
fn error_invalid_integer_byte() {
    assert_eq!(transcode(b"i4x2e"), Err(Error::InvalidInteger));
}

#[test]
fn error_integer_with_no_digits() {
    assert_eq!(transcode(b"ie"), Err(Error::InvalidInteger));
}

#[test]
fn error_minus_alone_is_not_an_integer() {
    assert_eq!(transcode(b"i-e"), Err(Error::InvalidInteger));
}

#[test]
fn error_non_digit_in_string_length() {
    assert_eq!(transcode(b"1a:x"), Err(Error::InvalidStringLength));
}

#[test]
fn error_string_length_over_usize_max() {
    assert_eq!(
        transcode(b"99999999999999999999999:x"),
        Err(Error::InvalidStringLength)
    );
}

#[test]
fn error_end_with_no_open_container() {
    assert_eq!(transcode(b"e"), Err(Error::UnexpectedEndOfContainer));
}

#[test]
fn error_end_in_place_of_dictionary_value() {
    assert_eq!(transcode(b"d3:fooe"), Err(Error::UnexpectedEndOfContainer));
}

#[test]
fn error_unrecognized_lead_byte() {
    assert_eq!(transcode(b"x"), Err(Error::UnexpectedLeadByte));
}

#[test]
fn transcode_is_deterministic() {
    let input = b"d3:bar4:spam3:fooli1ei2eee";
    assert_eq!(transcode(input), transcode(input));
}

#[test]
fn partial_output_is_kept_up_to_the_error() {
    let mut parser = BencodeParser::new(b"li42ex".to_vec());
    let mut writer = ByteWriter::new();
    assert_eq!(parser.write_bytes(&mut writer), Err(Error::UnexpectedLeadByte));
    let output = writer.get_captured_output().unwrap();
    assert_eq!(output, b"[42".to_vec());
}

#[test]
fn byte_reader_hands_out_bytes_and_counts_them() {
    let mut reader = ByteReader::new(vec![10, 20]);
    assert_eq!(reader.input_byte_counter, 0);
    assert_eq!(reader.read_byte(), Some(10));
    assert_eq!(reader.read_byte(), Some(20));
    assert_eq!(reader.read_byte(), None);
    assert_eq!(reader.input_byte_counter, 2);
}

#[test]
fn byte_writer_counts_written_bytes() {
    let mut writer = ByteWriter::new();
    writer.write_byte(91);
    writer.write_str(&vec![52, 50]);
    writer.write_byte(93);
    assert_eq!(writer.output_byte_counter, 4);
    assert_eq!(writer.get_captured_output().unwrap(), b"[42]".to_vec());
}

#[test]
fn string_writer_counts_written_bytes() {
    let mut writer = StringWriter::new();
    writer.write_str(&b"ab".to_vec());
    writer.write_byte(99);
    assert_eq!(writer.output_string_length, 3);
    assert_eq!(writer.get_captured_output().unwrap(), b"abc".to_vec());
}

#[test]
fn char_writer_encodes_characters_as_utf8() {
    let mut writer = CharWriter::new();
    writer.write_char('a');
    writer.write_char('é');
    writer.write_char('€');
    writer.write_char('𝄞');
    assert_eq!(writer.output_char_counter, 4);
    let output = writer.get_captured_output().unwrap();
    assert_eq!(output, "aé€𝄞".as_bytes().to_vec());
}

#[test]
fn char_writer_write_str_appends_bytes() {
    let mut writer = CharWriter::new();
    writer.write_char('x');
    writer.write_str(&b"yz".to_vec());
    let output = writer.get_captured_output().unwrap();
    assert_eq!(output, b"xyz".to_vec());
}

#[test]
fn integer_parser_streams_digits() {
    let mut reader = ByteReader::new(b"-42e".to_vec());
    let mut writer = ByteWriter::new();
    assert_eq!(integer::parse(&mut reader, &mut writer), Ok(()));
    assert_eq!(writer.get_captured_output().unwrap(), b"-42".to_vec());
    assert_eq!(reader.read_byte(), None);
}

#[test]
fn integer_parser_rejects_sign_after_digit() {
    let mut reader = ByteReader::new(b"4-2e".to_vec());
    let mut writer = ByteWriter::new();
    assert_eq!(
        integer::parse(&mut reader, &mut writer),
        Err(Error::InvalidInteger)
    );
}

#[test]
fn string_parser_emits_quoted_utf8() {
    // The lead digit `4` was already consumed by the dispatcher.
    let mut reader = ByteReader::new(b":spam".to_vec());
    let mut writer = ByteWriter::new();
    assert_eq!(string::parse(&mut reader, &mut writer, 52), Ok(()));
    assert_eq!(writer.get_captured_output().unwrap(), b"\"spam\"".to_vec());
}

#[test]
fn string_parser_emits_hex_placeholder() {
    let mut reader = ByteReader::new(b":\x00\xFF".to_vec());
    let mut writer = ByteWriter::new();
    assert_eq!(string::parse(&mut reader, &mut writer, 50), Ok(()));
    assert_eq!(
        writer.get_captured_output().unwrap(),
        b"\"<hex>00ff</hex>\"".to_vec()
    );
}

#[test]
fn opt_captured_output_returns_the_writer_capture() {
    let mut parser = BencodeParser::new(b"le".to_vec());
    let mut writer = ByteWriter::new();
    parser.write_bytes(&mut writer).unwrap();
    let captured = parser.opt_captured_output(&writer);
    assert_eq!(captured, Some(b"[]".to_vec()));
}

#[test]
fn begin_and_end_bencoded_value_track_list_delimiters() {
    let mut parser = BencodeParser::new(Vec::new());
    let mut writer = ByteWriter::new();
    // At top level nothing is owed before a value.
    parser.begin_bencoded_value(&mut writer);
    assert_eq!(writer.get_captured_output().unwrap(), Vec::<u8>::new());
    // With no open container an end byte is rejected.
    assert_eq!(
        parser.end_bencoded_value(&mut writer),
        Err(Error::UnexpectedEndOfContainer)
    );
}
