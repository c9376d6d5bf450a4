//! Transcoding through the writer abstractions: bytes out, text out.

use torrust_bencode2json::io::byte_writer::ByteWriter;
use torrust_bencode2json::parsers::stack::{Stack, State};
use torrust_bencode2json::io::string_writer::StringWriter;
use torrust_bencode2json::io::writer::Writer;
use torrust_bencode2json::parsers::BencodeParser;

fn to_json(input_buffer: &[u8]) -> String {
    let mut parser = BencodeParser::new(input_buffer.to_vec());
    let mut writer = StringWriter::new();

    parser
        .write_str(&mut writer)
        .expect("Bencode to JSON conversion failed");

    let output = writer
        .get_captured_output()
        .expect("capturing output is enabled");

    String::from_utf8(output).expect("captured output is not a UTF-8 string")
}

#[test]
fn it_should_allow_writing_to_a_byte_vector() {
    let mut writer = ByteWriter::new();

    let mut parser = BencodeParser::new(b"i0e".to_vec());

    parser
        .write_bytes(&mut writer)
        .expect("Bencode to JSON conversion failed");

    let output = writer
        .get_captured_output()
        .expect("capturing output is enabled");

    assert_eq!(output, vec![48]);
}

#[test]
fn it_should_allow_writing_to_a_string() {
    let mut writer = StringWriter::new();

    let mut parser = BencodeParser::new(b"i0e".to_vec());

    parser
        .write_str(&mut writer)
        .expect("Bencode to JSON conversion failed");

    let output = writer
        .get_captured_output()
        .expect("capturing output is enabled");

    assert_eq!(String::from_utf8(output).unwrap(), "0".to_string());
}

#[test]
fn mod_zero() {
    assert_eq!(to_json(b"i0e"), "0".to_string());
}

#[test]
fn mod_one_digit_integer() {
    assert_eq!(to_json(b"i1e"), "1".to_string());
}

#[test]
fn mod_two_digits_integer() {
    assert_eq!(to_json(b"i42e"), "42".to_string());
}

#[test]
fn mod_negative_integer() {
    assert_eq!(to_json(b"i-1e"), "-1".to_string());
}

#[test]
fn mod_empty_string() {
    assert_eq!(to_json(b"0:"), r#""""#.to_string());
}

#[test]
fn mod_utf8() {
    assert_eq!(to_json(b"4:spam"), r#""spam""#.to_string());
}

#[test]
fn mod_non_utf8() {
    assert_eq!(
        to_json(b"4:\xFF\xFE\xFD\xFC"),
        r#""<hex>fffefdfc</hex>""#.to_string()
    );
}

#[test]
fn mod_ending_with_bencode_end_char() {
    assert_eq!(to_json(b"1:e"), r#""e""#.to_string());
}

#[test]
fn mod_containing_a_reserved_char() {
    assert_eq!(to_json(b"1:i"), r#""i""#.to_string());
    assert_eq!(to_json(b"1:l"), r#""l""#.to_string());
    assert_eq!(to_json(b"1:d"), r#""d""#.to_string());
    assert_eq!(to_json(b"1:l"), r#""l""#.to_string());
    assert_eq!(to_json(b"1:e"), r#""e""#.to_string());
}

#[test]
fn mod_containing_a_digit() {
    assert_eq!(to_json(b"1:0"), r#""0""#.to_string());
    assert_eq!(to_json(b"1:1"), r#""1""#.to_string());
    assert_eq!(to_json(b"1:2"), r#""2""#.to_string());
    assert_eq!(to_json(b"1:3"), r#""3""#.to_string());
    assert_eq!(to_json(b"1:4"), r#""4""#.to_string());
    assert_eq!(to_json(b"1:5"), r#""5""#.to_string());
    assert_eq!(to_json(b"1:6"), r#""6""#.to_string());
    assert_eq!(to_json(b"1:7"), r#""7""#.to_string());
    assert_eq!(to_json(b"1:8"), r#""8""#.to_string());
    assert_eq!(to_json(b"1:9"), r#""9""#.to_string());
}

#[test]
fn mod_empty_list() {
    assert_eq!(to_json(b"le"), "[]".to_string());
}

#[test]
fn mod_integer() {
    assert_eq!(to_json(b"li42ee"), "[42]".to_string());
}

#[test]
fn mod_utf8_string() {
    assert_eq!(to_json(b"l4:spame"), r#"["spam"]"#.to_string());
}

#[test]
fn mod_non_utf8_string() {
    assert_eq!(
        to_json(b"l4:\xFF\xFE\xFD\xFCe"),
        r#"["<hex>fffefdfc</hex>"]"#.to_string()
    );
}

#[test]
fn mod_two_nested_empty_list() {
    assert_eq!(to_json(b"llee"), "[[]]".to_string());
}

#[test]
fn mod_three_nested_empty_lists() {
    assert_eq!(to_json(b"llleee"), "[[[]]]".to_string());
}

#[test]
fn mod_one_nested_list_which_contains_one_integer() {
    assert_eq!(to_json(b"lli42eee"), "[[42]]".to_string());
}

#[test]
fn mod_one_nested_list_which_contains_two_integers() {
    assert_eq!(to_json(b"lli42ei43eee"), "[[42,43]]".to_string());
}

#[test]
fn mod_one_nested_list_which_contains_one_utf_8_string() {
    assert_eq!(to_json(b"ll4:spamee"), r#"[["spam"]]"#.to_string());
}

#[test]
fn mod_one_nested_list_which_contains_two_utf_8_strings() {
    assert_eq!(
        to_json(b"ll5:alice3:bobee"),
        r#"[["alice","bob"]]"#.to_string()
    );
}

#[test]
fn mod_two_integers() {
    assert_eq!(to_json(b"li42ei43ee"), "[42,43]".to_string());
}

#[test]
fn mod_two_utf8_strings() {
    assert_eq!(to_json(b"l5:alice3:bobe"), r#"["alice","bob"]"#.to_string());
}

#[test]
fn mod_two_non_utf8_strings() {
    assert_eq!(
        to_json(b"l2:\xFF\xFE2:\xFD\xFCe"),
        r#"["<hex>fffe</hex>","<hex>fdfc</hex>"]"#.to_string()
    );
}

#[test]
fn mod_integer_and_utf8_string() {
    assert_eq!(to_json(b"li42e5:alicee"), r#"[42,"alice"]"#.to_string());
}

#[test]
fn mod_integer_and_non_utf8_string() {
    assert_eq!(
        to_json(b"li42e2:\xFF\xFEe"),
        r#"[42,"<hex>fffe</hex>"]"#.to_string()
    );
}

#[test]
fn mod_utf8_string_and_integer() {
    assert_eq!(to_json(b"l5:alicei42ee"), r#"["alice",42]"#.to_string());
}

#[test]
fn mod_non_utf8_string_and_an_integer() {
    assert_eq!(
        to_json(b"l2:\xFF\xFEi42ee"),
        r#"["<hex>fffe</hex>",42]"#.to_string()
    );
}

#[test]
fn mod_second_item_empty_list() {
    assert_eq!(to_json(b"li42elee"), "[42,[]]".to_string());
}

#[test]
fn mod_empty_dictionary() {
    assert_eq!(to_json(b"de"), "{}".to_string());
}

#[test]
fn mod_with_a_key_starting_with_a_digit() {
    assert_eq!(to_json(b"d4:1fooi42ee"), r#"{"1foo":42}"#.to_string());
}

#[test]
fn mod_with_a_key_with_a_non_urf_string() {
    assert_eq!(
        to_json(b"d2:\xFF\xFEi42ee"),
        r#"{"<hex>fffe</hex>":42}"#.to_string()
    );
}

#[test]
fn mod_integer_value_in_dictionary() {
    assert_eq!(to_json(b"d3:fooi42ee"), r#"{"foo":42}"#.to_string());
}

#[test]
fn mod_utf8_string_value_in_dictionary() {
    assert_eq!(to_json(b"d3:bar4:spame"), r#"{"bar":"spam"}"#.to_string());
}

#[test]
fn mod_non_utf8_string_value_in_dictionary() {
    assert_eq!(
        to_json(b"d3:bar2:\xFF\xFEe"),
        r#"{"bar":"<hex>fffe</hex>"}"#.to_string()
    );
}

#[test]
fn mod_two_integer_values_in_dictionary() {
    assert_eq!(
        to_json(b"d3:bari42e3:fooi43ee"),
        r#"{"bar":42,"foo":43}"#.to_string()
    );
}

#[test]
fn mod_two_utf8_string_values_in_dictionary() {
    assert_eq!(
        to_json(b"d3:bar4:spam3:foo5:alicee"),
        r#"{"bar":"spam","foo":"alice"}"#.to_string()
    );
}

#[test]
fn stack_have_an_initial_state() {
    assert_eq!(Stack::default().peek(), State::Initial);
}
