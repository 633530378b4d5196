use wet_codec::adaptor::{Adaptor, IniAdaptor};
use wet_codec::common::{deserialize, serialize, FileFormat};
use wet_codec::error::{CodecError, ConvertError};
use wet_codec::ini::decimal::read_decimal;
use wet_codec::ini::reader::read_document;
use wet_codec::ini::scalar::{read_number, read_scalar};
use wet_codec::ini::writer::write_document;
use wet_codec::value::{WetNumber, WetValue};

fn text(s: &str) -> WetValue {
    WetValue::Text(s.to_string())
}

fn unsigned(n: u64) -> WetValue {
    WetValue::Number(WetNumber::PosInt(n))
}

fn signed(n: i64) -> WetValue {
    WetValue::Number(WetNumber::NegInt(n))
}

fn object(entries: Vec<(&str, WetValue)>) -> WetValue {
    WetValue::Object(entries.into_iter().map(|(k, v)| (k.to_string(), v)).collect())
}

fn refused(value: WetValue) {
    assert_eq!(
        serialize(value, &FileFormat::Ini),
        Err(ConvertError::Codec(CodecError::Unrepresentable))
    );
}

fn malformed(input: &str) {
    assert_eq!(
        deserialize(input.as_bytes(), &FileFormat::Ini),
        Err(ConvertError::Codec(CodecError::Malformed)),
        "{:?}",
        input
    );
}

fn read(input: &str) -> WetValue {
    deserialize(input.as_bytes(), &FileFormat::Ini).unwrap()
}

fn sample() -> WetValue {
    object(vec![
        ("name", text("disk image")),
        ("count", unsigned(12)),
        ("offset", signed(-5)),
        ("bootable", WetValue::Bool(true)),
        ("hidden", WetValue::Bool(false)),
        ("label", WetValue::Null),
        ("empty", text("")),
        ("grub", object(vec![("timeout", unsigned(5)), ("default", text("linux"))])),
        ("none", object(vec![])),
        ("paths", object(vec![("root", text("/dev/sda1 = first")), ("", text("x"))])),
    ])
}

const SAMPLE_TEXT: &str = "name=disk image\ncount=12\noffset=-5\nbootable=true\nhidden=false\n\
label=null\nempty=\n[grub]\ntimeout=5\ndefault=linux\n[none]\n[paths]\nroot=/dev/sda1 = first\n=x\n";

#[test]
fn ini_text_of_a_document() {
    assert_eq!(serialize(sample(), &FileFormat::Ini).unwrap(), SAMPLE_TEXT);
}

#[test]
fn ini_document_of_a_text() {
    assert_eq!(read(SAMPLE_TEXT), sample());
}

#[test]
fn ini_round_trip() {
    let written = serialize(sample(), &FileFormat::Ini).unwrap();
    assert_eq!(deserialize(written.as_bytes(), &FileFormat::Ini).unwrap(), sample());
}

#[test]
fn ini_serializing_again_gives_the_same_text() {
    let first = serialize(sample(), &FileFormat::Ini).unwrap();
    let back = deserialize(first.as_bytes(), &FileFormat::Ini).unwrap();
    assert_eq!(serialize(back, &FileFormat::Ini).unwrap(), first);
}

#[test]
fn ini_empty_document() {
    assert_eq!(serialize(object(vec![]), &FileFormat::Ini).unwrap(), "");
    assert_eq!(read(""), object(vec![]));
}

#[test]
fn ini_limitation_scenario() {
    refused(object(vec![("disks", WetValue::Array(vec![object(vec![("a", unsigned(1))])]))]));
}

#[test]
fn ini_refuses_what_is_no_mapping() {
    refused(WetValue::Null);
    refused(WetValue::Bool(true));
    refused(unsigned(1));
    refused(text("a=b"));
    refused(WetValue::Array(vec![]));
}

#[test]
fn ini_refuses_sequences_and_deep_mappings() {
    refused(object(vec![("a", WetValue::Array(vec![]))]));
    refused(object(vec![("a", WetValue::Array(vec![unsigned(1), text("x")]))]));
    refused(object(vec![("s", object(vec![("t", object(vec![]))]))]));
    refused(object(vec![("s", object(vec![("t", WetValue::Array(vec![]))]))]));
}

#[test]
fn ini_refuses_a_scalar_after_a_section() {
    refused(object(vec![("s", object(vec![])), ("a", unsigned(1))]));
    refused(object(vec![("a", unsigned(1)), ("s", object(vec![])), ("b", unsigned(1))]));
}

#[test]
fn ini_refuses_keys_that_would_not_read_back() {
    refused(object(vec![("a=b", unsigned(1))]));
    refused(object(vec![("a\nb", unsigned(1))]));
    refused(object(vec![("[a", unsigned(1))]));
    refused(object(vec![(";a", unsigned(1))]));
    refused(object(vec![("#a", unsigned(1))]));
    refused(object(vec![("s\n", object(vec![]))]));
    refused(object(vec![("s", object(vec![("k=", unsigned(1))]))]));
    refused(object(vec![("s", object(vec![("[k", unsigned(1))]))]));
}

#[test]
fn ini_accepts_keys_with_other_marks() {
    let value = object(vec![
        ("a[0]", unsigned(1)),
        ("a;b", unsigned(2)),
        (" spaced ", text(" padded ")),
        ("s=t", object(vec![("k#", text("[v]"))])),
        ("[x]", object(vec![])),
    ]);
    let written = serialize(value.clone(), &FileFormat::Ini).unwrap();
    assert_eq!(written, "a[0]=1\na;b=2\n spaced = padded \n[s=t]\nk#=[v]\n[[x]]\n");
    assert_eq!(read(&written), value);
}

#[test]
fn ini_refuses_text_that_would_read_back_as_something_else() {
    refused(object(vec![("a", text("true"))]));
    refused(object(vec![("a", text("false"))]));
    refused(object(vec![("a", text("null"))]));
    refused(object(vec![("a", text("12"))]));
    refused(object(vec![("a", text("-12"))]));
    refused(object(vec![("a", text("0"))]));
    refused(object(vec![("a", text("two\nlines"))]));
    refused(object(vec![("s", object(vec![("a", text("7"))]))]));
}

#[test]
fn ini_writes_text_that_only_looks_like_a_number() {
    let value = object(vec![
        ("a", text("007")),
        ("b", text("-0")),
        ("c", text("1.5")),
        ("d", text("18446744073709551616")),
        ("e", text("-9223372036854775809")),
        ("f", text("True")),
        ("g", text("-")),
        ("h", text("+1")),
        ("i", text("1 ")),
    ]);
    let written = serialize(value.clone(), &FileFormat::Ini).unwrap();
    assert_eq!(
        written,
        "a=007\nb=-0\nc=1.5\nd=18446744073709551616\ne=-9223372036854775809\nf=True\ng=-\nh=+1\ni=1 \n"
    );
    assert_eq!(read(&written), value);
}

#[test]
fn ini_refuses_numbers_that_are_no_integers() {
    let real = serde_json::Number::from_f64(1.5).unwrap();
    refused(object(vec![("a", WetValue::Number(WetNumber::Float(real)))]));
}

#[test]
fn ini_writes_integers_however_they_are_held() {
    let value = object(vec![
        ("a", WetValue::Number(WetNumber::Float(serde_json::Number::from(3u64)))),
        ("b", WetValue::Number(WetNumber::Float(serde_json::Number::from(-3i64)))),
        ("c", signed(3)),
        ("d", signed(0)),
    ]);
    assert_eq!(serialize(value, &FileFormat::Ini).unwrap(), "a=3\nb=-3\nc=3\nd=0\n");
}

#[test]
fn ini_largest_and_smallest_integers() {
    let value = object(vec![
        ("max", unsigned(u64::MAX)),
        ("min", signed(i64::MIN)),
        ("zero", unsigned(0)),
        ("ten", unsigned(10)),
        ("minus_one", signed(-1)),
    ]);
    let written = serialize(value.clone(), &FileFormat::Ini).unwrap();
    assert_eq!(
        written,
        "max=18446744073709551615\nmin=-9223372036854775808\nzero=0\nten=10\nminus_one=-1\n"
    );
    assert_eq!(read(&written), value);
}

#[test]
fn ini_refuses_a_key_twice() {
    refused(object(vec![("a", unsigned(1)), ("a", unsigned(2))]));
    refused(object(vec![("a", unsigned(1)), ("a", object(vec![]))]));
    refused(object(vec![("s", object(vec![])), ("s", object(vec![]))]));
    refused(object(vec![("s", object(vec![("k", unsigned(1)), ("k", unsigned(1))]))]));
}

#[test]
fn ini_same_key_in_two_sections_is_fine() {
    let value = object(vec![
        ("k", unsigned(0)),
        ("s", object(vec![("k", unsigned(1))])),
        ("t", object(vec![("k", unsigned(2))])),
    ]);
    let written = serialize(value.clone(), &FileFormat::Ini).unwrap();
    assert_eq!(written, "k=0\n[s]\nk=1\n[t]\nk=2\n");
    assert_eq!(read(&written), value);
}

#[test]
fn ini_skips_blank_lines_and_comments() {
    let input = "\n; a comment\n# another = one\na=1\n\n[s]\n;k=0\nk=v\n\n";
    assert_eq!(read(input), object(vec![("a", unsigned(1)), ("s", object(vec![("k", text("v"))]))]));
}

#[test]
fn ini_reading_then_writing_keeps_the_lines() {
    let input = "\n; a comment\na=1\n\n[s]\n#x\nk=v";
    let value = read(input);
    assert_eq!(serialize(value, &FileFormat::Ini).unwrap(), "a=1\n[s]\nk=v\n");
}

#[test]
fn ini_last_line_needs_no_line_break() {
    assert_eq!(read("a=1"), object(vec![("a", unsigned(1))]));
    assert_eq!(read("a=1\n[s]"), object(vec![("a", unsigned(1)), ("s", object(vec![]))]));
}

#[test]
fn ini_value_runs_to_the_end_of_the_line() {
    assert_eq!(read("a=b=c\n"), object(vec![("a", text("b=c"))]));
    assert_eq!(read("a= 1\n"), object(vec![("a", text(" 1"))]));
    assert_eq!(read("a=1\r\n"), object(vec![("a", text("1\r"))]));
    assert_eq!(read("a=\n"), object(vec![("a", text(""))]));
    assert_eq!(read("=\n"), object(vec![("", text(""))]));
    assert_eq!(read("a=h\u{e9}llo \u{1f600}\n"), object(vec![("a", text("h\u{e9}llo \u{1f600}"))]));
}

#[test]
fn ini_section_name_is_all_between_the_brackets() {
    assert_eq!(read("[a]b]\n"), object(vec![("a]b", object(vec![]))]));
    assert_eq!(read("[]\n"), object(vec![("", object(vec![]))]));
    assert_eq!(read("[ s ]\nk=1"), object(vec![(" s ", object(vec![("k", unsigned(1))]))]));
}

#[test]
fn ini_malformed_text_is_an_error() {
    malformed("just words\n");
    malformed("a=1\nno separator\n");
    malformed("[open\n");
    malformed("[\n");
    malformed("[s] trailing\n");
    malformed(" [s]\n");
    malformed("a=1\n ; indented comment\n");
}

#[test]
fn ini_text_with_a_key_twice_is_an_error() {
    malformed("a=1\na=2\n");
    malformed("[s]\nk=1\nk=2\n");
    malformed("[s]\n[s]\n");
    malformed("a=1\n[a]\n");
    malformed("[s]\n[t]\n[s]\n");
}

#[test]
fn ini_bytes_that_are_not_utf8_are_an_error() {
    assert_eq!(
        deserialize(&[b'a', b'=', 0xff, b'\n'], &FileFormat::Ini),
        Err(ConvertError::Codec(CodecError::Encoding))
    );
    assert_eq!(
        deserialize(&[0xc3], &FileFormat::Ini),
        Err(ConvertError::Codec(CodecError::Encoding))
    );
}

#[test]
fn ini_adaptor_appends_to_the_sink() {
    let adaptor = IniAdaptor::new();
    let mut sink = b"; head\n".to_vec();
    assert_eq!(adaptor.serialize(object(vec![("a", text("\u{e9}"))]), &mut sink), Ok(()));
    assert_eq!(sink, "; head\na=\u{e9}\n".as_bytes().to_vec());
    assert_eq!(adaptor.deserialize(&sink), Ok(object(vec![("a", text("\u{e9}"))])));
}

#[test]
fn ini_adaptor_leaves_the_sink_on_error() {
    let adaptor = IniAdaptor::new();
    let mut sink = b"head".to_vec();
    let value = object(vec![("a", unsigned(1)), ("b", WetValue::Array(vec![]))]);
    assert_eq!(
        adaptor.serialize(value, &mut sink),
        Err(ConvertError::Codec(CodecError::Unrepresentable))
    );
    assert_eq!(sink, b"head".to_vec());
}

#[test]
fn json_to_ini_and_back() {
    let from_json = deserialize(
        b"{\"host\":\"example\",\"port\":8080,\"tls\":{\"enabled\":true,\"cert\":null}}",
        &FileFormat::Json,
    )
    .unwrap();
    let ini = serialize(from_json.clone(), &FileFormat::Ini).unwrap();
    assert_eq!(ini, "host=example\nport=8080\n[tls]\nenabled=true\ncert=null\n");
    let back = deserialize(ini.as_bytes(), &FileFormat::Ini).unwrap();
    assert_eq!(back, from_json);
    assert_eq!(
        serialize(back, &FileFormat::Json).unwrap(),
        "{\"host\":\"example\",\"port\":8080,\"tls\":{\"enabled\":true,\"cert\":null}}"
    );
}

#[test]
fn decimal_reader() {
    let chars: Vec<char> = "x1234y".chars().collect();
    assert_eq!(read_decimal(&chars, 1, 5), Some(1234));
    assert_eq!(read_decimal(&chars, 1, 2), Some(1));
    assert_eq!(read_decimal(&chars, 1, 1), None);
    assert_eq!(read_decimal(&chars, 0, 3), None);
    assert_eq!(read_decimal(&chars, 3, 6), None);
    let zeros: Vec<char> = "00".chars().collect();
    assert_eq!(read_decimal(&zeros, 0, 1), Some(0));
    assert_eq!(read_decimal(&zeros, 0, 2), None);
    let max: Vec<char> = "18446744073709551615".chars().collect();
    assert_eq!(read_decimal(&max, 0, max.len()), Some(u64::MAX));
    let over: Vec<char> = "18446744073709551616".chars().collect();
    assert_eq!(read_decimal(&over, 0, over.len()), None);
    let long: Vec<char> = "99999999999999999999999".chars().collect();
    assert_eq!(read_decimal(&long, 0, long.len()), None);
}

#[test]
fn number_reader() {
    let of = |s: &str| {
        let chars: Vec<char> = s.chars().collect();
        read_number(&chars, 0, chars.len())
    };
    assert_eq!(of("0"), Some(WetNumber::PosInt(0)));
    assert_eq!(of("42"), Some(WetNumber::PosInt(42)));
    assert_eq!(of("-42"), Some(WetNumber::NegInt(-42)));
    assert_eq!(of("-9223372036854775808"), Some(WetNumber::NegInt(i64::MIN)));
    assert_eq!(of("-9223372036854775807"), Some(WetNumber::NegInt(-i64::MAX)));
    assert_eq!(of("-9223372036854775809"), None);
    assert_eq!(of("9223372036854775808"), Some(WetNumber::PosInt(9223372036854775808)));
    assert_eq!(of("-0"), None);
    assert_eq!(of("-"), None);
    assert_eq!(of(""), None);
    assert_eq!(of("--1"), None);
    assert_eq!(of("-01"), None);
    assert_eq!(of("1-"), None);
    assert_eq!(of("\u{663}"), None);
}

#[test]
fn scalar_reader() {
    let of = |s: &str| {
        let chars: Vec<char> = s.chars().collect();
        read_scalar(&chars, 0, chars.len())
    };
    assert_eq!(of("null"), WetValue::Null);
    assert_eq!(of("true"), WetValue::Bool(true));
    assert_eq!(of("false"), WetValue::Bool(false));
    assert_eq!(of("17"), unsigned(17));
    assert_eq!(of("-17"), signed(-17));
    assert_eq!(of("nul"), text("nul"));
    assert_eq!(of("nulls"), text("nulls"));
    assert_eq!(of("TRUE"), text("TRUE"));
    assert_eq!(of(""), text(""));
    assert_eq!(of("a b"), text("a b"));
}

#[test]
fn document_writer_and_reader() {
    let value = object(vec![("a", unsigned(1)), ("s", object(vec![("k", text("v"))]))]);
    assert_eq!(write_document(&value), Some("a=1\n[s]\nk=v\n".to_string()));
    assert_eq!(write_document(&WetValue::Null), None);
    let chars: Vec<char> = "a=1\n[s]\nk=v\n".chars().collect();
    assert_eq!(read_document(&chars), Some(value));
    let bad: Vec<char> = "a\n".chars().collect();
    assert_eq!(read_document(&bad), None);
}
