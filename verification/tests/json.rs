use wet_codec::adaptor::{Adaptor, JsonAdaptor};
use wet_codec::common::{deserialize, serialize, FileFormat};
use wet_codec::error::{CodecError, ConvertError};
use wet_codec::json::{from_json, number_of, to_json};
use wet_codec::value::{WetNumber, WetValue};

fn text(s: &str) -> WetValue {
    WetValue::Text(s.to_string())
}

fn unsigned(n: u64) -> WetValue {
    WetValue::Number(WetNumber::PosInt(n))
}

fn object(entries: Vec<(&str, WetValue)>) -> WetValue {
    WetValue::Object(entries.into_iter().map(|(k, v)| (k.to_string(), v)).collect())
}

fn scenario_value() -> WetValue {
    object(vec![
        ("a", unsigned(1)),
        ("b", WetValue::Array(vec![WetValue::Bool(true), WetValue::Null])),
    ])
}

fn rich_value() -> WetValue {
    object(vec![
        ("zeta", text("line\nbreak \"quoted\" \\ tab\t")),
        ("alpha", WetValue::Number(WetNumber::NegInt(-42))),
        ("big", unsigned(u64::MAX)),
        ("small", WetValue::Number(WetNumber::NegInt(i64::MIN))),
        ("ratio", WetValue::Number(WetNumber::Float(serde_json::Number::from_f64(1.5).unwrap()))),
        ("unicode", text("h\u{e9}llo \u{4e16}\u{754c} \u{1f600}")),
        ("empty", object(vec![])),
        ("list", WetValue::Array(vec![
            WetValue::Array(vec![]),
            object(vec![("k", WetValue::Bool(false))]),
            WetValue::Null,
        ])),
        ("", text("")),
    ])
}

#[test]
fn json_scenario() {
    let written = serialize(scenario_value(), &FileFormat::Json).unwrap();
    assert_eq!(written, "{\"a\":1,\"b\":[true,null]}");
    let read = deserialize(written.as_bytes(), &FileFormat::Json).unwrap();
    assert_eq!(read, scenario_value());
}

#[test]
fn json_keeps_the_order_of_keys() {
    let value = object(vec![("b", unsigned(1)), ("a", unsigned(2)), ("c", unsigned(3))]);
    let written = serialize(value, &FileFormat::Json).unwrap();
    assert_eq!(written, "{\"b\":1,\"a\":2,\"c\":3}");
    let read = deserialize(b"{\"z\":1,\"a\":2,\"m\":3}", &FileFormat::Json).unwrap();
    assert_eq!(read, object(vec![("z", unsigned(1)), ("a", unsigned(2)), ("m", unsigned(3))]));
}

#[test]
fn json_round_trip() {
    let written = serialize(rich_value(), &FileFormat::Json).unwrap();
    let read = deserialize(written.as_bytes(), &FileFormat::Json).unwrap();
    assert_eq!(read, rich_value());
}

#[test]
fn json_round_trip_of_scalars() {
    for value in [
        WetValue::Null,
        WetValue::Bool(true),
        WetValue::Bool(false),
        unsigned(0),
        WetValue::Number(WetNumber::NegInt(-1)),
        text(""),
        text("true"),
        WetValue::Array(vec![]),
    ] {
        let written = serialize(value.clone(), &FileFormat::Json).unwrap();
        assert_eq!(deserialize(written.as_bytes(), &FileFormat::Json).unwrap(), value);
    }
}

#[test]
fn json_serializing_again_gives_the_same_bytes() {
    let first = serialize(rich_value(), &FileFormat::Json).unwrap();
    let read = deserialize(first.as_bytes(), &FileFormat::Json).unwrap();
    let second = serialize(read, &FileFormat::Json).unwrap();
    assert_eq!(first.as_bytes(), second.as_bytes());
}

#[test]
fn json_exact_texts() {
    assert_eq!(serialize(WetValue::Null, &FileFormat::Json).unwrap(), "null");
    assert_eq!(serialize(WetValue::Bool(false), &FileFormat::Json).unwrap(), "false");
    assert_eq!(serialize(unsigned(u64::MAX), &FileFormat::Json).unwrap(), "18446744073709551615");
    assert_eq!(
        serialize(WetValue::Number(WetNumber::NegInt(i64::MIN)), &FileFormat::Json).unwrap(),
        "-9223372036854775808"
    );
    assert_eq!(serialize(text("a\"b"), &FileFormat::Json).unwrap(), "\"a\\\"b\"");
    assert_eq!(
        serialize(WetValue::Array(vec![unsigned(1), text("x")]), &FileFormat::Json).unwrap(),
        "[1,\"x\"]"
    );
    assert_eq!(serialize(object(vec![]), &FileFormat::Json).unwrap(), "{}");
    let half = WetValue::Number(WetNumber::Float(serde_json::Number::from_f64(0.5).unwrap()));
    assert_eq!(serialize(half, &FileFormat::Json).unwrap(), "0.5");
}

#[test]
fn json_integer_held_as_signed_is_written_as_that_integer() {
    assert_eq!(
        serialize(WetValue::Number(WetNumber::NegInt(7)), &FileFormat::Json).unwrap(),
        "7"
    );
    let held = WetValue::Number(WetNumber::Float(serde_json::Number::from(3u64)));
    assert_eq!(serialize(held, &FileFormat::Json).unwrap(), "3");
}

#[test]
fn json_numbers_are_read_as_integers_where_they_are() {
    let read = |s: &str| deserialize(s.as_bytes(), &FileFormat::Json).unwrap();
    assert_eq!(read("5"), unsigned(5));
    assert_eq!(read("0"), unsigned(0));
    assert_eq!(read("-5"), WetValue::Number(WetNumber::NegInt(-5)));
    assert_eq!(read("18446744073709551615"), unsigned(u64::MAX));
    assert_eq!(read("-9223372036854775808"), WetValue::Number(WetNumber::NegInt(i64::MIN)));
    assert_eq!(
        read("1.5"),
        WetValue::Number(WetNumber::Float(serde_json::Number::from_f64(1.5).unwrap()))
    );
    assert_eq!(
        read("1e2"),
        WetValue::Number(WetNumber::Float(serde_json::Number::from_f64(100.0).unwrap()))
    );
}

#[test]
fn json_malformed_text_is_an_error() {
    for bad in [
        "{\"a\": 1",
        "{\"a\" 1}",
        "[1,]",
        "[1, 2",
        "{} x",
        "",
        "   ",
        "nul",
        "\"open",
        "{\"a\":}",
        "01",
        "{'a': 1}",
    ] {
        assert_eq!(
            deserialize(bad.as_bytes(), &FileFormat::Json),
            Err(ConvertError::Codec(CodecError::Malformed)),
            "{:?}",
            bad
        );
    }
}

#[test]
fn json_bytes_that_are_not_utf8_are_an_error() {
    assert_eq!(
        deserialize(&[b'"', 0xff, b'"'], &FileFormat::Json),
        Err(ConvertError::Codec(CodecError::Malformed))
    );
}

#[test]
fn json_mapping_with_one_key_twice_is_refused() {
    let twice = object(vec![("a", unsigned(1)), ("b", unsigned(2)), ("a", unsigned(3))]);
    assert_eq!(
        serialize(twice, &FileFormat::Json),
        Err(ConvertError::Codec(CodecError::Unrepresentable))
    );
    let inside = WetValue::Array(vec![
        unsigned(1),
        object(vec![("k", object(vec![("x", WetValue::Null), ("x", WetValue::Null)]))]),
    ]);
    assert_eq!(
        serialize(inside, &FileFormat::Json),
        Err(ConvertError::Codec(CodecError::Unrepresentable))
    );
}

#[test]
fn json_text_with_one_key_twice_keeps_the_last_value() {
    let read = deserialize(b"{\"a\":1,\"b\":2,\"a\":3}", &FileFormat::Json).unwrap();
    assert_eq!(read, object(vec![("a", unsigned(3)), ("b", unsigned(2))]));
}

#[test]
fn json_adaptor_appends_to_the_sink() {
    let adaptor = JsonAdaptor::new(false);
    let mut sink = b"head:".to_vec();
    assert_eq!(adaptor.serialize(scenario_value(), &mut sink), Ok(()));
    assert_eq!(sink, b"head:{\"a\":1,\"b\":[true,null]}".to_vec());
}

#[test]
fn json_adaptor_leaves_the_sink_on_error() {
    let adaptor = JsonAdaptor::new(false);
    let mut sink = b"head:".to_vec();
    let twice = object(vec![("a", unsigned(1)), ("a", unsigned(3))]);
    assert_eq!(
        adaptor.serialize(twice, &mut sink),
        Err(ConvertError::Codec(CodecError::Unrepresentable))
    );
    assert_eq!(sink, b"head:".to_vec());
}

#[test]
fn json_adaptor_can_indent() {
    let adaptor = JsonAdaptor::new(true);
    let mut sink = Vec::new();
    assert_eq!(adaptor.serialize(scenario_value(), &mut sink), Ok(()));
    assert_eq!(
        String::from_utf8(sink).unwrap(),
        "{\n  \"a\": 1,\n  \"b\": [\n    true,\n    null\n  ]\n}"
    );
    let read = adaptor
        .deserialize(b"{\n  \"a\": 1,\n  \"b\": [\n    true,\n    null\n  ]\n}")
        .unwrap();
    assert_eq!(read, scenario_value());
}

#[test]
fn json_adaptor_reads_what_it_wrote() {
    let adaptor = JsonAdaptor::new(false);
    let mut sink = Vec::new();
    adaptor.serialize(rich_value(), &mut sink).unwrap();
    assert_eq!(adaptor.deserialize(&sink), Ok(rich_value()));
}

#[test]
fn conversion_to_the_json_library_and_back() {
    let json = to_json(scenario_value()).unwrap();
    let mut map = serde_json::Map::new();
    map.insert("a".to_string(), serde_json::Value::from(1u64));
    map.insert(
        "b".to_string(),
        serde_json::Value::Array(vec![serde_json::Value::Bool(true), serde_json::Value::Null]),
    );
    assert_eq!(json, serde_json::Value::Object(map));
    assert_eq!(from_json(json), scenario_value());
}

#[test]
fn conversion_of_numbers() {
    assert_eq!(to_json(unsigned(9)).unwrap(), serde_json::Value::from(9u64));
    assert_eq!(
        to_json(WetValue::Number(WetNumber::NegInt(-9))).unwrap(),
        serde_json::Value::from(-9i64)
    );
    assert_eq!(
        to_json(WetValue::Number(WetNumber::NegInt(9))).unwrap(),
        serde_json::Value::from(9u64)
    );
    assert_eq!(number_of(serde_json::Number::from(9u64)), WetNumber::PosInt(9));
    assert_eq!(number_of(serde_json::Number::from(9i64)), WetNumber::PosInt(9));
    assert_eq!(number_of(serde_json::Number::from(-9i64)), WetNumber::NegInt(-9));
    let real = serde_json::Number::from_f64(2.25).unwrap();
    assert_eq!(number_of(real.clone()), WetNumber::Float(real));
}

#[test]
fn clone_of_a_value_is_equal() {
    assert_eq!(rich_value().clone(), rich_value());
    assert_eq!(scenario_value().clone(), scenario_value());
}

fn nested(depth: usize) -> WetValue {
    let mut value = WetValue::Array(vec![]);
    for _ in 1..depth {
        value = WetValue::Array(vec![value]);
    }
    value
}

#[test]
fn json_nesting_up_to_the_limit_of_the_reader_reads_back() {
    let written = serialize(nested(127), &FileFormat::Json).unwrap();
    assert_eq!(written.len(), 254);
    assert_eq!(deserialize(written.as_bytes(), &FileFormat::Json), Ok(nested(127)));
}

#[test]
fn json_nesting_beyond_the_limit_of_the_reader_is_written_and_not_read() {
    let written = serialize(nested(128), &FileFormat::Json).unwrap();
    assert_eq!(written.len(), 256);
    assert_eq!(
        deserialize(written.as_bytes(), &FileFormat::Json),
        Err(ConvertError::Codec(CodecError::Malformed))
    );
}
