//! Cross-cutting behavior: round trips between the escaper and the
//! decoder, canonical decimal output across widths, error conditions,
//! and the container assemblers driven by hand.

use canonical_json::de::Error as DecodeError;
use canonical_json::{
    hex, hex_4bit, to_string, to_vec, unescape, SerializeMap, SerializeSeq, SerializeStruct,
    Serializer, Value,
};

/// Encodes a string and hands back the literal body, without the
/// surrounding quotes.
fn escape_body(s: &str) -> Vec<u8> {
    let bytes = to_vec(&Value::Str(s.to_string())).unwrap();
    bytes[1..bytes.len() - 1].to_vec()
}

#[test]
fn escape_then_unescape_returns_the_original() {
    let samples = [
        "",
        "hello",
        "with \"quotes\" and \\backslashes\\",
        "tabs\tnewlines\nreturns\r",
        "\u{0000}\u{0001}\u{001f}",
        "mixed \u{0008}\u{000c} controls",
        "multi-byte \u{e4} \u{9ec} \u{211d} \u{1f4a3}",
        "/solidus stays plain/",
    ];
    for s in samples {
        assert_eq!(unescape(&escape_body(s)), Ok(s.to_string()));
    }
    // Every control character below U+0020 survives the round trip.
    for c in 0u32..0x20 {
        let s = char::from_u32(c).unwrap().to_string();
        assert_eq!(unescape(&escape_body(&s)), Ok(s));
    }
}

#[test]
fn control_characters_use_uppercase_u_escapes() {
    assert_eq!(escape_body("\u{000b}"), b"\\u000B".to_vec());
    assert_eq!(escape_body("\u{001e}"), b"\\u001E".to_vec());
    assert_eq!(unescape(b"\\u000B"), Ok("\u{000b}".to_string()));
    assert_eq!(unescape(b"\\u001E"), Ok("\u{001e}".to_string()));
}

#[test]
fn decimal_output_is_canonical_across_widths() {
    assert_eq!(to_string(&Value::U8(0)).unwrap(), "0");
    assert_eq!(to_string(&Value::U8(255)).unwrap(), "255");
    assert_eq!(to_string(&Value::U16(65535)).unwrap(), "65535");
    assert_eq!(to_string(&Value::U32(4294967295)).unwrap(), "4294967295");
    assert_eq!(
        to_string(&Value::U64(u64::MAX)).unwrap(),
        "18446744073709551615"
    );
    assert_eq!(to_string(&Value::I8(i8::MIN)).unwrap(), "-128");
    assert_eq!(to_string(&Value::I16(i16::MIN)).unwrap(), "-32768");
    assert_eq!(to_string(&Value::I32(i32::MIN)).unwrap(), "-2147483648");
    assert_eq!(
        to_string(&Value::I64(i64::MIN)).unwrap(),
        "-9223372036854775808"
    );
    assert_eq!(
        to_string(&Value::I64(i64::MAX)).unwrap(),
        "9223372036854775807"
    );
    assert_eq!(to_string(&Value::I64(0)).unwrap(), "0");
    assert_eq!(to_string(&Value::I64(-1)).unwrap(), "-1");

    // The output parses back to the original value with standard
    // decimal parsing.
    for v in [0u64, 1, 9, 10, 99, 100, 12345678901234567, u64::MAX] {
        assert_eq!(to_string(&Value::U64(v)).unwrap().parse::<u64>(), Ok(v));
    }
    for v in [0i64, 1, -1, 42, -42, i64::MIN, i64::MAX] {
        assert_eq!(to_string(&Value::I64(v)).unwrap().parse::<i64>(), Ok(v));
    }
}

#[test]
fn surrogate_boundaries_are_rejected() {
    assert_eq!(unescape(b"\\uD800"), Err(DecodeError::InvalidEscape));
    assert_eq!(unescape(b"\\uDFFF"), Err(DecodeError::InvalidEscape));
    // The scalars on either side of the surrogate range are fine.
    assert_eq!(unescape(b"\\uD7FF"), Ok("\u{d7ff}".to_string()));
    assert_eq!(unescape(b"\\uE000"), Ok("\u{e000}".to_string()));
}

#[test]
fn invalid_utf8_output_is_rejected() {
    // A stray continuation byte passes the escape scan verbatim but
    // cannot form UTF-8 text.
    assert_eq!(
        unescape(&[0xFF]),
        Err(DecodeError::InvalidUnicodeCodePoint)
    );
    // A truncated multi-byte sequence fails the same way.
    assert_eq!(
        unescape(&[0xF0, 0x9F]),
        Err(DecodeError::InvalidUnicodeCodePoint)
    );
    // The escape error wins when the scan stops first.
    assert_eq!(unescape(&[0xFF, 0x5C, 0x78]), Err(DecodeError::InvalidEscape));
}

#[test]
fn empty_containers_have_no_separator() {
    assert_eq!(to_string(&Value::Array(vec![])).unwrap(), "[]");
    assert_eq!(to_string(&Value::Record(vec![])).unwrap(), "{}");
    assert_eq!(
        to_string(&Value::Array(vec![Value::Array(vec![])])).unwrap(),
        "[[]]"
    );
}

#[test]
fn data_variant_encodes_as_single_key_object() {
    let v = Value::DataVariant("err".to_string(), Box::new(Value::Str("x".to_string())));
    assert_eq!(to_string(&v).unwrap(), r#"{"err":"x"}"#);

    let nested = Value::DataVariant(
        "outer".to_string(),
        Box::new(Value::DataVariant(
            "inner".to_string(),
            Box::new(Value::U8(7)),
        )),
    );
    assert_eq!(to_string(&nested).unwrap(), r#"{"outer":{"inner":7}}"#);
}

#[test]
fn to_vec_yields_the_same_bytes_as_to_string() {
    let v = Value::Array(vec![Value::Bool(true), Value::Null]);
    assert_eq!(to_vec(&v).unwrap(), b"[true,null]".to_vec());
    assert_eq!(to_string(&v).unwrap().into_bytes(), to_vec(&v).unwrap());
}

#[test]
fn hex_digits_are_uppercase() {
    assert_eq!(hex_4bit(0), b'0');
    assert_eq!(hex_4bit(9), b'9');
    assert_eq!(hex_4bit(10), b'A');
    assert_eq!(hex_4bit(15), b'F');
    assert_eq!(hex(0x00), (b'0', b'0'));
    assert_eq!(hex(0x1E), (b'1', b'E'));
    assert_eq!(hex(0xAF), (b'A', b'F'));
}

#[test]
fn assemblers_place_separators_between_items() {
    let mut ser = Serializer::new();
    let mut array = ser.serialize_seq(Some(3));
    array.serialize_element(&mut ser, &Value::U8(1)).unwrap();
    array.serialize_element(&mut ser, &Value::U8(2)).unwrap();
    array.serialize_element(&mut ser, &Value::U8(3)).unwrap();
    array.end(&mut ser).unwrap();
    assert_eq!(ser.into_bytes(), b"[1,2,3]".to_vec());

    let mut ser = Serializer::new();
    let mut object = ser.serialize_struct("pair", 2);
    object
        .serialize_field(&mut ser, "a", &Value::Bool(true))
        .unwrap();
    object
        .serialize_field(&mut ser, "b", &Value::Bool(false))
        .unwrap();
    object.end(&mut ser).unwrap();
    assert_eq!(ser.into_bytes(), br#"{"a":true,"b":false}"#.to_vec());

    let mut ser = Serializer::new();
    let variant = ser
        .serialize_struct_variant("Outcome", 0, "ok", 1)
        .unwrap();
    variant.end(&mut ser).unwrap();
    let mut bytes = ser.into_bytes();
    bytes.push(b'}');
    assert_eq!(bytes, br#"{"ok":{}}"#.to_vec());
}

#[test]
fn map_gate_accepts_string_keys() {
    let mut ser = Serializer::new();
    let _ = ser.serialize_struct("", 2);
    let mut map = SerializeMap::new();
    map.serialize_key(&mut ser, &Value::Str("x".to_string()))
        .unwrap();
    map.serialize_value(&mut ser, &Value::I8(-5)).unwrap();
    map.serialize_key(&mut ser, &Value::Str("y".to_string()))
        .unwrap();
    map.serialize_value(&mut ser, &Value::I8(6)).unwrap();
    map.end(&mut ser).unwrap();
    assert_eq!(ser.into_bytes(), br#"{"x":-5,"y":6}"#.to_vec());
}

#[test]
fn unit_variant_encodes_by_serializer_method() {
    let mut ser = Serializer::new();
    ser.serialize_unit_variant("Type", 1, "number").unwrap();
    assert_eq!(ser.into_bytes(), br#""number""#.to_vec());

    let mut ser = Serializer::new();
    ser.serialize_newtype_variant("MyResult", 1, "err", &Value::Str("x".to_string()))
        .unwrap();
    assert_eq!(ser.into_bytes(), br#"{"err":"x"}"#.to_vec());
}

#[test]
fn nested_values_keep_exact_layout() {
    let v = Value::Record(vec![
        (
            "items".to_string(),
            Value::Array(vec![
                Value::Str("a,b".to_string()),
                Value::Record(vec![("n".to_string(), Value::I16(-300))]),
            ]),
        ),
        ("done".to_string(), Value::Bool(false)),
    ]);
    assert_eq!(
        to_string(&v).unwrap(),
        r#"{"items":["a,b",{"n":-300}],"done":false}"#
    );
}

#[test]
fn unused_seq_assembler_leaves_empty_array() {
    let mut ser = Serializer::new();
    let array: SerializeSeq = ser.serialize_seq(None);
    array.end(&mut ser).unwrap();
    assert_eq!(ser.into_bytes(), b"[]".to_vec());

    let mut ser = Serializer::new();
    let object: SerializeStruct = ser.serialize_struct("Empty", 0);
    object.end(&mut ser).unwrap();
    assert_eq!(ser.into_bytes(), b"{}".to_vec());
}
