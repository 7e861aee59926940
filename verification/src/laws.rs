//! Global statements about the codec, proved once and for all inputs:
//! the escape/unescape round trip, the shape of control-character
//! escapes, the canonical form of decimal output, and the placement of
//! separators in container output.

use vstd::prelude::*;
use vstd::utf8::{
    char_is_scalar, char_u32_cast, decode_utf8, encode_scalar, encode_utf8, encode_utf8_decode_utf8,
    encode_utf8_valid_utf8, is_scalar, valid_utf8,
};
use crate::de::{
    hex_quad, hex_value, is_hex_digit, lemma_with_prefix_assoc, unescape_bytes, with_prefix, Error,
};
use crate::value::{
    dec_digits, dec_int, esc_char, esc_string, hex_digit, json_bytes, json_items, json_member,
    json_members, lemma_dec_digits_range, Value,
};

verus! {

/// The number written by a sequence of ASCII decimal digits, most
/// significant first: the standard positional reading.
pub open spec fn parse_dec(s: Seq<u8>) -> int
    decreases s.len(),
{
    if s.len() == 0 {
        0
    } else {
        parse_dec(s.drop_last()) * 10 + (s.last() - 0x30)
    }
}

/// The standard reading of an optionally `-`-signed decimal numeral.
pub open spec fn parse_dec_int(s: Seq<u8>) -> int {
    if s.len() > 0 && s[0] == 0x2D {
        -parse_dec(s.skip(1))
    } else {
        parse_dec(s)
    }
}

/// Decimal output is canonical: at least one digit, every byte an
/// ASCII digit, and no leading zero except for the number zero itself.
pub proof fn lemma_dec_digits_canonical(n: nat)
    ensures
        dec_digits(n).len() >= 1,
        forall|i: int| 0 <= i < dec_digits(n).len() ==> 0x30 <= #[trigger] dec_digits(n)[i] <= 0x39,
        n > 0 ==> dec_digits(n)[0] != 0x30,
        n == 0 ==> dec_digits(n) == seq![0x30u8],
    decreases n,
{
    lemma_dec_digits_range(n);
    if n >= 10 {
        lemma_dec_digits_canonical(n / 10);
        assert(dec_digits(n)[0] == dec_digits(n / 10)[0]);
    } else if n == 0 {
        assert(dec_digits(n) =~= seq![0x30u8]);
    }
}

/// Reading the digits of `n` back as a decimal numeral yields `n`.
pub proof fn lemma_dec_digits_parse(n: nat)
    ensures
        parse_dec(dec_digits(n)) == n,
    decreases n,
{
    assert(parse_dec(Seq::<u8>::empty()) == 0);
    if n < 10 {
        assert(dec_digits(n).drop_last() =~= Seq::<u8>::empty());
        assert(dec_digits(n).last() == 0x30 + n);
    } else {
        lemma_dec_digits_parse(n / 10);
        assert(dec_digits(n).drop_last() =~= dec_digits(n / 10));
        assert(dec_digits(n).last() == 0x30 + n % 10);
    }
}

/// Signed decimal output is canonical and parses back to its value: a
/// leading `-` stands exactly on negative numbers, and the standard
/// signed reading of the output is the encoded value.
pub proof fn lemma_dec_int_parse(v: int)
    ensures
        dec_int(v)[0] == 0x2D <==> v < 0,
        parse_dec_int(dec_int(v)) == v,
{
    if v < 0 {
        lemma_dec_digits_parse((-v) as nat);
        assert(dec_int(v).skip(1) =~= dec_digits((-v) as nat));
    } else {
        lemma_dec_digits_canonical(v as nat);
        lemma_dec_digits_parse(v as nat);
    }
}

/// A scalar below 0x80 is encoded as the single byte of its value.
proof fn lemma_encode_ascii(u: u32)
    requires
        u < 0x80,
    ensures
        encode_scalar(u) == seq![u as u8],
{
    assert((u & 0x7F) as u8 == u as u8) by (bit_vector)
        requires
            u < 0x80,
    ;
}

/// No byte of a scalar's UTF-8 encoding equals ASCII `\`, unless the
/// scalar is `\` itself.
proof fn lemma_encode_scalar_no_backslash(u: u32)
    requires
        is_scalar(u),
        u != 0x5C,
    ensures
        forall|i: int|
            0 <= i < encode_scalar(u).len() ==> #[trigger] encode_scalar(u)[i] != 0x5C,
{
    if u <= 0x7F {
        assert((u & 0x7F) as u8 != 0x5C) by (bit_vector)
            requires
                u <= 0x7F && u != 0x5C,
        ;
    } else if u <= 0x7FF {
        assert((0xC0 | ((u >> 6) & 0x1F) as u8) != 0x5C && (0x80 | (u & 0x3F) as u8)
            != 0x5C) by (bit_vector);
    } else if u <= 0xFFFF {
        assert((0xE0 | ((u >> 12) & 0x0F) as u8) != 0x5C && (0x80 | ((u >> 6) & 0x3F) as u8)
            != 0x5C && (0x80 | (u & 0x3F) as u8) != 0x5C) by (bit_vector);
    } else {
        assert((0xF0 | ((u >> 18) & 0x7) as u8) != 0x5C && (0x80 | ((u >> 12) & 0x3F) as u8)
            != 0x5C && (0x80 | ((u >> 6) & 0x3F) as u8) != 0x5C && (0x80 | (u & 0x3F) as u8)
            != 0x5C) by (bit_vector);
    }
}

/// A block of bytes free of `\` passes through the escape grammar
/// verbatim, whatever follows it.
proof fn lemma_unescape_verbatim(p: Seq<u8>, tail: Seq<u8>)
    requires
        forall|i: int| 0 <= i < p.len() ==> #[trigger] p[i] != 0x5C,
    ensures
        unescape_bytes(p + tail) == with_prefix(p, unescape_bytes(tail)),
    decreases p.len(),
{
    if p.len() == 0 {
        assert(p + tail =~= tail);
        match unescape_bytes(tail) {
            Ok(t) => {
                assert(p + t =~= t);
            },
            Err(_) => {},
        }
    } else {
        let s = p + tail;
        assert(s[0] == p[0]);
        assert(s.skip(1) =~= p.drop_first() + tail);
        lemma_unescape_verbatim(p.drop_first(), tail);
        lemma_with_prefix_assoc(seq![p[0]], p.drop_first(), unescape_bytes(tail));
        assert(seq![p[0]] + p.drop_first() =~= p);
    }
}

/// Upper-case hex digits are hex digits and decode to their value.
proof fn lemma_hex_digit_value(n: u8)
    requires
        n < 16,
    ensures
        is_hex_digit(hex_digit(n)),
        hex_value(hex_digit(n)) == n,
{
}

/// Decoding one canonically escaped character consumes exactly its
/// escape and produces exactly the character's UTF-8 bytes, whatever
/// follows it.
pub proof fn lemma_unescape_esc_char(c: char, tail: Seq<u8>)
    ensures
        unescape_bytes(esc_char(c) + tail) == with_prefix(encode_scalar(c as u32), unescape_bytes(tail)),
{
    char_is_scalar(c);
    let u = c as u32;
    let s = esc_char(c) + tail;
    if c == '"' || c == '\\' || c == '\u{0008}' || c == '\u{0009}' || c == '\u{000A}' || c
        == '\u{000C}' || c == '\u{000D}' {
        // A short escape: two bytes, decoded back to the single byte
        // of the character.
        let b: u8 = if c == '"' {
            0x22
        } else if c == '\\' {
            0x5C
        } else if c == '\u{0008}' {
            0x08
        } else if c == '\u{0009}' {
            0x09
        } else if c == '\u{000A}' {
            0x0A
        } else if c == '\u{000C}' {
            0x0C
        } else {
            0x0D
        };
        assert(s[0] == 0x5C && s.len() >= 2);
        assert(s.skip(2) =~= tail);
        assert(unescape_bytes(s) == with_prefix(seq![b], unescape_bytes(tail)));
        lemma_encode_ascii(u);
        assert(seq![b] =~= encode_scalar(u));
    } else if u < 0x20 {
        // A `\u00XX` escape: six bytes whose hex value is the
        // character itself.
        let h1 = hex_digit((u / 16) as u8);
        let h2 = hex_digit((u % 16) as u8);
        assert(s[0] == 0x5C && s[1] == 0x75 && s[2] == 0x30 && s[3] == 0x30 && s[4] == h1 && s[5]
            == h2);
        assert(s.len() >= 6);
        lemma_hex_digit_value((u / 16) as u8);
        lemma_hex_digit_value((u % 16) as u8);
        assert(is_hex_digit(0x30) && hex_value(0x30) == 0);
        let cp = hex_quad(0x30, 0x30, h1, h2);
        assert(cp == u);
        assert(s.skip(6) =~= tail);
        lemma_encode_ascii(u);
        assert(unescape_bytes(s) == with_prefix(encode_scalar(cp), unescape_bytes(tail)));
    } else {
        // An unescaped character: its UTF-8 bytes contain no `\` and
        // pass through verbatim.
        assert(u != 0x5C) by {
            if u == 0x5C {
                char_u32_cast(c, u);
                assert('\\' as u32 == 0x5C);
                char_u32_cast('\\', 0x5C);
            }
        }
        lemma_encode_scalar_no_backslash(u);
        lemma_unescape_verbatim(encode_scalar(u), tail);
    }
}

/// The round trip: decoding the canonically escaped form of any string
/// body succeeds and yields exactly the UTF-8 bytes of the original
/// characters, which in turn decode to the original characters.
pub proof fn lemma_escape_unescape_round_trip(s: Seq<char>)
    ensures
        unescape_bytes(esc_string(s)) == Ok::<Seq<u8>, Error>(encode_utf8(s)),
        valid_utf8(encode_utf8(s)),
        decode_utf8(encode_utf8(s)) == s,
    decreases s.len(),
{
    encode_utf8_valid_utf8(s);
    encode_utf8_decode_utf8(s);
    if s.len() == 0 {
        assert(unescape_bytes(esc_string(s)) == Ok::<Seq<u8>, Error>(Seq::empty()));
        assert(encode_utf8(s) =~= Seq::<u8>::empty());
    } else {
        lemma_escape_unescape_round_trip(s.drop_first());
        lemma_unescape_esc_char(s[0], esc_string(s.drop_first()));
        assert(encode_scalar(s[0] as u32) + encode_utf8(s.drop_first()) =~= encode_utf8(s));
    }
}

/// Every control character without a short escape is emitted as
/// exactly `\u00XX` with upper-case hex, and decoding that escape
/// yields the control byte back.
pub proof fn lemma_control_escape_round_trip(c: char)
    requires
        (c as u32) < 0x20,
        c != '\u{0008}',
        c != '\u{0009}',
        c != '\u{000A}',
        c != '\u{000C}',
        c != '\u{000D}',
    ensures
        esc_char(c) == seq![
            0x5Cu8,
            0x75u8,
            0x30u8,
            0x30u8,
            hex_digit(((c as u32) / 16) as u8),
            hex_digit(((c as u32) % 16) as u8),
        ],
        unescape_bytes(esc_char(c)) == Ok::<Seq<u8>, Error>(seq![(c as u32) as u8]),
{
    char_is_scalar(c);
    let u = c as u32;
    lemma_unescape_esc_char(c, Seq::empty());
    assert(esc_char(c) + Seq::<u8>::empty() =~= esc_char(c));
    assert(unescape_bytes(Seq::<u8>::empty()) == Ok::<Seq<u8>, Error>(Seq::empty()));
    lemma_encode_ascii(u);
    assert(encode_scalar(u) + Seq::<u8>::empty() =~= seq![u as u8]);
}

/// Every `\u` escape naming a UTF-16 surrogate codepoint is rejected
/// as an invalid escape, wherever it stands in the input.
pub proof fn lemma_surrogate_escape_rejected(a: u8, b: u8, c: u8, d: u8, tail: Seq<u8>)
    requires
        is_hex_digit(a),
        is_hex_digit(b),
        is_hex_digit(c),
        is_hex_digit(d),
        0xD800 <= hex_quad(a, b, c, d) <= 0xDFFF,
    ensures
        unescape_bytes(seq![0x5Cu8, 0x75u8, a, b, c, d] + tail) == Err::<Seq<u8>, Error>(
            Error::InvalidEscape,
        ),
{
    let s = seq![0x5Cu8, 0x75u8, a, b, c, d] + tail;
    assert(s[0] == 0x5C && s[1] == 0x75 && s[2] == a && s[3] == b && s[4] == c && s[5] == d);
    assert(s.len() >= 6);
}

/// The text of a value is never empty and never begins or ends with a
/// `,`: every separator the assemblers emit stands between two items.
pub proof fn lemma_value_text_no_stray_separator(v: Value)
    ensures
        json_bytes(v).len() > 0,
        json_bytes(v)[0] != 0x2C,
        json_bytes(v).last() != 0x2C,
{
    match v {
        Value::I8(n) => {
            lemma_dec_int_edges(n as int);
        },
        Value::I16(n) => {
            lemma_dec_int_edges(n as int);
        },
        Value::I32(n) => {
            lemma_dec_int_edges(n as int);
        },
        Value::I64(n) => {
            lemma_dec_int_edges(n as int);
        },
        Value::U8(n) => {
            lemma_dec_digits_range(n as nat);
        },
        Value::U16(n) => {
            lemma_dec_digits_range(n as nat);
        },
        Value::U32(n) => {
            lemma_dec_digits_range(n as nat);
        },
        Value::U64(n) => {
            lemma_dec_digits_range(n as nat);
        },
        _ => {},
    }
}

/// The decimal form of a signed value begins with `-` or a digit and
/// ends with a digit.
proof fn lemma_dec_int_edges(v: int)
    ensures
        dec_int(v).len() > 0,
        dec_int(v)[0] == 0x2D || (0x30 <= dec_int(v)[0] <= 0x39),
        0x30 <= dec_int(v).last() <= 0x39,
{
    if v < 0 {
        lemma_dec_digits_range((-v) as nat);
        assert(dec_int(v).last() == dec_digits((-v) as nat).last());
    } else {
        lemma_dec_digits_range(v as nat);
    }
}

/// The joined elements of a non-empty array body begin and end with an
/// element's bytes, never with a separator; an empty body is empty.
pub proof fn lemma_items_no_stray_separator(elems: Seq<Value>)
    ensures
        elems.len() == 0 ==> json_items(elems) == Seq::<u8>::empty(),
        elems.len() > 0 ==> json_items(elems).len() > 0 && json_items(elems)[0] != 0x2C
            && json_items(elems).last() != 0x2C,
    decreases elems,
{
    if elems.len() == 0 {
    } else if elems.len() == 1 {
        lemma_value_text_no_stray_separator(elems[0]);
    } else {
        lemma_value_text_no_stray_separator(elems[0]);
        lemma_items_no_stray_separator(elems.drop_first());
        assert(json_items(elems)[0] == json_bytes(elems[0])[0]);
        assert(json_items(elems).last() == json_items(elems.drop_first()).last());
    }
}

/// The joined members of a non-empty object body begin with a member's
/// key literal and end with a member's value bytes, never with a
/// separator; an empty body is empty.
pub proof fn lemma_members_no_stray_separator(fields: Seq<(String, Value)>)
    ensures
        fields.len() == 0 ==> json_members(fields) == Seq::<u8>::empty(),
        fields.len() > 0 ==> json_members(fields).len() > 0 && json_members(fields)[0] != 0x2C
            && json_members(fields).last() != 0x2C,
    decreases fields,
{
    if fields.len() == 0 {
    } else if fields.len() == 1 {
        lemma_member_edges(fields[0]);
    } else {
        lemma_member_edges(fields[0]);
        lemma_members_no_stray_separator(fields.drop_first());
        assert(json_members(fields)[0] == json_member(fields[0])[0]);
        assert(json_members(fields).last() == json_members(fields.drop_first()).last());
    }
}

/// One object member begins with the `"` of its key and ends with its
/// value's last byte.
proof fn lemma_member_edges(field: (String, Value))
    ensures
        json_member(field).len() > 0,
        json_member(field)[0] == 0x22,
        json_member(field).last() != 0x2C,
{
    lemma_value_text_no_stray_separator(field.1);
    assert(json_member(field).last() == json_bytes(field.1).last());
}

} // verus!
