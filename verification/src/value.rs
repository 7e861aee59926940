//! The value model of the codec and the specification of its canonical
//! JSON byte form.
//!
//! `Value` is the closed set of shapes the encoder supports. `json_bytes`
//! defines, byte for byte, the canonical JSON text of a value: no
//! whitespace, `,` and `:` as the only separators, a fixed escape set in
//! string literals, minimal-length UTF-8 for everything else, and decimal
//! integers with no leading zeros. Every encoder contract is stated
//! against these functions.

use vstd::prelude::*;
use vstd::utf8::{
    char_is_scalar, decode_utf8, encode_scalar, encode_utf8, is_leading_byte_width_1, is_scalar,
    leading_byte_width_1, partial_valid_utf8, partial_valid_utf8_extend_ascii_block, valid_utf8,
    valid_utf8_concat,
};

verus! {

/// A typed structured value that the encoder accepts.
///
/// Unsupported shapes (floating point, raw byte strings, unit values,
/// tuples, true multi-key maps with non-string keys) have no
/// representation here on purpose: misuse of the codec is ruled out by
/// the type rather than reported at run time.
pub enum Value {
    /// Encoded as the literal `true` or `false`.
    Bool(bool),
    /// Signed integers of each supported width, encoded in decimal.
    I8(i8),
    I16(i16),
    I32(i32),
    I64(i64),
    /// Unsigned integers of each supported width, encoded in decimal.
    U8(u8),
    U16(u16),
    U32(u32),
    U64(u64),
    /// Encoded as a JSON string literal with the canonical escape set.
    Str(String),
    /// An absent optional value, encoded as the literal `null`.
    /// A present optional value is represented by the value itself.
    Null,
    /// A sequence, encoded as `[..]` with `,` between the elements.
    Array(Vec<Value>),
    /// A record of named fields, encoded as `{"name":value,..}`.
    Record(Vec<(String, Value)>),
    /// An enum variant without data, encoded as the variant name in a
    /// JSON string literal.
    UnitVariant(String),
    /// An enum variant with data, encoded as an object with a single
    /// key equal to the variant name: `{"name":payload}`.
    DataVariant(String, Box<Value>),
}

/// The ASCII byte for one hex digit in `0..16`, upper case: `0`-`9`, `A`-`F`.
pub open spec fn hex_digit(n: u8) -> u8 {
    if n <= 9 {
        (0x30 + n) as u8
    } else {
        (0x41 + (n - 10)) as u8
    }
}

/// The decimal digits of `n` in ASCII, most significant first, with no
/// leading zeros (`0` itself is the single digit `0`).
pub open spec fn dec_digits(n: nat) -> Seq<u8>
    decreases n,
{
    if n < 10 {
        seq![(0x30 + n) as u8]
    } else {
        dec_digits(n / 10) + seq![(0x30 + n % 10) as u8]
    }
}

/// The decimal form of a signed value: a single leading `-` for negative
/// values, then the digits of the magnitude.
pub open spec fn dec_int(v: int) -> Seq<u8> {
    if v < 0 {
        seq![0x2Du8] + dec_digits((-v) as nat)
    } else {
        dec_digits(v as nat)
    }
}

/// The canonical encoding of one character inside a string literal.
///
/// `"` and `\` and the control characters with a short escape become
/// their two-byte escape; every other control character below U+0020
/// becomes `\u00XX` with upper-case hex; everything else is emitted as
/// its minimal-length UTF-8 encoding, unescaped.
pub open spec fn esc_char(c: char) -> Seq<u8> {
    if c == '"' {
        seq![0x5Cu8, 0x22u8]  // \"
    } else if c == '\\' {
        seq![0x5Cu8, 0x5Cu8]  // \\
    } else if c == '\u{0008}' {
        seq![0x5Cu8, 0x62u8]  // \b
    } else if c == '\u{0009}' {
        seq![0x5Cu8, 0x74u8]  // \t
    } else if c == '\u{000A}' {
        seq![0x5Cu8, 0x6Eu8]  // \n
    } else if c == '\u{000C}' {
        seq![0x5Cu8, 0x66u8]  // \f
    } else if c == '\u{000D}' {
        seq![0x5Cu8, 0x72u8]  // \r
    } else if (c as u32) < 0x20 {
        seq![
            0x5Cu8,
            0x75u8,
            0x30u8,
            0x30u8,
            hex_digit(((c as u32) / 16) as u8),
            hex_digit(((c as u32) % 16) as u8),
        ]
    } else {
        encode_scalar(c as u32)
    }
}

/// The canonical encoding of a string body, character by character.
pub open spec fn esc_string(s: Seq<char>) -> Seq<u8>
    decreases s.len(),
{
    if s.len() == 0 {
        Seq::empty()
    } else {
        esc_char(s[0]) + esc_string(s.drop_first())
    }
}

/// A complete JSON string literal: the escaped body between two `"`.
pub open spec fn str_literal(s: Seq<char>) -> Seq<u8> {
    seq![0x22u8] + esc_string(s) + seq![0x22u8]
}

/// The canonical JSON bytes of a value.
pub open spec fn json_bytes(v: Value) -> Seq<u8>
    decreases v,
{
    match v {
        Value::Bool(b) => if b {
            seq![0x74u8, 0x72u8, 0x75u8, 0x65u8]  // true
        } else {
            seq![0x66u8, 0x61u8, 0x6Cu8, 0x73u8, 0x65u8]  // false
        },
        Value::I8(n) => dec_int(n as int),
        Value::I16(n) => dec_int(n as int),
        Value::I32(n) => dec_int(n as int),
        Value::I64(n) => dec_int(n as int),
        Value::U8(n) => dec_digits(n as nat),
        Value::U16(n) => dec_digits(n as nat),
        Value::U32(n) => dec_digits(n as nat),
        Value::U64(n) => dec_digits(n as nat),
        Value::Str(s) => str_literal(s@),
        Value::Null => seq![0x6Eu8, 0x75u8, 0x6Cu8, 0x6Cu8],  // null
        Value::Array(elems) => seq![0x5Bu8] + json_items(elems@) + seq![0x5Du8],
        Value::Record(fields) => seq![0x7Bu8] + json_members(fields@) + seq![0x7Du8],
        Value::UnitVariant(name) => str_literal(name@),
        Value::DataVariant(name, payload) => seq![0x7Bu8] + str_literal(name@) + seq![0x3Au8]
            + json_bytes(*payload) + seq![0x7Du8],
    }
}

/// The elements of an array joined by `,`: no separator before the
/// first element and none after the last.
pub open spec fn json_items(elems: Seq<Value>) -> Seq<u8>
    decreases elems,
{
    if elems.len() == 0 {
        Seq::empty()
    } else if elems.len() == 1 {
        json_bytes(elems[0])
    } else {
        json_bytes(elems[0]) + seq![0x2Cu8] + json_items(elems.drop_first())
    }
}

/// The members of an object joined by `,`: each member is the field
/// name as a string literal, `:`, and the field value.
pub open spec fn json_member(field: (String, Value)) -> Seq<u8>
    decreases field,
{
    str_literal(field.0@) + seq![0x3Au8] + json_bytes(field.1)
}

/// The members of an object joined by `,`, in field order.
pub open spec fn json_members(fields: Seq<(String, Value)>) -> Seq<u8>
    decreases fields,
{
    if fields.len() == 0 {
        Seq::empty()
    } else if fields.len() == 1 {
        json_member(fields[0])
    } else {
        json_member(fields[0]) + seq![0x2Cu8] + json_members(fields.drop_first())
    }
}

/// Appending one character to a string body appends exactly that
/// character's canonical encoding.
pub proof fn lemma_esc_string_push(s: Seq<char>, c: char)
    ensures
        esc_string(s.push(c)) == esc_string(s) + esc_char(c),
    decreases s.len(),
{
    if s.len() == 0 {
        assert(s.push(c)[0] == c);
        assert(s.push(c).drop_first() =~= Seq::<char>::empty());
        assert(esc_string(Seq::<char>::empty()) =~= Seq::<u8>::empty());
        assert(esc_string(s.push(c)) =~= esc_string(s) + esc_char(c));
    } else {
        assert(s.push(c)[0] == s[0]);
        assert(s.push(c).drop_first() =~= s.drop_first().push(c));
        lemma_esc_string_push(s.drop_first(), c);
        assert(esc_string(s.push(c)) =~= esc_string(s) + esc_char(c));
    }
}

/// Appending one element to an array body appends that element's
/// bytes, preceded by a `,` unless the body was empty.
pub proof fn lemma_json_items_push(elems: Seq<Value>, e: Value)
    ensures
        json_items(elems.push(e)) == json_items(elems) + (if elems.len() == 0 {
            Seq::<u8>::empty()
        } else {
            seq![0x2Cu8]
        }) + json_bytes(e),
    decreases elems.len(),
{
    if elems.len() == 0 {
        assert(elems.push(e)[0] == e);
        assert(json_items(elems.push(e)) =~= json_items(elems) + Seq::<u8>::empty()
            + json_bytes(e));
    } else {
        assert(elems.push(e).drop_first() =~= elems.drop_first().push(e));
        lemma_json_items_push(elems.drop_first(), e);
        assert(json_items(elems.push(e)) =~= json_items(elems) + seq![0x2Cu8] + json_bytes(e));
    }
}

/// Appending one member to an object body appends that member's
/// bytes, preceded by a `,` unless the body was empty.
pub proof fn lemma_json_members_push(fields: Seq<(String, Value)>, f: (String, Value))
    ensures
        json_members(fields.push(f)) == json_members(fields) + (if fields.len() == 0 {
            Seq::<u8>::empty()
        } else {
            seq![0x2Cu8]
        }) + json_member(f),
    decreases fields.len(),
{
    if fields.len() == 0 {
        assert(fields.push(f)[0] == f);
        assert(json_members(fields.push(f)) =~= json_members(fields) + Seq::<u8>::empty()
            + json_member(f));
    } else {
        assert(fields.push(f).drop_first() =~= fields.drop_first().push(f));
        lemma_json_members_push(fields.drop_first(), f);
        assert(json_members(fields.push(f)) =~= json_members(fields) + seq![0x2Cu8]
            + json_member(f));
    }
}

/// Every decimal digit byte lies in the ASCII range `0`-`9`.
pub proof fn lemma_dec_digits_range(n: nat)
    ensures
        dec_digits(n).len() >= 1,
        forall|i: int| 0 <= i < dec_digits(n).len() ==> 0x30 <= #[trigger] dec_digits(n)[i] <= 0x39,
    decreases n,
{
    if n >= 10 {
        lemma_dec_digits_range(n / 10);
    }
}

/// A sequence of bytes below 0x80 is valid UTF-8: each byte is the
/// one-byte encoding of the same scalar.
pub proof fn lemma_ascii_bytes_valid(b: Seq<u8>)
    requires
        forall|i: int| 0 <= i < b.len() ==> #[trigger] b[i] < 0x80,
    ensures
        valid_utf8(b),
{
    assert forall|i: int| 0 <= i < b.len() implies #[trigger] is_leading_byte_width_1(b[i]) by {
        assert(b[i] < 0x80);
    }
    assert(b.subrange(0, 0) =~= Seq::<u8>::empty());
    assert(partial_valid_utf8(b, 0));
    partial_valid_utf8_extend_ascii_block(b, 0, b.len() as int);
    assert(b.subrange(0, b.len() as int) =~= b);
}

/// The canonical encoding of one character is valid UTF-8.
pub proof fn lemma_esc_char_valid(c: char)
    ensures
        valid_utf8(esc_char(c)),
{
    char_is_scalar(c);
    if c == '"' || c == '\\' || c == '\u{0008}' || c == '\u{0009}' || c == '\u{000A}' || c
        == '\u{000C}' || c == '\u{000D}' || (c as u32) < 0x20 {
        lemma_ascii_bytes_valid(esc_char(c));
    } else {
        vstd::utf8::encode_utf8_valid_utf8(seq![c]);
        assert(seq![c][0] == c);
        assert(seq![c].drop_first() =~= Seq::<char>::empty());
        assert(encode_utf8(Seq::<char>::empty()) =~= Seq::<u8>::empty());
        assert(encode_utf8(seq![c]) =~= encode_scalar(c as u32));
    }
}

/// The canonical encoding of a string body is valid UTF-8.
pub proof fn lemma_esc_string_valid(s: Seq<char>)
    ensures
        valid_utf8(esc_string(s)),
    decreases s.len(),
{
    if s.len() > 0 {
        lemma_esc_char_valid(s[0]);
        lemma_esc_string_valid(s.drop_first());
        valid_utf8_concat(esc_char(s[0]), esc_string(s.drop_first()));
    }
}

/// A complete string literal is valid UTF-8.
pub proof fn lemma_str_literal_valid(s: Seq<char>)
    ensures
        valid_utf8(str_literal(s)),
{
    lemma_ascii_bytes_valid(seq![0x22u8]);
    lemma_esc_string_valid(s);
    valid_utf8_concat(seq![0x22u8], esc_string(s));
    valid_utf8_concat(seq![0x22u8] + esc_string(s), seq![0x22u8]);
    assert(str_literal(s) =~= (seq![0x22u8] + esc_string(s)) + seq![0x22u8]);
}

/// The digits of an unsigned decimal are valid UTF-8.
pub proof fn lemma_dec_digits_valid(n: nat)
    ensures
        valid_utf8(dec_digits(n)),
{
    lemma_dec_digits_range(n);
    lemma_ascii_bytes_valid(dec_digits(n));
}

/// The decimal form of a signed value is valid UTF-8.
pub proof fn lemma_dec_int_valid(v: int)
    ensures
        valid_utf8(dec_int(v)),
{
    if v < 0 {
        lemma_dec_digits_range((-v) as nat);
        lemma_ascii_bytes_valid(dec_int(v));
    } else {
        lemma_dec_digits_valid(v as nat);
    }
}

/// The canonical JSON bytes of any value are valid UTF-8.
pub proof fn lemma_json_bytes_valid_utf8(v: Value)
    ensures
        valid_utf8(json_bytes(v)),
    decreases v, 0int,
{
    match v {
        Value::Bool(b) => {
            lemma_ascii_bytes_valid(json_bytes(v));
        },
        Value::I8(n) => {
            lemma_dec_int_valid(n as int);
        },
        Value::I16(n) => {
            lemma_dec_int_valid(n as int);
        },
        Value::I32(n) => {
            lemma_dec_int_valid(n as int);
        },
        Value::I64(n) => {
            lemma_dec_int_valid(n as int);
        },
        Value::U8(n) => {
            lemma_dec_digits_valid(n as nat);
        },
        Value::U16(n) => {
            lemma_dec_digits_valid(n as nat);
        },
        Value::U32(n) => {
            lemma_dec_digits_valid(n as nat);
        },
        Value::U64(n) => {
            lemma_dec_digits_valid(n as nat);
        },
        Value::Str(s) => {
            lemma_str_literal_valid(s@);
        },
        Value::Null => {
            lemma_ascii_bytes_valid(json_bytes(v));
        },
        Value::Array(elems) => {
            lemma_ascii_bytes_valid(seq![0x5Bu8]);
            lemma_ascii_bytes_valid(seq![0x5Du8]);
            lemma_json_items_valid(elems@);
            valid_utf8_concat(seq![0x5Bu8], json_items(elems@));
            valid_utf8_concat(seq![0x5Bu8] + json_items(elems@), seq![0x5Du8]);
            assert(json_bytes(v) =~= (seq![0x5Bu8] + json_items(elems@)) + seq![0x5Du8]);
        },
        Value::Record(fields) => {
            lemma_ascii_bytes_valid(seq![0x7Bu8]);
            lemma_ascii_bytes_valid(seq![0x7Du8]);
            lemma_json_members_valid(fields@);
            valid_utf8_concat(seq![0x7Bu8], json_members(fields@));
            valid_utf8_concat(seq![0x7Bu8] + json_members(fields@), seq![0x7Du8]);
            assert(json_bytes(v) =~= (seq![0x7Bu8] + json_members(fields@)) + seq![0x7Du8]);
        },
        Value::UnitVariant(name) => {
            lemma_str_literal_valid(name@);
        },
        Value::DataVariant(name, payload) => {
            lemma_ascii_bytes_valid(seq![0x7Bu8]);
            lemma_ascii_bytes_valid(seq![0x3Au8]);
            lemma_ascii_bytes_valid(seq![0x7Du8]);
            lemma_str_literal_valid(name@);
            lemma_json_bytes_valid_utf8(*payload);
            valid_utf8_concat(seq![0x7Bu8], str_literal(name@));
            valid_utf8_concat(seq![0x7Bu8] + str_literal(name@), seq![0x3Au8]);
            valid_utf8_concat(
                (seq![0x7Bu8] + str_literal(name@)) + seq![0x3Au8],
                json_bytes(*payload),
            );
            valid_utf8_concat(
                ((seq![0x7Bu8] + str_literal(name@)) + seq![0x3Au8]) + json_bytes(*payload),
                seq![0x7Du8],
            );
            assert(json_bytes(v) =~= (((seq![0x7Bu8] + str_literal(name@)) + seq![0x3Au8])
                + json_bytes(*payload)) + seq![0x7Du8]);
        },
    }
}

/// The joined elements of an array body are valid UTF-8.
pub proof fn lemma_json_items_valid(elems: Seq<Value>)
    ensures
        valid_utf8(json_items(elems)),
    decreases elems, 1int,
{
    if elems.len() == 0 {
    } else if elems.len() == 1 {
        lemma_json_bytes_valid_utf8(elems[0]);
    } else {
        lemma_json_bytes_valid_utf8(elems[0]);
        lemma_ascii_bytes_valid(seq![0x2Cu8]);
        lemma_json_items_valid(elems.drop_first());
        valid_utf8_concat(json_bytes(elems[0]), seq![0x2Cu8]);
        valid_utf8_concat(json_bytes(elems[0]) + seq![0x2Cu8], json_items(elems.drop_first()));
        assert(json_items(elems) =~= (json_bytes(elems[0]) + seq![0x2Cu8]) + json_items(
            elems.drop_first(),
        ));
    }
}

/// The joined members of an object body are valid UTF-8.
pub proof fn lemma_json_members_valid(fields: Seq<(String, Value)>)
    ensures
        valid_utf8(json_members(fields)),
    decreases fields, 1int,
{
    if fields.len() == 0 {
    } else {
        lemma_json_member_valid(fields[0]);
        if fields.len() > 1 {
            lemma_ascii_bytes_valid(seq![0x2Cu8]);
            lemma_json_members_valid(fields.drop_first());
            valid_utf8_concat(json_member(fields[0]), seq![0x2Cu8]);
            valid_utf8_concat(
                json_member(fields[0]) + seq![0x2Cu8],
                json_members(fields.drop_first()),
            );
            assert(json_members(fields) =~= (json_member(fields[0]) + seq![0x2Cu8]) + json_members(
                fields.drop_first(),
            ));
        }
    }
}

/// One object member is valid UTF-8.
pub proof fn lemma_json_member_valid(field: (String, Value))
    ensures
        valid_utf8(json_member(field)),
    decreases field, 1int,
{
    lemma_str_literal_valid(field.0@);
    lemma_ascii_bytes_valid(seq![0x3Au8]);
    lemma_json_bytes_valid_utf8(field.1);
    valid_utf8_concat(str_literal(field.0@), seq![0x3Au8]);
    valid_utf8_concat(str_literal(field.0@) + seq![0x3Au8], json_bytes(field.1));
    assert(json_member(field) =~= (str_literal(field.0@) + seq![0x3Au8]) + json_bytes(field.1));
}

/// Relies on `String::from_utf8`: it succeeds exactly on input that is
/// valid UTF-8, and then returns the string those bytes encode.
#[verifier::external_body]
pub(crate) fn bytes_to_string(bytes: Vec<u8>) -> (r: Option<String>)
    ensures
        r matches Some(s) ==> valid_utf8(bytes@) && s@ == decode_utf8(bytes@),
        r is None ==> !valid_utf8(bytes@),
{
    match String::from_utf8(bytes) {
        Ok(s) => Some(s),
        Err(_) => None,
    }
}

/// Appends the minimal-length UTF-8 encoding of one Unicode scalar.
pub(crate) fn push_scalar_utf8(out: &mut Vec<u8>, scalar: u32)
    requires
        is_scalar(scalar),
    ensures
        final(out)@ == old(out)@ + encode_scalar(scalar),
{
    if scalar <= 0x7F {
        out.push(scalar as u8);
        proof {
            assert(scalar as u8 == leading_byte_width_1(scalar)) by (bit_vector)
                requires
                    scalar <= 0x7F,
            ;
            assert(out@ =~= old(out)@ + encode_scalar(scalar));
        }
    } else if scalar <= 0x7FF {
        out.push(0xC0 | (((scalar >> 6) & 0x1F) as u8));
        out.push(0x80 | ((scalar & 0x3F) as u8));
        proof {
            assert(out@ =~= old(out)@ + encode_scalar(scalar));
        }
    } else if scalar <= 0xFFFF {
        out.push(0xE0 | (((scalar >> 12) & 0x0F) as u8));
        out.push(0x80 | (((scalar >> 6) & 0x3F) as u8));
        out.push(0x80 | ((scalar & 0x3F) as u8));
        proof {
            assert(out@ =~= old(out)@ + encode_scalar(scalar));
        }
    } else {
        out.push(0xF0 | (((scalar >> 18) & 0x7) as u8));
        out.push(0x80 | (((scalar >> 12) & 0x3F) as u8));
        out.push(0x80 | (((scalar >> 6) & 0x3F) as u8));
        out.push(0x80 | ((scalar & 0x3F) as u8));
        proof {
            assert(out@ =~= old(out)@ + encode_scalar(scalar));
        }
    }
}

} // verus!
