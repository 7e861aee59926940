//! The value encoder: turns a `Value` into its canonical JSON byte form.
//!
//! A `Serializer` owns the single growable output buffer. Scalar methods
//! append the representation of one scalar; `serialize_value` dispatches
//! over the value shape and drives the container assemblers
//! (`SerializeSeq`, `SerializeStruct`, `SerializeMap`), which manage the
//! `,` separators and closing delimiters. Every method's contract states
//! the exact bytes appended, in terms of the spec functions of
//! `crate::value`.

use vstd::prelude::*;
use vstd::string::StrSliceExecFns;
use vstd::utf8::{char_is_scalar, decode_utf8, encode_utf8};
use crate::value::{
    bytes_to_string, dec_digits, dec_int, esc_string, hex_digit, json_bytes, json_items,
    json_members, lemma_esc_string_push, lemma_json_bytes_valid_utf8, lemma_json_items_push,
    lemma_json_members_push, push_scalar_utf8, str_literal, Value,
};

verus! {

/// All errors the encoder can signal.
#[derive(Debug)]
pub enum Error {
    /// The output sink ran out of room. The growable buffer used here
    /// never raises it; it exists for bounded-buffer deployments.
    BufferFull,
    __Extensible,
}

/// Number of bytes reserved by default for the output JSON.
const INITIAL_CAPACITY: usize = 1024;

/// The encoder state: the single output buffer of one in-flight
/// encoding operation. Its view is the byte sequence written so far.
pub struct Serializer {
    buf: Vec<u8>,
}

impl View for Serializer {
    type V = Seq<u8>;

    closed spec fn view(&self) -> Seq<u8> {
        self.buf@
    }
}

/// Upper-case hex digit for a value in 0..16, as an ASCII byte.
pub fn hex_4bit(c: u8) -> (r: u8)
    requires
        c < 16,
    ensures
        r == hex_digit(c),
{
    if c <= 9 {
        0x30 + c
    } else {
        0x41 + (c - 10)
    }
}

/// Both upper-case hex digits of one byte, high nibble first.
pub fn hex(c: u8) -> (r: (u8, u8))
    ensures
        r.0 == hex_digit((c / 16) as u8),
        r.1 == hex_digit((c % 16) as u8),
{
    proof {
        assert(c >> 4 == c / 16 && c >> 4 < 16 && (c & 0x0F) == c % 16) by (bit_vector);
    }
    (hex_4bit(c >> 4), hex_4bit(c & 0x0F))
}

impl Serializer {
    /// A fresh encoder with an empty output buffer.
    pub fn new() -> (r: Serializer)
        ensures
            r@ == Seq::<u8>::empty(),
    {
        Serializer { buf: Vec::with_capacity(INITIAL_CAPACITY) }
    }

    /// Hands the finished output buffer to the caller.
    pub fn into_bytes(self) -> (r: Vec<u8>)
        ensures
            r@ == self@,
    {
        self.buf
    }

    /// Appends one raw byte to the output.
    fn push_byte(&mut self, b: u8)
        ensures
            final(self)@ == old(self)@ + seq![b],
    {
        self.buf.push(b);
        proof {
            assert(self@ =~= old(self)@ + seq![b]);
        }
    }

    /// Appends the decimal digits of an unsigned value.
    fn push_u64_digits(&mut self, v: u64)
        ensures
            final(self)@ == old(self)@ + dec_digits(v as nat),
        decreases v,
    {
        if v >= 10 {
            self.push_u64_digits(v / 10);
        }
        self.push_byte(0x30 + ((v % 10) as u8));
        proof {
            assert(self@ =~= old(self)@ + dec_digits(v as nat));
        }
    }

    /// Appends the literal `true` or `false`.
    pub fn serialize_bool(&mut self, v: bool) -> (r: Result<(), Error>)
        ensures
            final(self)@ == old(self)@ + json_bytes(Value::Bool(v)),
            r is Ok,
    {
        if v {
            self.push_byte(0x74);
            self.push_byte(0x72);
            self.push_byte(0x75);
            self.push_byte(0x65);
        } else {
            self.push_byte(0x66);
            self.push_byte(0x61);
            self.push_byte(0x6C);
            self.push_byte(0x73);
            self.push_byte(0x65);
        }
        proof {
            assert(self@ =~= old(self)@ + json_bytes(Value::Bool(v)));
        }
        Ok(())
    }

    /// Appends the decimal form of a signed 64-bit value.
    pub fn serialize_i64(&mut self, v: i64) -> (r: Result<(), Error>)
        ensures
            final(self)@ == old(self)@ + dec_int(v as int),
            r is Ok,
    {
        if v < 0 {
            self.push_byte(0x2D);
            // The minimum value has no negation in the signed domain:
            // take the two's-complement magnitude directly.
            let m: u64 = if v == i64::MIN {
                0x8000000000000000u64
            } else {
                (-v) as u64
            };
            self.push_u64_digits(m);
            proof {
                assert(self@ =~= old(self)@ + dec_int(v as int));
            }
        } else {
            self.push_u64_digits(v as u64);
        }
        Ok(())
    }

    /// Appends the decimal form of a signed 8-bit value.
    pub fn serialize_i8(&mut self, v: i8) -> (r: Result<(), Error>)
        ensures
            final(self)@ == old(self)@ + dec_int(v as int),
            r is Ok,
    {
        self.serialize_i64(v as i64)
    }

    /// Appends the decimal form of a signed 16-bit value.
    pub fn serialize_i16(&mut self, v: i16) -> (r: Result<(), Error>)
        ensures
            final(self)@ == old(self)@ + dec_int(v as int),
            r is Ok,
    {
        self.serialize_i64(v as i64)
    }

    /// Appends the decimal form of a signed 32-bit value.
    pub fn serialize_i32(&mut self, v: i32) -> (r: Result<(), Error>)
        ensures
            final(self)@ == old(self)@ + dec_int(v as int),
            r is Ok,
    {
        self.serialize_i64(v as i64)
    }

    /// Appends the decimal form of an unsigned 64-bit value.
    pub fn serialize_u64(&mut self, v: u64) -> (r: Result<(), Error>)
        ensures
            final(self)@ == old(self)@ + dec_digits(v as nat),
            r is Ok,
    {
        self.push_u64_digits(v);
        Ok(())
    }

    /// Appends the decimal form of an unsigned 8-bit value.
    pub fn serialize_u8(&mut self, v: u8) -> (r: Result<(), Error>)
        ensures
            final(self)@ == old(self)@ + dec_digits(v as nat),
            r is Ok,
    {
        self.serialize_u64(v as u64)
    }

    /// Appends the decimal form of an unsigned 16-bit value.
    pub fn serialize_u16(&mut self, v: u16) -> (r: Result<(), Error>)
        ensures
            final(self)@ == old(self)@ + dec_digits(v as nat),
            r is Ok,
    {
        self.serialize_u64(v as u64)
    }

    /// Appends the decimal form of an unsigned 32-bit value.
    pub fn serialize_u32(&mut self, v: u32) -> (r: Result<(), Error>)
        ensures
            final(self)@ == old(self)@ + dec_digits(v as nat),
            r is Ok,
    {
        self.serialize_u64(v as u64)
    }

    /// Appends a complete JSON string literal: `"`, the canonically
    /// escaped body, `"`.
    pub fn serialize_str(&mut self, v: &str) -> (r: Result<(), Error>)
        ensures
            final(self)@ == old(self)@ + str_literal(v@),
            r is Ok,
    {
        self.push_byte(0x22);
        let n = v.unicode_len();
        let mut i: usize = 0;
        while i < n
            invariant
                i <= n,
                n == v@.len(),
                self@ == old(self)@ + seq![0x22u8] + esc_string(v@.take(i as int)),
            decreases n - i,
        {
            let c = v.get_char(i);
            if c == '"' {
                self.push_byte(0x5C);
                self.push_byte(0x22);
            } else if c == '\\' {
                self.push_byte(0x5C);
                self.push_byte(0x5C);
            } else if c == '\u{0008}' {
                self.push_byte(0x5C);
                self.push_byte(0x62);
            } else if c == '\u{0009}' {
                self.push_byte(0x5C);
                self.push_byte(0x74);
            } else if c == '\u{000A}' {
                self.push_byte(0x5C);
                self.push_byte(0x6E);
            } else if c == '\u{000C}' {
                self.push_byte(0x5C);
                self.push_byte(0x66);
            } else if c == '\u{000D}' {
                self.push_byte(0x5C);
                self.push_byte(0x72);
            } else if (c as u32) < 0x20 {
                self.push_byte(0x5C);
                self.push_byte(0x75);
                self.push_byte(0x30);
                self.push_byte(0x30);
                let u: u32 = c as u32;
                let (h1, h2) = hex(u as u8);
                self.push_byte(h1);
                self.push_byte(h2);
                proof {
                    assert(((u as u8) / 16) as u8 == ((u / 16) as u8) && ((u as u8) % 16) as u8 == (
                    (u % 16) as u8)) by (bit_vector)
                        requires
                            u < 0x20,
                    ;
                }
            } else {
                proof {
                    char_is_scalar(c);
                }
                push_scalar_utf8(&mut self.buf, c as u32);
            }
            proof {
                assert(v@.take(i as int + 1) =~= v@.take(i as int).push(v@[i as int]));
                lemma_esc_string_push(v@.take(i as int), v@[i as int]);
                assert(self@ =~= old(self)@ + seq![0x22u8] + esc_string(v@.take(i as int + 1)));
            }
            i = i + 1;
        }
        self.push_byte(0x22);
        proof {
            assert(v@.take(n as int) =~= v@);
            assert(self@ =~= old(self)@ + str_literal(v@));
        }
        Ok(())
    }

    /// Appends the literal `null`.
    pub fn serialize_none(&mut self) -> (r: Result<(), Error>)
        ensures
            final(self)@ == old(self)@ + json_bytes(Value::Null),
            r is Ok,
    {
        self.push_byte(0x6E);
        self.push_byte(0x75);
        self.push_byte(0x6C);
        self.push_byte(0x6C);
        proof {
            assert(self@ =~= old(self)@ + json_bytes(Value::Null));
        }
        Ok(())
    }

    /// Appends a present optional value: the contained value itself.
    pub fn serialize_some(&mut self, value: &Value) -> (r: Result<(), Error>)
        ensures
            final(self)@ == old(self)@ + json_bytes(*value),
            r is Ok,
    {
        self.serialize_value(value)
    }

    /// Appends an enum variant without data: the variant name as a
    /// string literal.
    pub fn serialize_unit_variant(&mut self, _name: &str, _variant_index: u32, variant: &str) -> (r:
        Result<(), Error>)
        ensures
            final(self)@ == old(self)@ + str_literal(variant@),
            r is Ok,
    {
        self.serialize_str(variant)
    }

    /// Appends an enum variant with data: an object with a single key
    /// equal to the variant name.
    pub fn serialize_newtype_variant(
        &mut self,
        _name: &str,
        _variant_index: u32,
        variant: &str,
        value: &Value,
    ) -> (r: Result<(), Error>)
        ensures
            final(self)@ == old(self)@ + seq![0x7Bu8] + str_literal(variant@) + seq![0x3Au8]
                + json_bytes(*value) + seq![0x7Du8],
            r is Ok,
    {
        self.push_byte(0x7B);
        self.serialize_str(variant)?;
        self.push_byte(0x3A);
        self.serialize_value(value)?;
        self.push_byte(0x7D);
        proof {
            assert(self@ =~= old(self)@ + seq![0x7Bu8] + str_literal(variant@) + seq![0x3Au8]
                + json_bytes(*value) + seq![0x7Du8]);
        }
        Ok(())
    }

    /// Opens an array and hands back its assembler.
    pub fn serialize_seq(&mut self, _len: Option<usize>) -> (r: SerializeSeq)
        ensures
            final(self)@ == old(self)@ + seq![0x5Bu8],
            r.first == true,
    {
        self.push_byte(0x5B);
        SerializeSeq { first: true }
    }

    /// Opens an object for a record and hands back its assembler.
    pub fn serialize_struct(&mut self, _name: &str, _len: usize) -> (r: SerializeStruct)
        ensures
            final(self)@ == old(self)@ + seq![0x7Bu8],
            r.first == true,
    {
        self.push_byte(0x7B);
        SerializeStruct { first: true }
    }

    /// Opens the object form of a data-carrying variant whose payload
    /// is a record: `{"variant":{` has been appended when it returns.
    pub fn serialize_struct_variant(
        &mut self,
        name: &str,
        _variant_index: u32,
        variant: &str,
        len: usize,
    ) -> (r: Result<SerializeStruct, Error>)
        ensures
            final(self)@ == old(self)@ + seq![0x7Bu8] + str_literal(variant@) + seq![0x3Au8]
                + seq![0x7Bu8],
            r matches Ok(s) && s.first == true,
    {
        self.push_byte(0x7B);
        self.serialize_str(variant)?;
        self.push_byte(0x3A);
        let s = self.serialize_struct(name, len);
        proof {
            assert(self@ =~= old(self)@ + seq![0x7Bu8] + str_literal(variant@) + seq![0x3Au8]
                + seq![0x7Bu8]);
        }
        Ok(s)
    }

    /// Appends the canonical JSON bytes of a whole value, dispatching
    /// on its shape.
    pub fn serialize_value(&mut self, v: &Value) -> (r: Result<(), Error>)
        ensures
            final(self)@ == old(self)@ + json_bytes(*v),
            r is Ok,
        decreases *v, 0int,
    {
        match v {
            Value::Bool(b) => self.serialize_bool(*b),
            Value::I8(n) => self.serialize_i8(*n),
            Value::I16(n) => self.serialize_i16(*n),
            Value::I32(n) => self.serialize_i32(*n),
            Value::I64(n) => self.serialize_i64(*n),
            Value::U8(n) => self.serialize_u8(*n),
            Value::U16(n) => self.serialize_u16(*n),
            Value::U32(n) => self.serialize_u32(*n),
            Value::U64(n) => self.serialize_u64(*n),
            Value::Str(s) => self.serialize_str(s.as_str()),
            Value::Null => self.serialize_none(),
            Value::Array(elems) => {
                let mut assembler = self.serialize_seq(Some(elems.len()));
                let mut i: usize = 0;
                while i < elems.len()
                    invariant
                        i <= elems@.len(),
                        self@ == old(self)@ + seq![0x5Bu8] + json_items(elems@.take(i as int)),
                        assembler.first == (i == 0),
                        decreases_to!(*v => elems@),
                    decreases elems@.len() - i,
                {
                    proof {
                        assert(decreases_to!(elems@ => elems@[i as int]));
                    }
                    assembler.serialize_element(&mut *self, &elems[i])?;
                    proof {
                        lemma_json_items_push(elems@.take(i as int), elems@[i as int]);
                        assert(elems@.take(i as int + 1) =~= elems@.take(i as int).push(
                            elems@[i as int],
                        ));
                        assert(self@ =~= old(self)@ + seq![0x5Bu8] + json_items(elems@.take(
                            i as int + 1,
                        )));
                    }
                    i = i + 1;
                }
                proof {
                    assert(elems@.take(elems@.len() as int) =~= elems@);
                }
                let r = assembler.end(&mut *self);
                proof {
                    assert(self@ =~= old(self)@ + json_bytes(*v));
                }
                r
            },
            Value::Record(fields) => {
                let mut assembler = self.serialize_struct("", fields.len());
                let mut i: usize = 0;
                while i < fields.len()
                    invariant
                        i <= fields@.len(),
                        self@ == old(self)@ + seq![0x7Bu8] + json_members(fields@.take(i as int)),
                        assembler.first == (i == 0),
                        decreases_to!(*v => fields@),
                    decreases fields@.len() - i,
                {
                    proof {
                        assert(decreases_to!(fields@ => fields@[i as int]));
                    }
                    let field = &fields[i];
                    assembler.serialize_field(&mut *self, field.0.as_str(), &field.1)?;
                    proof {
                        lemma_json_members_push(fields@.take(i as int), fields@[i as int]);
                        assert(fields@.take(i as int + 1) =~= fields@.take(i as int).push(
                            fields@[i as int],
                        ));
                        assert(self@ =~= old(self)@ + seq![0x7Bu8] + json_members(fields@.take(
                            i as int + 1,
                        )));
                    }
                    i = i + 1;
                }
                proof {
                    assert(fields@.take(fields@.len() as int) =~= fields@);
                }
                let r = assembler.end(&mut *self);
                proof {
                    assert(self@ =~= old(self)@ + json_bytes(*v));
                }
                r
            },
            Value::UnitVariant(name) => self.serialize_str(name.as_str()),
            Value::DataVariant(name, payload) => {
                self.push_byte(0x7B);
                self.serialize_str(name.as_str())?;
                self.push_byte(0x3A);
                self.serialize_value(&**payload)?;
                self.push_byte(0x7D);
                proof {
                    assert(self@ =~= old(self)@ + json_bytes(*v));
                }
                Ok(())
            },
        }
    }
}

/// Assembles an array: tracks whether an element was already emitted,
/// so that a `,` stands before every element except the first.
pub struct SerializeSeq {
    pub first: bool,
}

impl SerializeSeq {
    /// Appends one element, preceded by `,` unless it is the first.
    pub fn serialize_element(&mut self, ser: &mut Serializer, value: &Value) -> (r: Result<
        (),
        Error,
    >)
        ensures
            final(ser)@ == old(ser)@ + (if old(self).first {
                Seq::<u8>::empty()
            } else {
                seq![0x2Cu8]
            }) + json_bytes(*value),
            final(self).first == false,
            r is Ok,
        decreases *value, 1int,
    {
        if !self.first {
            ser.push_byte(0x2C);
        }
        self.first = false;
        ser.serialize_value(value)?;
        proof {
            assert(ser@ =~= old(ser)@ + (if old(self).first {
                Seq::<u8>::empty()
            } else {
                seq![0x2Cu8]
            }) + json_bytes(*value));
        }
        Ok(())
    }

    /// Closes the array.
    pub fn end(self, ser: &mut Serializer) -> (r: Result<(), Error>)
        ensures
            final(ser)@ == old(ser)@ + seq![0x5Du8],
            r is Ok,
    {
        ser.push_byte(0x5D);
        Ok(())
    }
}

/// Assembles an object from named fields: tracks whether a member was
/// already emitted, so that a `,` stands before every member except
/// the first.
pub struct SerializeStruct {
    pub first: bool,
}

impl SerializeStruct {
    /// Appends one member: the field name as a string literal, `:`,
    /// and the field value, preceded by `,` unless it is the first.
    pub fn serialize_field(&mut self, ser: &mut Serializer, name: &str, value: &Value) -> (r:
        Result<(), Error>)
        ensures
            final(ser)@ == old(ser)@ + (if old(self).first {
                Seq::<u8>::empty()
            } else {
                seq![0x2Cu8]
            }) + str_literal(name@) + seq![0x3Au8] + json_bytes(*value),
            final(self).first == false,
            r is Ok,
        decreases *value, 1int,
    {
        if !self.first {
            ser.push_byte(0x2C);
        }
        self.first = false;
        ser.serialize_str(name)?;
        ser.push_byte(0x3A);
        ser.serialize_value(value)?;
        proof {
            assert(ser@ =~= old(ser)@ + (if old(self).first {
                Seq::<u8>::empty()
            } else {
                seq![0x2Cu8]
            }) + str_literal(name@) + seq![0x3Au8] + json_bytes(*value));
        }
        Ok(())
    }

    /// Closes the object.
    pub fn end(self, ser: &mut Serializer) -> (r: Result<(), Error>)
        ensures
            final(ser)@ == old(ser)@ + seq![0x7Du8],
            r is Ok,
    {
        ser.push_byte(0x7D);
        Ok(())
    }
}

/// The map-key gate: assembles an object from key/value pairs while
/// restricting keys to string-producing values. Canonical JSON forbids
/// non-string object keys, and this assembler is the single point that
/// enforces it: handing it a non-string key is a caller contract
/// violation, excluded by `requires`.
pub struct SerializeMap {
    pub first: bool,
}

impl SerializeMap {
    /// A map assembler for an object whose `{` the caller has emitted.
    pub fn new() -> (r: SerializeMap)
        ensures
            r.first == true,
    {
        SerializeMap { first: true }
    }

    /// Appends one key as a string literal followed by `:`, preceded
    /// by `,` unless it is the first. Only string values are accepted
    /// as keys.
    pub fn serialize_key(&mut self, ser: &mut Serializer, key: &Value) -> (r: Result<(), Error>)
        requires
            *key matches Value::Str(_),
        ensures
            *key matches Value::Str(s) ==> final(ser)@ == old(ser)@ + (if old(self).first {
                Seq::<u8>::empty()
            } else {
                seq![0x2Cu8]
            }) + str_literal(s@) + seq![0x3Au8],
            final(self).first == false,
            r is Ok,
    {
        if !self.first {
            ser.push_byte(0x2C);
        }
        self.first = false;
        match key {
            Value::Str(s) => {
                ser.serialize_str(s.as_str())?;
                ser.push_byte(0x3A);
                proof {
                    assert(ser@ =~= old(ser)@ + (if old(self).first {
                        Seq::<u8>::empty()
                    } else {
                        seq![0x2Cu8]
                    }) + str_literal(s@) + seq![0x3Au8]);
                }
                Ok(())
            },
            _ => vstd::pervasive::unreached(),
        }
    }

    /// Appends one value.
    pub fn serialize_value(&mut self, ser: &mut Serializer, value: &Value) -> (r: Result<
        (),
        Error,
    >)
        ensures
            final(ser)@ == old(ser)@ + json_bytes(*value),
            final(self).first == old(self).first,
            r is Ok,
    {
        ser.serialize_value(value)
    }

    /// Closes the object.
    pub fn end(self, ser: &mut Serializer) -> (r: Result<(), Error>)
        ensures
            final(ser)@ == old(ser)@ + seq![0x7Du8],
            r is Ok,
    {
        ser.push_byte(0x7D);
        Ok(())
    }
}

/// Placeholder for value shapes this codec does not support (floating
/// point, raw byte strings, unit values, tuples, multi-key maps with
/// non-string keys). No constructor is exposed, so no code path can
/// reach an unsupported shape through it.
pub struct Unreachable {
    _never: (),
}

/// Serializes the given value as a JSON byte vector.
pub fn to_vec(value: &Value) -> (r: Result<Vec<u8>, Error>)
    ensures
        r matches Ok(b) && b@ == json_bytes(*value),
{
    let mut ser = Serializer::new();
    ser.serialize_value(value)?;
    Ok(ser.buf)
}

/// Serializes the given value as a string of JSON text.
pub fn to_string(value: &Value) -> (r: Result<String, Error>)
    ensures
        r matches Ok(s) && encode_utf8(s@) == json_bytes(*value) && s@ == decode_utf8(
            json_bytes(*value),
        ),
{
    let b = to_vec(value)?;
    proof {
        lemma_json_bytes_valid_utf8(*value);
    }
    match bytes_to_string(b) {
        Some(s) => {
            proof {
                vstd::utf8::decode_utf8_encode_utf8(json_bytes(*value));
            }
            Ok(s)
        },
        // The encoder only writes valid UTF-8, so the conversion
        // cannot fail.
        None => vstd::pervasive::unreached(),
    }
}

} // verus!
