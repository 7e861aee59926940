//! The string-literal escape decoder: reconstructs UTF-8 text from the
//! raw bytes of a JSON string literal body.
//!
//! `unescape_bytes` is the specification of the whole escape grammar:
//! it maps an input byte sequence either to the decoded output bytes or
//! to the error the scan stops with. The executable `unescape` walks the
//! input once, left to right, and finally validates that the collected
//! bytes form UTF-8 text. An external JSON parser is expected to strip
//! the surrounding quotes and hand this decoder the body only.

use vstd::prelude::*;
use vstd::utf8::{decode_utf8, encode_scalar, valid_utf8};
use crate::value::push_scalar_utf8;
use crate::value::bytes_to_string;

verus! {

/// All errors the decoder can signal.
#[derive(Clone, Copy, Debug, PartialEq, Eq)]
pub enum Error {
    /// A backslash sequence that is not one of the eight short escapes
    /// or a well-formed 4-hex-digit `\u` sequence with a valid scalar
    /// value, or input that ended in the middle of an escape.
    InvalidEscape,
    /// The decoded output as a whole is not valid UTF-8 text.
    InvalidUnicodeCodePoint,
}

/// True for the ASCII bytes `0`-`9`, `A`-`F` and `a`-`f`.
pub open spec fn is_hex_digit(b: u8) -> bool {
    (0x30 <= b && b <= 0x39) || (0x41 <= b && b <= 0x46) || (0x61 <= b && b <= 0x66)
}

/// The numeric value of one hex digit byte.
pub open spec fn hex_value(b: u8) -> u8
    recommends
        is_hex_digit(b),
{
    if 0x30 <= b && b <= 0x39 {
        (b - 0x30) as u8
    } else if 0x41 <= b && b <= 0x46 {
        (b - 0x41 + 10) as u8
    } else {
        (b - 0x61 + 10) as u8
    }
}

/// The 16-bit codepoint written by four hex digit bytes, high first.
pub open spec fn hex_quad(a: u8, b: u8, c: u8, d: u8) -> u32 {
    ((hex_value(a) as int) * 0x1000 + (hex_value(b) as int) * 0x100 + (hex_value(c) as int) * 0x10
        + (hex_value(d) as int)) as u32
}

/// Prefixes the decoded bytes of a successful scan; an error passes
/// through unchanged, as the scan stops at the first malformed escape.
pub open spec fn with_prefix(p: Seq<u8>, r: Result<Seq<u8>, Error>) -> Result<Seq<u8>, Error> {
    match r {
        Ok(t) => Ok(p + t),
        Err(e) => Err(e),
    }
}

/// The meaning of the escape grammar: the decoded bytes of the whole
/// input, or the error the scan stops with.
///
/// A byte other than `\` passes through verbatim (multi-byte UTF-8
/// sequences contain no byte equal to ASCII `\`, so they pass through
/// unsplit). After a `\`: the three literal escapes and the five
/// control escapes produce their byte; `u` must be followed by exactly
/// four hex digits whose value is not a UTF-16 surrogate, and produces
/// the minimal UTF-8 encoding of that scalar; anything else, or input
/// ending mid-escape, is an invalid escape.
pub open spec fn unescape_bytes(s: Seq<u8>) -> Result<Seq<u8>, Error>
    decreases s.len(),
{
    if s.len() == 0 {
        Ok(Seq::empty())
    } else if s[0] == 0x5C {
        if s.len() == 1 {
            Err(Error::InvalidEscape)
        } else {
            let e = s[1];
            if e == 0x22 || e == 0x2F || e == 0x5C {
                with_prefix(seq![e], unescape_bytes(s.skip(2)))
            } else if e == 0x62 {
                with_prefix(seq![0x08u8], unescape_bytes(s.skip(2)))
            } else if e == 0x66 {
                with_prefix(seq![0x0Cu8], unescape_bytes(s.skip(2)))
            } else if e == 0x6E {
                with_prefix(seq![0x0Au8], unescape_bytes(s.skip(2)))
            } else if e == 0x72 {
                with_prefix(seq![0x0Du8], unescape_bytes(s.skip(2)))
            } else if e == 0x74 {
                with_prefix(seq![0x09u8], unescape_bytes(s.skip(2)))
            } else if e == 0x75 {
                if s.len() >= 6 && is_hex_digit(s[2]) && is_hex_digit(s[3]) && is_hex_digit(s[4])
                    && is_hex_digit(s[5]) {
                    let cp = hex_quad(s[2], s[3], s[4], s[5]);
                    if 0xD800 <= cp && cp <= 0xDFFF {
                        Err(Error::InvalidEscape)
                    } else {
                        with_prefix(encode_scalar(cp), unescape_bytes(s.skip(6)))
                    }
                } else {
                    Err(Error::InvalidEscape)
                }
            } else {
                Err(Error::InvalidEscape)
            }
        }
    } else {
        with_prefix(seq![s[0]], unescape_bytes(s.skip(1)))
    }
}

/// Decodes a single hex digit byte into its numeric value: ASCII
/// `0`-`9` to 0-9, `A`-`F` and `a`-`f` to 10-15.
pub fn hex_decode_4bit(x: u8) -> (r: u8)
    requires
        is_hex_digit(x),
    ensures
        r == hex_value(x),
{
    if 0x30 <= x && x <= 0x39 {
        x - 0x30
    } else if 0x41 <= x && x <= 0x46 {
        x - 0x41 + 10
    } else {
        x - 0x61 + 10
    }
}

/// Decodes four hex digit bytes into a 16-bit value between 0x0000 and
/// 0xFFFF, i.e. a codepoint in the Basic Multilingual Plane.
pub fn hex_decode(a: u8, b: u8, c: u8, d: u8) -> (r: u32)
    requires
        is_hex_digit(a),
        is_hex_digit(b),
        is_hex_digit(c),
        is_hex_digit(d),
    ensures
        r == hex_quad(a, b, c, d),
        r <= 0xFFFF,
{
    let ha = hex_decode_4bit(a) as u32;
    let hb = hex_decode_4bit(b) as u32;
    let hc = hex_decode_4bit(c) as u32;
    let hd = hex_decode_4bit(d) as u32;
    proof {
        assert(ha < 16 && hb < 16 && hc < 16 && hd < 16);
        assert((ha << 12) | (hb << 8) | (hc << 4) | hd == ha * 0x1000 + hb * 0x100 + hc * 0x10
            + hd) by (bit_vector)
            requires
                ha < 16 && hb < 16 && hc < 16 && hd < 16,
        ;
    }
    (ha << 12) | (hb << 8) | (hc << 4) | hd
}

/// Exact comparison of one byte against the hex digit ranges.
fn is_hex(x: u8) -> (r: bool)
    ensures
        r == is_hex_digit(x),
{
    (0x30 <= x && x <= 0x39) || (0x41 <= x && x <= 0x46) || (0x61 <= x && x <= 0x66)
}

/// Composing prefixes of a successful scan one byte at a time agrees
/// with composing them in one step.
pub proof fn lemma_with_prefix_assoc(p: Seq<u8>, q: Seq<u8>, r: Result<Seq<u8>, Error>)
    ensures
        with_prefix(p, with_prefix(q, r)) == with_prefix(p + q, r),
{
    match r {
        Ok(t) => {
            assert(p + (q + t) =~= (p + q) + t);
        },
        Err(_) => {},
    }
}

/// Reconstructs the UTF-8 string whose escaped form is `source`.
///
/// `source` holds the bytes of a JSON string literal body, without the
/// surrounding quotes. The result is the decoded text; the scan fails
/// with `InvalidEscape` exactly where the escape grammar does, and with
/// `InvalidUnicodeCodePoint` when the grammar succeeds but the decoded
/// bytes are not valid UTF-8.
pub fn unescape(source: &[u8]) -> (r: Result<String, Error>)
    ensures
        match unescape_bytes(source@) {
            Ok(b) => if valid_utf8(b) {
                r matches Ok(s) && s@ == decode_utf8(b)
            } else {
                r == Err::<String, Error>(Error::InvalidUnicodeCodePoint)
            },
            Err(e) => r == Err::<String, Error>(e),
        },
{
    let n = source.len();
    let mut out: Vec<u8> = Vec::with_capacity(n);
    let mut i: usize = 0;
    proof {
        assert(source@.skip(0) =~= source@);
        match unescape_bytes(source@) {
            Ok(t) => {
                assert(Seq::<u8>::empty() + t =~= t);
            },
            Err(_) => {},
        }
    }
    while i < n
        invariant
            i <= n,
            n == source@.len(),
            unescape_bytes(source@) == with_prefix(out@, unescape_bytes(source@.skip(i as int))),
        decreases n - i,
    {
        let ghost pre = out@;
        let ghost rest = source@.skip(i as int);
        let b = source[i];
        proof {
            assert(rest[0] == source@[i as int]);
        }
        if b == 0x5C {
            if n - i == 1 {
                // A lone trailing backslash: input ended mid-escape.
                proof {
                    assert(rest.len() == 1);
                    assert(unescape_bytes(rest) == Err::<Seq<u8>, Error>(Error::InvalidEscape));
                }
                return Err(Error::InvalidEscape);
            }
            let e = source[i + 1];
            proof {
                assert(rest[1] == source@[i as int + 1]);
            }
            if e == 0x22 || e == 0x2F || e == 0x5C {
                out.push(e);
                i = i + 2;
                proof {
                    assert(rest.skip(2) =~= source@.skip(i as int));
                    lemma_with_prefix_assoc(pre, seq![e], unescape_bytes(source@.skip(i as int)));
                    assert(pre + seq![e] =~= out@);
                }
            } else if e == 0x62 {
                out.push(0x08);
                i = i + 2;
                proof {
                    assert(rest.skip(2) =~= source@.skip(i as int));
                    lemma_with_prefix_assoc(
                        pre,
                        seq![0x08u8],
                        unescape_bytes(source@.skip(i as int)),
                    );
                    assert(pre + seq![0x08u8] =~= out@);
                }
            } else if e == 0x66 {
                out.push(0x0C);
                i = i + 2;
                proof {
                    assert(rest.skip(2) =~= source@.skip(i as int));
                    lemma_with_prefix_assoc(
                        pre,
                        seq![0x0Cu8],
                        unescape_bytes(source@.skip(i as int)),
                    );
                    assert(pre + seq![0x0Cu8] =~= out@);
                }
            } else if e == 0x6E {
                out.push(0x0A);
                i = i + 2;
                proof {
                    assert(rest.skip(2) =~= source@.skip(i as int));
                    lemma_with_prefix_assoc(
                        pre,
                        seq![0x0Au8],
                        unescape_bytes(source@.skip(i as int)),
                    );
                    assert(pre + seq![0x0Au8] =~= out@);
                }
            } else if e == 0x72 {
                out.push(0x0D);
                i = i + 2;
                proof {
                    assert(rest.skip(2) =~= source@.skip(i as int));
                    lemma_with_prefix_assoc(
                        pre,
                        seq![0x0Du8],
                        unescape_bytes(source@.skip(i as int)),
                    );
                    assert(pre + seq![0x0Du8] =~= out@);
                }
            } else if e == 0x74 {
                out.push(0x09);
                i = i + 2;
                proof {
                    assert(rest.skip(2) =~= source@.skip(i as int));
                    lemma_with_prefix_assoc(
                        pre,
                        seq![0x09u8],
                        unescape_bytes(source@.skip(i as int)),
                    );
                    assert(pre + seq![0x09u8] =~= out@);
                }
            } else if e == 0x75 {
                if n - i < 6 {
                    // Input ended inside a `\u` escape.
                    proof {
                        assert(rest.len() < 6);
                        assert(unescape_bytes(rest) == Err::<Seq<u8>, Error>(Error::InvalidEscape));
                    }
                    return Err(Error::InvalidEscape);
                }
                let d0 = source[i + 2];
                let d1 = source[i + 3];
                let d2 = source[i + 4];
                let d3 = source[i + 5];
                proof {
                    assert(rest[2] == source@[i as int + 2]);
                    assert(rest[3] == source@[i as int + 3]);
                    assert(rest[4] == source@[i as int + 4]);
                    assert(rest[5] == source@[i as int + 5]);
                }
                if !(is_hex(d0) && is_hex(d1) && is_hex(d2) && is_hex(d3)) {
                    proof {
                        assert(unescape_bytes(rest) == Err::<Seq<u8>, Error>(Error::InvalidEscape));
                    }
                    return Err(Error::InvalidEscape);
                }
                let cp = hex_decode(d0, d1, d2, d3);
                if 0xD800 <= cp && cp <= 0xDFFF {
                    // A lone UTF-16 surrogate is not a Unicode scalar.
                    proof {
                        assert(unescape_bytes(rest) == Err::<Seq<u8>, Error>(Error::InvalidEscape));
                    }
                    return Err(Error::InvalidEscape);
                }
                push_scalar_utf8(&mut out, cp);
                i = i + 6;
                proof {
                    assert(rest.skip(6) =~= source@.skip(i as int));
                    lemma_with_prefix_assoc(
                        pre,
                        encode_scalar(cp),
                        unescape_bytes(source@.skip(i as int)),
                    );
                    assert(pre + encode_scalar(cp) =~= out@);
                }
            } else {
                proof {
                    assert(unescape_bytes(rest) == Err::<Seq<u8>, Error>(Error::InvalidEscape));
                }
                return Err(Error::InvalidEscape);
            }
        } else {
            out.push(b);
            i = i + 1;
            proof {
                assert(rest.skip(1) =~= source@.skip(i as int));
                lemma_with_prefix_assoc(pre, seq![b], unescape_bytes(source@.skip(i as int)));
                assert(pre + seq![b] =~= out@);
            }
        }
    }
    proof {
        assert(source@.skip(n as int) =~= Seq::<u8>::empty());
        assert(unescape_bytes(Seq::<u8>::empty()) == Ok::<Seq<u8>, Error>(Seq::empty()));
        assert(out@ + Seq::<u8>::empty() =~= out@);
        assert(unescape_bytes(source@) == Ok::<Seq<u8>, Error>(out@));
    }
    match bytes_to_string(out) {
        Some(s) => Ok(s),
        None => Err(Error::InvalidUnicodeCodePoint),
    }
}

} // verus!
