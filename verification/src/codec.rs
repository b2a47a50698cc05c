//! Transport-safe text encoding of byte buffers: standard base64 with
//! padding.
//!
//! Ciphertext and IV buffers are stored in a text-only backend, so they are
//! encoded to the standard base64 alphabet (`A`-`Z`, `a`-`z`, `0`-`9`, `+`,
//! `/`, pad `=`) before writing and decoded after reading. Decoding rejects
//! malformed input, which only arises if the backing store was tampered with
//! or written by an incompatible version.

use vstd::prelude::*;
use crate::error::Error;
use crate::text::{ascii_chars_of, lemma_ascii_bytes_to_chars, lemma_ascii_encoding_determines_chars,
    string_from_utf8};
use vstd::utf8::*;

verus! {

/// The pad byte, ASCII `=`.
pub const PAD_BYTE: u8 = 61;

/// The alphabet byte for a six-bit value.
pub open spec fn b64_byte(v: u8) -> u8
    recommends
        v < 64,
{
    if v < 26 {
        (65 + v) as u8
    } else if v < 52 {
        (97 + (v - 26)) as u8
    } else if v < 62 {
        (48 + (v - 52)) as u8
    } else if v == 62 {
        43u8
    } else {
        47u8
    }
}

/// The six-bit value of an alphabet byte, or -1 for a byte outside the
/// alphabet.
pub open spec fn b64_val(b: u8) -> int {
    if 65 <= b < 91 {
        b - 65
    } else if 97 <= b < 123 {
        (b - 97) + 26
    } else if 48 <= b < 58 {
        (b - 48) + 52
    } else if b == 43 {
        62
    } else if b == 47 {
        63
    } else {
        -1
    }
}

/// Whether a byte belongs to the base64 alphabet.
pub open spec fn is_b64_byte(b: u8) -> bool {
    b64_val(b) >= 0
}

/// The alphabet is below 0x80, never the pad byte, and reading a value back
/// from its alphabet byte returns the value.
pub proof fn lemma_b64_byte_val(v: u8)
    requires
        v < 64,
    ensures
        b64_byte(v) < 128,
        b64_byte(v) != PAD_BYTE,
        b64_val(b64_byte(v)) == v,
{
}

/// The four alphabet bytes of one full three-byte group.
pub open spec fn encode_group(b0: u8, b1: u8, b2: u8) -> Seq<u8> {
    seq![
        b64_byte(b0 >> 2),
        b64_byte(((b0 & 3) << 4) | (b1 >> 4)),
        b64_byte(((b1 & 15) << 2) | (b2 >> 6)),
        b64_byte(b2 & 63),
    ]
}

/// The final four bytes when one input byte remains: two alphabet bytes and
/// two pads.
pub open spec fn encode_tail1(b0: u8) -> Seq<u8> {
    seq![b64_byte(b0 >> 2), b64_byte((b0 & 3) << 4), PAD_BYTE, PAD_BYTE]
}

/// The final four bytes when two input bytes remain: three alphabet bytes
/// and one pad.
pub open spec fn encode_tail2(b0: u8, b1: u8) -> Seq<u8> {
    seq![
        b64_byte(b0 >> 2),
        b64_byte(((b0 & 3) << 4) | (b1 >> 4)),
        b64_byte((b1 & 15) << 2),
        PAD_BYTE,
    ]
}

/// The base64 encoding of a byte buffer, as ASCII bytes.
pub open spec fn spec_encode_bytes(s: Seq<u8>) -> Seq<u8>
    decreases s.len(),
{
    if s.len() == 0 {
        Seq::empty()
    } else if s.len() == 1 {
        encode_tail1(s[0])
    } else if s.len() == 2 {
        encode_tail2(s[0], s[1])
    } else {
        encode_group(s[0], s[1], s[2]) + spec_encode_bytes(s.skip(3))
    }
}

/// Whether an ASCII buffer is well-formed base64: a whole number of
/// four-byte groups, all alphabet bytes, except that the final group may end
/// in one or two pad bytes.
pub open spec fn spec_valid_bytes(s: Seq<u8>) -> bool
    decreases s.len(),
{
    if s.len() == 0 {
        true
    } else if s.len() < 4 {
        false
    } else if s.len() == 4 {
        &&& is_b64_byte(s[0])
        &&& is_b64_byte(s[1])
        &&& {
            ||| is_b64_byte(s[2]) && is_b64_byte(s[3])
            ||| is_b64_byte(s[2]) && s[3] == PAD_BYTE
            ||| s[2] == PAD_BYTE && s[3] == PAD_BYTE
        }
    } else {
        &&& is_b64_byte(s[0])
        &&& is_b64_byte(s[1])
        &&& is_b64_byte(s[2])
        &&& is_b64_byte(s[3])
        &&& spec_valid_bytes(s.skip(4))
    }
}

/// The three bytes spelled by four six-bit values.
pub open spec fn decode_group(v0: u8, v1: u8, v2: u8, v3: u8) -> Seq<u8> {
    seq![(v0 << 2) | (v1 >> 4), (v1 << 4) | (v2 >> 2), (v2 << 6) | v3]
}

/// The bytes a well-formed base64 buffer decodes to; surplus bits in a
/// final partial group are ignored.
pub open spec fn spec_decode_bytes(s: Seq<u8>) -> Seq<u8>
    recommends
        spec_valid_bytes(s),
    decreases s.len(),
{
    if s.len() < 4 {
        Seq::empty()
    } else {
        let v0 = b64_val(s[0]) as u8;
        let v1 = b64_val(s[1]) as u8;
        let v2 = b64_val(s[2]) as u8;
        let v3 = b64_val(s[3]) as u8;
        if s.len() == 4 {
            if s[3] != PAD_BYTE {
                decode_group(v0, v1, v2, v3)
            } else if s[2] != PAD_BYTE {
                seq![(v0 << 2) | (v1 >> 4), (v1 << 4) | (v2 >> 2)]
            } else {
                seq![(v0 << 2) | (v1 >> 4)]
            }
        } else {
            decode_group(v0, v1, v2, v3) + spec_decode_bytes(s.skip(4))
        }
    }
}

/// Splitting a byte into six-bit values and reassembling it gives the byte
/// back, for each of the three positions of a group.
proof fn lemma_group_bits(b0: u8, b1: u8, b2: u8)
    ensures
        b0 >> 2 < 64,
        ((b0 & 3) << 4) | (b1 >> 4) < 64,
        ((b1 & 15) << 2) | (b2 >> 6) < 64,
        b2 & 63 < 64,
        ((b0 >> 2) << 2) | ((((b0 & 3) << 4) | (b1 >> 4)) >> 4) == b0,
        ((((b0 & 3) << 4) | (b1 >> 4)) << 4) | ((((b1 & 15) << 2) | (b2 >> 6)) >> 2) == b1,
        ((((b1 & 15) << 2) | (b2 >> 6)) << 6) | (b2 & 63) == b2,
{
    assert(b0 >> 2 < 64) by (bit_vector);
    assert(((b0 & 3) << 4) | (b1 >> 4) < 64) by (bit_vector);
    assert(((b1 & 15) << 2) | (b2 >> 6) < 64) by (bit_vector);
    assert(b2 & 63 < 64) by (bit_vector);
    assert(((b0 >> 2) << 2) | ((((b0 & 3) << 4) | (b1 >> 4)) >> 4) == b0) by (bit_vector);
    assert(((((b0 & 3) << 4) | (b1 >> 4)) << 4) | ((((b1 & 15) << 2) | (b2 >> 6)) >> 2) == b1)
        by (bit_vector);
    assert(((((b1 & 15) << 2) | (b2 >> 6)) << 6) | (b2 & 63) == b2) by (bit_vector);
}

/// Encoding yields only bytes below 0x80.
pub proof fn lemma_encode_ascii(s: Seq<u8>)
    ensures
        forall|i: int| 0 <= i < spec_encode_bytes(s).len() ==> spec_encode_bytes(s)[i] < 128,
    decreases s.len(),
{
    if s.len() == 0 {
    } else if s.len() == 1 {
        let b0 = s[0];
        lemma_group_bits(b0, 0, 0);
        assert((b0 & 3) << 4 < 64) by (bit_vector);
        lemma_b64_byte_val(b0 >> 2);
        lemma_b64_byte_val((b0 & 3) << 4);
    } else if s.len() == 2 {
        let b0 = s[0];
        let b1 = s[1];
        lemma_group_bits(b0, b1, 0);
        assert((b1 & 15) << 2 < 64) by (bit_vector);
        lemma_b64_byte_val(b0 >> 2);
        lemma_b64_byte_val(((b0 & 3) << 4) | (b1 >> 4));
        lemma_b64_byte_val((b1 & 15) << 2);
    } else {
        lemma_group_bits(s[0], s[1], s[2]);
        lemma_b64_byte_val(s[0] >> 2);
        lemma_b64_byte_val(((s[0] & 3) << 4) | (s[1] >> 4));
        lemma_b64_byte_val(((s[1] & 15) << 2) | (s[2] >> 6));
        lemma_b64_byte_val(s[2] & 63);
        lemma_encode_ascii(s.skip(3));
        assert forall|i: int| 0 <= i < spec_encode_bytes(s).len() implies spec_encode_bytes(
            s,
        )[i] < 128 by {
            if i >= 4 {
                assert(spec_encode_bytes(s)[i] == spec_encode_bytes(s.skip(3))[i - 4]);
            }
        };
    }
}

/// The encoded length: four bytes for every started group of three.
pub proof fn lemma_encode_len(s: Seq<u8>)
    ensures
        spec_encode_bytes(s).len() == 4 * ((s.len() + 2) / 3),
        s.len() > 0 ==> spec_encode_bytes(s).len() >= 4,
    decreases s.len(),
{
    if s.len() <= 2 {
    } else {
        lemma_encode_len(s.skip(3));
    }
}

/// Encoding always produces well-formed base64, and decoding it returns the
/// original bytes.
pub proof fn lemma_encode_decode(s: Seq<u8>)
    ensures
        spec_valid_bytes(spec_encode_bytes(s)),
        spec_decode_bytes(spec_encode_bytes(s)) == s,
    decreases s.len(),
{
    let e = spec_encode_bytes(s);
    if s.len() == 0 {
    } else if s.len() == 1 {
        let b0 = s[0];
        lemma_group_bits(b0, 0, 0);
        lemma_b64_byte_val(b0 >> 2);
        assert((b0 & 3) << 4 < 64) by (bit_vector);
        lemma_b64_byte_val((b0 & 3) << 4);
        assert((b0 & 3) << 4 == ((b0 & 3) << 4) | (0u8 >> 4)) by (bit_vector);
        assert(spec_decode_bytes(e) =~= s);
    } else if s.len() == 2 {
        let b0 = s[0];
        let b1 = s[1];
        lemma_group_bits(b0, b1, 0);
        lemma_b64_byte_val(b0 >> 2);
        lemma_b64_byte_val(((b0 & 3) << 4) | (b1 >> 4));
        assert((b1 & 15) << 2 < 64) by (bit_vector);
        lemma_b64_byte_val((b1 & 15) << 2);
        assert((b1 & 15) << 2 == ((b1 & 15) << 2) | (0u8 >> 6)) by (bit_vector);
        assert(spec_decode_bytes(e) =~= s);
    } else {
        let b0 = s[0];
        let b1 = s[1];
        let b2 = s[2];
        let rest = s.skip(3);
        lemma_group_bits(b0, b1, b2);
        lemma_b64_byte_val(b0 >> 2);
        lemma_b64_byte_val(((b0 & 3) << 4) | (b1 >> 4));
        lemma_b64_byte_val(((b1 & 15) << 2) | (b2 >> 6));
        lemma_b64_byte_val(b2 & 63);
        lemma_encode_decode(rest);
        lemma_encode_len(rest);
        assert(e == encode_group(b0, b1, b2) + spec_encode_bytes(rest));
        if rest.len() == 0 {
            assert(e.len() == 4);
            assert(spec_decode_bytes(e) =~= s);
        } else {
            assert(e.len() > 4);
            assert(e.skip(4) =~= spec_encode_bytes(rest));
            assert(spec_valid_bytes(e));
            assert(decode_group(
                b64_val(e[0]) as u8,
                b64_val(e[1]) as u8,
                b64_val(e[2]) as u8,
                b64_val(e[3]) as u8,
            ) =~= seq![b0, b1, b2]);
            assert(spec_decode_bytes(e) =~= seq![b0, b1, b2] + spec_decode_bytes(e.skip(4)));
            assert(spec_decode_bytes(e) =~= s);
        }
    }
}

/// Encoding is injective: distinct buffers have distinct encodings.
pub proof fn lemma_encode_injective(a: Seq<u8>, b: Seq<u8>)
    requires
        spec_encode_bytes(a) == spec_encode_bytes(b),
    ensures
        a == b,
{
    lemma_encode_decode(a);
    lemma_encode_decode(b);
}

/// Encoding a buffer that splits before a group boundary encodes the two
/// parts independently.
pub proof fn lemma_encode_append(s1: Seq<u8>, s2: Seq<u8>)
    requires
        s1.len() % 3 == 0,
    ensures
        spec_encode_bytes(s1 + s2) == spec_encode_bytes(s1) + spec_encode_bytes(s2),
    decreases s1.len(),
{
    if s1.len() == 0 {
        assert(s1 + s2 =~= s2);
        assert(spec_encode_bytes(s1) + spec_encode_bytes(s2) =~= spec_encode_bytes(s2));
    } else {
        let t = s1 + s2;
        assert(t.skip(3) =~= s1.skip(3) + s2);
        lemma_encode_append(s1.skip(3), s2);
        assert(spec_encode_bytes(t) =~= spec_encode_bytes(s1) + spec_encode_bytes(s2));
    }
}

/// Well-formed base64 is a whole number of four-byte groups.
pub proof fn lemma_valid_multiple(s: Seq<u8>)
    ensures
        spec_valid_bytes(s) ==> s.len() % 4 == 0,
    decreases s.len(),
{
    if s.len() > 4 {
        lemma_valid_multiple(s.skip(4));
    }
}

/// The base64 encoding of a byte buffer, as text.
pub open spec fn spec_encode(s: Seq<u8>) -> Seq<char> {
    ascii_chars_of(spec_encode_bytes(s))
}

/// Whether a text is well-formed base64.
pub open spec fn spec_text_valid(s: Seq<char>) -> bool {
    is_ascii_chars(s) && spec_valid_bytes(encode_utf8(s))
}

/// The bytes a well-formed base64 text decodes to.
pub open spec fn spec_text_decode(s: Seq<char>) -> Seq<u8> {
    spec_decode_bytes(encode_utf8(s))
}

/// An encoded buffer is well-formed base64 text and decodes to the original
/// bytes.
pub proof fn lemma_text_round_trip(s: Seq<u8>)
    ensures
        spec_text_valid(spec_encode(s)),
        spec_text_decode(spec_encode(s)) == s,
{
    lemma_encode_ascii(s);
    lemma_encode_decode(s);
    lemma_ascii_bytes_to_chars(spec_encode_bytes(s));
}

/// Encoding distinct buffers gives distinct texts.
pub proof fn lemma_text_injective(a: Seq<u8>, b: Seq<u8>)
    requires
        spec_encode(a) == spec_encode(b),
    ensures
        a == b,
{
    lemma_text_round_trip(a);
    lemma_text_round_trip(b);
    lemma_encode_ascii(a);
    lemma_encode_ascii(b);
    lemma_ascii_bytes_to_chars(spec_encode_bytes(a));
    lemma_ascii_bytes_to_chars(spec_encode_bytes(b));
    assert(encode_utf8(spec_encode(a)) == spec_encode_bytes(a));
    assert(encode_utf8(spec_encode(b)) == spec_encode_bytes(b));
    lemma_encode_injective(a, b);
}

/// The alphabet byte for a six-bit value.
fn b64_byte_exec(v: u8) -> (r: u8)
    requires
        v < 64,
    ensures
        r == b64_byte(v),
{
    if v < 26 {
        65 + v
    } else if v < 52 {
        97 + (v - 26)
    } else if v < 62 {
        48 + (v - 52)
    } else if v == 62 {
        43
    } else {
        47
    }
}

/// The six-bit value of an alphabet byte, or nothing for a byte outside the
/// alphabet.
fn b64_val_exec(b: u8) -> (r: Option<u8>)
    ensures
        match r {
            Some(v) => v < 64 && b64_val(b) == v as int,
            None => b64_val(b) == -1,
        },
{
    if 65 <= b && b < 91 {
        Some(b - 65)
    } else if 97 <= b && b < 123 {
        Some((b - 97) + 26)
    } else if 48 <= b && b < 58 {
        Some((b - 48) + 52)
    } else if b == 43 {
        Some(62)
    } else if b == 47 {
        Some(63)
    } else {
        None
    }
}

/// Encodes a byte buffer as base64 text with padding.
pub fn encode(data: &Vec<u8>) -> (r: String)
    ensures
        r@ == spec_encode(data@),
{
    let n: usize = data.len();
    let mut out: Vec<u8> = Vec::new();
    let mut i: usize = 0;
    while n - i >= 3
        invariant
            i <= n,
            n == data@.len(),
            i % 3 == 0,
            out@ == spec_encode_bytes(data@.take(i as int)),
        decreases n - i,
    {
        let b0 = data[i];
        let b1 = data[i + 1];
        let b2 = data[i + 2];
        proof {
            lemma_group_bits(b0, b1, b2);
        }
        out.push(b64_byte_exec(b0 >> 2));
        out.push(b64_byte_exec(((b0 & 3) << 4) | (b1 >> 4)));
        out.push(b64_byte_exec(((b1 & 15) << 2) | (b2 >> 6)));
        out.push(b64_byte_exec(b2 & 63));
        proof {
            let g = seq![b0, b1, b2];
            assert(data@.take(i + 3) =~= data@.take(i as int) + g);
            lemma_encode_append(data@.take(i as int), g);
            assert(g.skip(3) =~= Seq::<u8>::empty());
            assert(spec_encode_bytes(Seq::<u8>::empty()) =~= Seq::<u8>::empty());
            assert(spec_encode_bytes(g) =~= encode_group(g[0], g[1], g[2]) + Seq::<u8>::empty());
            assert(g[0] == b0 && g[1] == b1 && g[2] == b2);
            assert(spec_encode_bytes(g) =~= encode_group(b0, b1, b2));
            assert(out@ =~= spec_encode_bytes(data@.take(i + 3)));
        }
        i += 3;
    }
    if n - i == 1 {
        let b0 = data[i];
        proof {
            lemma_group_bits(b0, 0, 0);
            assert((b0 & 3) << 4 < 64) by (bit_vector);
        }
        out.push(b64_byte_exec(b0 >> 2));
        out.push(b64_byte_exec((b0 & 3) << 4));
        out.push(PAD_BYTE);
        out.push(PAD_BYTE);
        proof {
            assert(data@ =~= data@.take(i as int) + seq![b0]);
            lemma_encode_append(data@.take(i as int), seq![b0]);
            assert(spec_encode_bytes(seq![b0]) =~= encode_tail1(b0));
            assert(out@ =~= spec_encode_bytes(data@));
        }
    } else if n - i == 2 {
        let b0 = data[i];
        let b1 = data[i + 1];
        proof {
            lemma_group_bits(b0, b1, 0);
            assert((b1 & 15) << 2 < 64) by (bit_vector);
        }
        out.push(b64_byte_exec(b0 >> 2));
        out.push(b64_byte_exec(((b0 & 3) << 4) | (b1 >> 4)));
        out.push(b64_byte_exec((b1 & 15) << 2));
        out.push(PAD_BYTE);
        proof {
            assert(data@ =~= data@.take(i as int) + seq![b0, b1]);
            lemma_encode_append(data@.take(i as int), seq![b0, b1]);
            assert(spec_encode_bytes(seq![b0, b1]) =~= encode_tail2(b0, b1));
            assert(out@ =~= spec_encode_bytes(data@));
        }
    } else {
        proof {
            assert(data@.take(i as int) =~= data@);
        }
    }
    proof {
        lemma_encode_ascii(data@);
        lemma_ascii_bytes_to_chars(out@);
    }
    let ghost encoded = out@;
    match string_from_utf8(out) {
        Some(s) => {
            proof {
                lemma_ascii_encoding_determines_chars(s@, encoded);
            }
            s
        },
        None => {
            proof {
                assert(false);
            }
            String::new()
        },
    }
}

/// Decodes the final four-byte group, which may end in one or two pads.
fn decode_tail(a: u8, b: u8, c: u8, d: u8) -> (r: Result<Vec<u8>, Error>)
    ensures
        r is Ok <==> spec_valid_bytes(seq![a, b, c, d]),
        r matches Ok(v) ==> v@ == spec_decode_bytes(seq![a, b, c, d]),
        r matches Err(e) ==> e == Error::Codec,
{
    let ghost t = seq![a, b, c, d];
    let mut out: Vec<u8> = Vec::new();
    let (v0, v1) = match (b64_val_exec(a), b64_val_exec(b)) {
        (Some(v0), Some(v1)) => (v0, v1),
        _ => {
            return Err(Error::Codec);
        },
    };
    if d != PAD_BYTE {
        match (b64_val_exec(c), b64_val_exec(d)) {
            (Some(v2), Some(v3)) => {
                out.push((v0 << 2) | (v1 >> 4));
                out.push((v1 << 4) | (v2 >> 2));
                out.push((v2 << 6) | v3);
                proof {
                    assert(out@ =~= spec_decode_bytes(t));
                }
                Ok(out)
            },
            _ => Err(Error::Codec),
        }
    } else if c != PAD_BYTE {
        match b64_val_exec(c) {
            Some(v2) => {
                out.push((v0 << 2) | (v1 >> 4));
                out.push((v1 << 4) | (v2 >> 2));
                proof {
                    assert(out@ =~= spec_decode_bytes(t));
                }
                Ok(out)
            },
            None => Err(Error::Codec),
        }
    } else {
        out.push((v0 << 2) | (v1 >> 4));
        proof {
            assert(out@ =~= spec_decode_bytes(t));
        }
        Ok(out)
    }
}

/// Decodes base64 text; rejects input that is not well-formed base64.
pub fn decode(text: &str) -> (r: Result<Vec<u8>, Error>)
    ensures
        r is Ok <==> spec_text_valid(text@),
        r matches Ok(v) ==> v@ == spec_text_decode(text@),
        r matches Err(e) ==> e == Error::Codec,
{
    if !text.is_ascii() {
        return Err(Error::Codec);
    }
    let bytes: Vec<u8> = text.as_bytes_vec();
    let ghost b = bytes@;
    assert(b == encode_utf8(text@));
    let n: usize = bytes.len();
    if n % 4 != 0 {
        proof {
            lemma_valid_multiple(b);
        }
        return Err(Error::Codec);
    }
    let mut out: Vec<u8> = Vec::new();
    if n == 0 {
        proof {
            assert(b.skip(0) =~= b);
        }
        return Ok(out);
    }
    proof {
        assert(b.skip(0) =~= b);
        assert(out@ + spec_decode_bytes(b) =~= spec_decode_bytes(b));
    }
    let mut i: usize = 0;
    while n - i > 4
        invariant
            i + 4 <= n,
            n == b.len(),
            bytes@ == b,
            b == encode_utf8(text@),
            is_ascii_chars(text@),
            n % 4 == 0,
            i % 4 == 0,
            spec_valid_bytes(b) <==> spec_valid_bytes(b.skip(i as int)),
            spec_valid_bytes(b) ==> spec_decode_bytes(b) == out@ + spec_decode_bytes(
                b.skip(i as int),
            ),
        decreases n - i,
    {
        let v0 = b64_val_exec(bytes[i]);
        let v1 = b64_val_exec(bytes[i + 1]);
        let v2 = b64_val_exec(bytes[i + 2]);
        let v3 = b64_val_exec(bytes[i + 3]);
        match (v0, v1, v2, v3) {
            (Some(v0), Some(v1), Some(v2), Some(v3)) => {
                out.push((v0 << 2) | (v1 >> 4));
                out.push((v1 << 4) | (v2 >> 2));
                out.push((v2 << 6) | v3);
                proof {
                    assert(b.skip(i as int).skip(4) =~= b.skip(i + 4));
                    assert(b.skip(i as int)[0] == b[i as int]);
                    assert(spec_valid_bytes(b.skip(i as int)) <==> spec_valid_bytes(
                        b.skip(i + 4),
                    ));
                    if spec_valid_bytes(b) {
                        assert(spec_decode_bytes(b.skip(i as int)) =~= decode_group(
                            v0,
                            v1,
                            v2,
                            v3,
                        ) + spec_decode_bytes(b.skip(i + 4)));
                        assert(spec_decode_bytes(b) =~= out@ + spec_decode_bytes(b.skip(i + 4)));
                    }
                    assert((n - i) % 4 == 0);
                }
                i += 4;
            },
            _ => {
                proof {
                    assert(!spec_valid_bytes(b.skip(i as int)));
                }
                return Err(Error::Codec);
            },
        }
    }
    proof {
        assert(i + 4 == n);
        assert(b.skip(i as int) =~= seq![b[i as int], b[i + 1], b[i + 2], b[i + 3]]);
    }
    match decode_tail(bytes[i], bytes[i + 1], bytes[i + 2], bytes[i + 3]) {
        Ok(mut tail) => {
            let ghost tail_bytes = tail@;
            out.append(&mut tail);
            proof {
                assert(spec_valid_bytes(b));
                assert(out@ == spec_decode_bytes(b));
            }
            Ok(out)
        },
        Err(e) => {
            proof {
                assert(!spec_valid_bytes(b.skip(i as int)));
            }
            Err(Error::Codec)
        },
    }
}

} // verus!
