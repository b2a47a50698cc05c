//! Conversions between byte buffers and text.
//!
//! The store is text-only, while the cipher works on bytes, so byte buffers
//! cross into strings in two places: when an encoded entry is built and when
//! a decrypted secret is handed back. Both crossings go through UTF-8, and
//! the helper lemmas here connect ASCII byte buffers with the character
//! sequences vstd uses as the view of a string.

use vstd::prelude::*;
use vstd::utf8::*;

verus! {

/// The characters spelled by a byte buffer read as ASCII.
pub open spec fn ascii_chars_of(b: Seq<u8>) -> Seq<char> {
    b.map(|i: int, x: u8| x as char)
}

/// Relies on `String::from_utf8`: it succeeds exactly on valid UTF-8 input,
/// and the returned string's byte encoding is the input buffer.
#[verifier::external_body]
pub fn string_from_utf8(bytes: Vec<u8>) -> (r: Option<String>)
    ensures
        r is Some <==> valid_utf8(bytes@),
        r matches Some(s) ==> encode_utf8(s@) == bytes@,
{
    match String::from_utf8(bytes) {
        Ok(s) => Some(s),
        Err(_) => None,
    }
}

/// A buffer of bytes below 0x80 is valid UTF-8 and decodes to the same
/// bytes character for character.
pub proof fn lemma_ascii_bytes_to_chars(b: Seq<u8>)
    requires
        forall|i: int| 0 <= i < b.len() ==> b[i] < 128,
    ensures
        is_ascii_chars(ascii_chars_of(b)),
        encode_utf8(ascii_chars_of(b)) == b,
        valid_utf8(b),
        decode_utf8(b) == ascii_chars_of(b),
{
    let c = ascii_chars_of(b);
    assert forall|i: int| 0 <= i < c.len() implies '\0' <= #[trigger] c[i] <= '\u{7f}' by {
        assert(b[i] < 128);
        assert(c[i] == b[i] as char);
        assert(c[i] as u32 == b[i] as u32);
    };
    is_ascii_chars_encode_utf8(c);
    assert forall|i: int| 0 <= i < c.len() implies #[trigger] encode_utf8(c)[i] == b[i] by {
        assert(c[i] as u8 == encode_utf8(c)[i]);
        assert(c[i] as u8 == b[i]);
    };
    assert(encode_utf8(c) =~= b);
    encode_utf8_valid_utf8(c);
    encode_utf8_decode_utf8(c);
}

/// A string whose byte encoding is an ASCII buffer spells exactly that
/// buffer's characters.
pub proof fn lemma_ascii_encoding_determines_chars(s: Seq<char>, b: Seq<u8>)
    requires
        encode_utf8(s) == b,
        forall|i: int| 0 <= i < b.len() ==> b[i] < 128,
    ensures
        s == ascii_chars_of(b),
{
    lemma_ascii_bytes_to_chars(b);
    encode_utf8_decode_utf8(s);
    assert(decode_utf8(encode_utf8(s)) == s);
}

} // verus!
