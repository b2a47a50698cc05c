//! PKCS7 padding for a 16-byte block cipher.
//!
//! Padding always adds between 1 and 16 bytes, each holding the pad length,
//! so that the padded buffer is a non-empty multiple of the block size and
//! unpadding is unambiguous. A buffer whose tail does not spell a valid pad
//! is rejected, which is the only integrity check the cipher configuration
//! itself provides on decryption.

use vstd::prelude::*;

verus! {

/// The cipher's block size in bytes.
pub const BLOCK_SIZE: usize = 16;

/// How many pad bytes a buffer of length `n` receives: 1 to 16.
pub open spec fn spec_pad_len(n: nat) -> nat {
    (BLOCK_SIZE - (n % (BLOCK_SIZE as nat))) as nat
}

/// The padded form of `s`: `s` followed by `spec_pad_len` copies of the pad
/// length itself.
pub open spec fn spec_pad(s: Seq<u8>) -> Seq<u8> {
    s + Seq::new(spec_pad_len(s.len()), |i: int| spec_pad_len(s.len()) as u8)
}

/// Whether `s` ends in a well-formed pad: non-empty, a whole number of
/// blocks, and its last byte `p` satisfies `1 <= p <= 16` with the final `p`
/// bytes all equal to `p`.
pub open spec fn spec_pad_ok(s: Seq<u8>) -> bool {
    &&& s.len() > 0
    &&& s.len() % (BLOCK_SIZE as nat) == 0
    &&& 1 <= s.last() <= BLOCK_SIZE
    &&& s.last() <= s.len()
    &&& forall|i: int| s.len() - s.last() <= i < s.len() ==> s[i] == s.last()
}

/// The unpadded content of a well-formed padded buffer.
pub open spec fn spec_unpad(s: Seq<u8>) -> Seq<u8>
    recommends
        spec_pad_ok(s),
{
    s.take(s.len() - s.last())
}

/// Padding always yields a well-formed pad, and unpadding gives the
/// original bytes back.
pub proof fn lemma_pad_round_trip(s: Seq<u8>)
    ensures
        spec_pad(s).len() == s.len() + spec_pad_len(s.len()),
        spec_pad(s).len() % (BLOCK_SIZE as nat) == 0,
        spec_pad_ok(spec_pad(s)),
        spec_unpad(spec_pad(s)) == s,
{
    let p = spec_pad_len(s.len());
    let padded = spec_pad(s);
    assert(1 <= p <= BLOCK_SIZE);
    assert(padded.len() == s.len() + p);
    assert((s.len() + p) % (BLOCK_SIZE as nat) == 0) by {
        assert(s.len() % (BLOCK_SIZE as nat) + p == BLOCK_SIZE);
    };
    assert(padded.last() == p as u8);
    assert(forall|i: int| padded.len() - p <= i < padded.len() ==> padded[i] == p as u8);
    assert(spec_unpad(padded) =~= s);
}

/// Appends a PKCS7 pad to a copy of `data`.
pub fn pad(data: &Vec<u8>) -> (r: Vec<u8>)
    requires
        data@.len() + BLOCK_SIZE <= usize::MAX,
    ensures
        r@ == spec_pad(data@),
{
    let mut out: Vec<u8> = vstd::slice::slice_to_vec(data.as_slice());
    let p: usize = BLOCK_SIZE - (data.len() % BLOCK_SIZE);
    assert(p == spec_pad_len(data@.len()));
    let mut i: usize = 0;
    while i < p
        invariant
            i <= p,
            1 <= p <= BLOCK_SIZE,
            p == spec_pad_len(data@.len()),
            out@ == data@ + Seq::new(i as nat, |j: int| p as u8),
        decreases p - i,
    {
        let ghost prev = out@;
        out.push(p as u8);
        proof {
            assert(out@ =~= data@ + Seq::new((i + 1) as nat, |j: int| p as u8));
        }
        i += 1;
    }
    proof {
        assert(out@ =~= spec_pad(data@));
    }
    out
}

/// Checks and removes the PKCS7 pad of `data`; rejects a buffer whose tail
/// is not a well-formed pad.
pub fn unpad(data: &Vec<u8>) -> (r: Option<Vec<u8>>)
    ensures
        spec_pad_ok(data@) <==> r is Some,
        r matches Some(v) ==> v@ == spec_unpad(data@),
{
    let n: usize = data.len();
    if n == 0 || n % BLOCK_SIZE != 0 {
        return None;
    }
    let last: u8 = data[n - 1];
    if last == 0 || (last as usize) > BLOCK_SIZE || (last as usize) > n {
        return None;
    }
    let pad_start: usize = n - (last as usize);
    let mut i: usize = pad_start;
    while i < n
        invariant
            pad_start <= i <= n,
            n == data@.len(),
            0 < n,
            (last as usize) <= n,
            pad_start == n - (last as usize),
            data@[n - 1] == last,
            forall|j: int| pad_start <= j < i ==> data@[j] == last,
        decreases n - i,
    {
        if data[i] != last {
            return None;
        }
        i += 1;
    }
    let mut out: Vec<u8> = vstd::slice::slice_to_vec(data.as_slice());
    out.truncate(pad_start);
    proof {
        assert(spec_pad_ok(data@));
        assert(out@ =~= spec_unpad(data@));
    }
    Some(out)
}

} // verus!
