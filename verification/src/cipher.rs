//! The platform block-cipher provider: one fixed configuration, a 128-bit
//! block cipher in CBC mode with PKCS7 padding, requested through the
//! transform string `AES/CBC/PKCS7Padding`.
//!
//! A session wraps one key, one direction and one IV into a ready-to-use
//! context and transforms whole buffers in a single shot. Encryption pads
//! the plaintext, masks it with a stream derived from the key and the IV,
//! and appends a sixteen-byte verification block derived from the same key
//! and IV. Decryption checks that block against the key and IV it was
//! opened with and then validates the padding, so a mismatched or corrupted
//! IV surfaces as a cipher failure rather than silently wrong plaintext —
//! which is how the platform provider behaves and all this system relies
//! on. On encryption the provider draws the IV itself, from a source that
//! never repeats consecutive values.

use vstd::prelude::*;
use vstd::bytes::{spec_u64_to_le_bytes, lemma_auto_spec_u64_to_from_le_bytes, u64_to_le_bytes};
use vstd::string::StringExecFns;
use crate::error::Error;
use crate::keystore::SecretKey;
use crate::pkcs7::{spec_pad, spec_pad_ok, spec_unpad, lemma_pad_round_trip, pad, unpad};

verus! {

/// The IV and verification-block length in bytes.
pub const IV_LEN: usize = 16;

/// The key size this system requests, in bits.
pub const KEY_SIZE_BITS: u32 = 128;

/// The direction a cipher session is opened for.
#[derive(Clone, Copy, PartialEq, Eq, Structural, Debug)]
pub enum Mode {
    Encrypt,
    Decrypt,
}

/// The algorithm part of the transform string.
pub fn algorithm() -> (r: &'static str)
    ensures
        r@ == "AES"@,
{
    "AES"
}

/// The block-mode part of the transform string.
pub fn block_mode() -> (r: &'static str)
    ensures
        r@ == "CBC"@,
{
    "CBC"
}

/// The padding part of the transform string.
pub fn padding() -> (r: &'static str)
    ensures
        r@ == "PKCS7Padding"@,
{
    "PKCS7Padding"
}

/// The transform string naming the one cipher configuration this system
/// uses.
pub open spec fn spec_transform() -> Seq<char> {
    "AES/CBC/PKCS7Padding"@
}

/// Builds the transform string from its three parts.
pub fn transform() -> (r: String)
    ensures
        r@ == spec_transform(),
{
    let mut s = String::new();
    s.append(algorithm());
    s.append("/");
    s.append(block_mode());
    s.append("/");
    s.append(padding());
    proof {
        reveal_strlit("AES");
        reveal_strlit("/");
        reveal_strlit("CBC");
        reveal_strlit("PKCS7Padding");
        reveal_strlit("AES/CBC/PKCS7Padding");
        assert(s@ =~= spec_transform());
    }
    s
}

/// The counter value after one draw.
pub open spec fn next_counter(n: u64) -> u64 {
    if n == u64::MAX {
        0u64
    } else {
        (n + 1) as u64
    }
}

/// The sixteen-byte IV drawn at counter value `n`: the counter in
/// little-endian order, zero-extended.
pub open spec fn spec_iv_of(n: u64) -> Seq<u8> {
    spec_u64_to_le_bytes(n) + Seq::new(8, |i: int| 0u8)
}

/// An IV is sixteen bytes long.
pub proof fn lemma_iv_of_len(n: u64)
    ensures
        spec_iv_of(n).len() == 16,
{
    lemma_auto_spec_u64_to_from_le_bytes();
}

/// Distinct counter values draw distinct IVs.
pub proof fn lemma_iv_of_injective(a: u64, b: u64)
    requires
        spec_iv_of(a) == spec_iv_of(b),
    ensures
        a == b,
{
    lemma_auto_spec_u64_to_from_le_bytes();
    assert(spec_iv_of(a).take(8) =~= spec_u64_to_le_bytes(a));
    assert(spec_iv_of(b).take(8) =~= spec_u64_to_le_bytes(b));
}

/// Two consecutive draws give distinct IVs.
pub proof fn lemma_successive_ivs_distinct(n: u64)
    ensures
        spec_iv_of(n) != spec_iv_of(next_counter(n)),
{
    if spec_iv_of(n) == spec_iv_of(next_counter(n)) {
        lemma_iv_of_injective(n, next_counter(n));
    }
}

/// The provider's source of initialization vectors. The platform draws
/// them at random; what this system relies on — and all the model
/// promises — is that consecutive draws never coincide.
pub struct IvSource {
    counter: u64,
}

impl IvSource {
    /// The current counter value.
    pub closed spec fn spec_counter(&self) -> u64 {
        self.counter
    }

    /// A fresh source.
    pub fn new() -> (r: IvSource)
        ensures
            r.spec_counter() == 0,
    {
        IvSource { counter: 0 }
    }

    /// Draws the next IV and advances the counter.
    pub fn fresh_iv(&mut self) -> (r: Vec<u8>)
        ensures
            r@ == spec_iv_of(old(self).spec_counter()),
            r@.len() == 16,
            final(self).spec_counter() == next_counter(old(self).spec_counter()),
    {
        let mut v = u64_to_le_bytes(self.counter);
        let mut i: usize = 0;
        while i < 8
            invariant
                i <= 8,
                v@ == spec_u64_to_le_bytes(self.counter) + Seq::new(i as nat, |j: int| 0u8),
                self.counter == old(self).counter,
            decreases 8 - i,
        {
            v.push(0);
            proof {
                assert(v@ =~= spec_u64_to_le_bytes(self.counter) + Seq::new(
                    (i + 1) as nat,
                    |j: int| 0u8,
                ));
            }
            i += 1;
        }
        self.counter = if self.counter == u64::MAX {
            0
        } else {
            self.counter + 1
        };
        proof {
            lemma_auto_spec_u64_to_from_le_bytes();
            assert(v@ =~= spec_iv_of(old(self).spec_counter()));
        }
        v
    }
}

/// One byte of key material for stream position `j`: the key identity
/// selects it, cycling through the identity's eight bytes.
pub open spec fn key_byte(id: u64, j: int) -> u8
    recommends
        j >= 0,
{
    (id >> (((j % 8) * 8) as u64)) as u8
}

/// One keystream byte: key material mixed with the IV and the position.
pub open spec fn spec_ks(id: u64, iv: Seq<u8>, j: int) -> u8
    recommends
        iv.len() == 16,
        j >= 0,
{
    key_byte(id, j) ^ iv[j % 16] ^ ((j % 256) as u8)
}

/// A buffer masked with the keystream of `(id, iv)`.
pub open spec fn spec_stream(id: u64, iv: Seq<u8>, data: Seq<u8>) -> Seq<u8>
    recommends
        iv.len() == 16,
{
    Seq::new(data.len(), |j: int| data[j] ^ spec_ks(id, iv, j))
}

/// The sixteen-byte verification block of `(id, iv)`.
pub open spec fn spec_tag(id: u64, iv: Seq<u8>) -> Seq<u8>
    recommends
        iv.len() == 16,
{
    Seq::new(16, |j: int| iv[j] ^ key_byte(id, j))
}

/// The ciphertext produced for plaintext `p` under `(id, iv)`: the padded
/// plaintext masked with the keystream, then the verification block.
pub open spec fn spec_enc(id: u64, iv: Seq<u8>, p: Seq<u8>) -> Seq<u8>
    recommends
        iv.len() == 16,
{
    spec_stream(id, iv, spec_pad(p)) + spec_tag(id, iv)
}

/// What decryption of `c` under `(id, iv)` yields: the unpadded plaintext
/// when the verification block matches and the padding is intact, nothing
/// otherwise.
pub open spec fn spec_dec(id: u64, iv: Seq<u8>, c: Seq<u8>) -> Option<Seq<u8>> {
    if iv.len() != 16 {
        None
    } else if c.len() < 32 {
        None
    } else if c.skip(c.len() - 16) != spec_tag(id, iv) {
        None
    } else {
        let padded = spec_stream(id, iv, c.take(c.len() - 16));
        if spec_pad_ok(padded) {
            Some(spec_unpad(padded))
        } else {
            None
        }
    }
}

/// Masking twice with the same keystream gives the buffer back.
pub proof fn lemma_stream_involution(id: u64, iv: Seq<u8>, data: Seq<u8>)
    ensures
        spec_stream(id, iv, spec_stream(id, iv, data)) == data,
{
    let once = spec_stream(id, iv, data);
    let twice = spec_stream(id, iv, once);
    assert forall|j: int| 0 <= j < data.len() implies twice[j] == data[j] by {
        let a = data[j];
        let k = spec_ks(id, iv, j);
        assert((a ^ k) ^ k == a) by (bit_vector);
    };
    assert(twice =~= data);
}

/// Distinct sixteen-byte IVs have distinct verification blocks under the
/// same key.
pub proof fn lemma_tag_injective(id: u64, iv1: Seq<u8>, iv2: Seq<u8>)
    requires
        iv1.len() == 16,
        iv2.len() == 16,
        iv1 != iv2,
    ensures
        spec_tag(id, iv1) != spec_tag(id, iv2),
{
    if forall|j: int| 0 <= j < 16 ==> iv1[j] == iv2[j] {
        assert(iv1 =~= iv2);
    }
    let j = choose|j: int| 0 <= j < 16 && iv1[j] != iv2[j];
    let a = iv1[j];
    let b = iv2[j];
    let k = key_byte(id, j);
    assert(a != b ==> a ^ k != b ^ k) by (bit_vector);
    assert(spec_tag(id, iv1)[j] != spec_tag(id, iv2)[j]);
}

/// Decrypting a ciphertext under the key and IV it was produced with gives
/// the plaintext back.
pub proof fn lemma_enc_dec(id: u64, iv: Seq<u8>, p: Seq<u8>)
    requires
        iv.len() == 16,
    ensures
        spec_dec(id, iv, spec_enc(id, iv, p)) == Some(p),
{
    lemma_pad_round_trip(p);
    let padded = spec_pad(p);
    let c = spec_enc(id, iv, p);
    assert(c.len() == padded.len() + 16);
    assert(padded.len() >= 16);
    assert(c.skip(c.len() - 16) =~= spec_tag(id, iv));
    assert(c.take(c.len() - 16) =~= spec_stream(id, iv, padded));
    lemma_stream_involution(id, iv, padded);
}

/// Decrypting with a different sixteen-byte IV than the one the ciphertext
/// was produced with fails.
pub proof fn lemma_dec_wrong_iv(id: u64, iv1: Seq<u8>, iv2: Seq<u8>, p: Seq<u8>)
    requires
        iv1.len() == 16,
        iv2.len() == 16,
        iv1 != iv2,
    ensures
        spec_dec(id, iv2, spec_enc(id, iv1, p)) is None,
{
    lemma_pad_round_trip(p);
    let c = spec_enc(id, iv1, p);
    assert(c.len() >= 32);
    assert(c.skip(c.len() - 16) =~= spec_tag(id, iv1));
    lemma_tag_injective(id, iv1, iv2);
}

/// One keystream byte, computed.
fn ks_byte(id: u64, iv: &Vec<u8>, j: usize) -> (r: u8)
    requires
        iv@.len() == 16,
    ensures
        r == spec_ks(id, iv@, j as int),
{
    let sh: u64 = ((j % 8) * 8) as u64;
    let kb: u8 = #[verifier::truncate] ((id >> sh) as u8);
    let jb: u8 = (j % 256) as u8;
    kb ^ iv[j % 16] ^ jb
}

/// One verification-block byte, computed.
fn tag_byte(id: u64, iv: &Vec<u8>, j: usize) -> (r: u8)
    requires
        iv@.len() == 16,
        j < 16,
    ensures
        r == spec_tag(id, iv@)[j as int],
{
    let sh: u64 = ((j % 8) * 8) as u64;
    let kb: u8 = #[verifier::truncate] ((id >> sh) as u8);
    iv[j] ^ kb
}

/// A ready-to-use cipher context: one key, one direction, one IV.
pub struct CipherSession {
    key: SecretKey,
    mode: Mode,
    iv: Vec<u8>,
}

impl CipherSession {
    /// The identity of the key the session was opened with.
    pub closed spec fn spec_key_id(&self) -> u64 {
        self.key.id
    }

    /// The direction the session was opened for.
    pub closed spec fn spec_mode(&self) -> Mode {
        self.mode
    }

    /// The IV the session carries.
    pub closed spec fn spec_iv(&self) -> Seq<u8> {
        self.iv@
    }

    /// A session always carries a sixteen-byte IV.
    pub open spec fn wf(&self) -> bool {
        self.spec_iv().len() == 16
    }

    /// Opens an encryption context: the provider draws a fresh IV. The
    /// transform must name the one supported configuration.
    pub fn open_encrypt(transform_name: &str, key: &SecretKey, source: &mut IvSource) -> (r:
        Result<CipherSession, Error>)
        ensures
            r is Ok <==> transform_name@ == spec_transform(),
            r matches Err(e) ==> e == Error::Cipher && *final(source) == *old(source),
            r matches Ok(s) ==> s.wf() && s.spec_key_id() == key.id && s.spec_mode()
                == Mode::Encrypt && s.spec_iv() == spec_iv_of(old(source).spec_counter())
                && final(source).spec_counter() == next_counter(old(source).spec_counter()),
    {
        let expected = transform();
        let supplied: String = transform_name.to_owned();
        if !(supplied == expected) {
            return Err(Error::Cipher);
        }
        let fresh = source.fresh_iv();
        Ok(CipherSession { key: *key, mode: Mode::Encrypt, iv: fresh })
    }

    /// Opens a decryption context around the sixteen-byte IV stored when
    /// the secret was written. The transform must name the one supported
    /// configuration.
    pub fn open_decrypt(transform_name: &str, key: &SecretKey, iv: Vec<u8>) -> (r: Result<
        CipherSession,
        Error,
    >)
        ensures
            r is Ok <==> (transform_name@ == spec_transform() && iv@.len() == 16),
            r matches Err(e) ==> e == Error::Cipher,
            r matches Ok(s) ==> s.wf() && s.spec_key_id() == key.id && s.spec_mode()
                == Mode::Decrypt && s.spec_iv() == iv@,
    {
        let expected = transform();
        let supplied: String = transform_name.to_owned();
        if !(supplied == expected) {
            return Err(Error::Cipher);
        }
        if iv.len() != 16 {
            return Err(Error::Cipher);
        }
        Ok(CipherSession { key: *key, mode: Mode::Decrypt, iv })
    }

    /// Opens a cipher context. The transform must name the one supported
    /// configuration. For encryption no IV may be supplied: the provider
    /// draws a fresh one. For decryption the caller must supply the
    /// sixteen-byte IV stored when the secret was written.
    pub fn open_session(
        transform_name: &str,
        mode: Mode,
        key: &SecretKey,
        iv: Option<Vec<u8>>,
        source: &mut IvSource,
    ) -> (r: Result<CipherSession, Error>)
        ensures
            r is Ok <==> (transform_name@ == spec_transform() && ((mode == Mode::Encrypt
                && iv is None) || (mode == Mode::Decrypt && (iv matches Some(v) && v@.len()
                == 16)))),
            r matches Err(e) ==> e == Error::Cipher && *final(source) == *old(source),
            r matches Ok(s) ==> s.wf() && s.spec_key_id() == key.id && s.spec_mode() == mode,
            mode == Mode::Encrypt ==> (r matches Ok(s) ==> s.spec_iv() == spec_iv_of(
                old(source).spec_counter(),
            ) && final(source).spec_counter() == next_counter(old(source).spec_counter())),
            mode == Mode::Decrypt ==> (r matches Ok(s) ==> *final(source) == *old(source) && (
            iv matches Some(v) && s.spec_iv() == v@)),
    {
        match mode {
            Mode::Encrypt => {
                match iv {
                    None => Self::open_encrypt(transform_name, key, source),
                    Some(_) => {
                        let expected = transform();
                        let supplied: String = transform_name.to_owned();
                        if !(supplied == expected) {
                            return Err(Error::Cipher);
                        }
                        Err(Error::Cipher)
                    },
                }
            },
            Mode::Decrypt => {
                match iv {
                    Some(v) => Self::open_decrypt(transform_name, key, v),
                    None => {
                        let expected = transform();
                        let supplied: String = transform_name.to_owned();
                        if !(supplied == expected) {
                            return Err(Error::Cipher);
                        }
                        Err(Error::Cipher)
                    },
                }
            },
        }
    }

    /// The IV the provider drew when the session was opened for
    /// encryption, to be stored beside the ciphertext.
    pub fn current_iv(&self) -> (r: Vec<u8>)
        ensures
            r@ == self.spec_iv(),
    {
        vstd::slice::slice_to_vec(self.iv.as_slice())
    }

    /// Transforms one whole buffer. Encryption always succeeds and yields
    /// the ciphertext of the buffer under the session's key and IV.
    /// Decryption yields the plaintext exactly when the buffer is a
    /// ciphertext produced under that key and IV, and fails otherwise.
    pub fn process(&self, data: &Vec<u8>) -> (r: Result<Vec<u8>, Error>)
        requires
            self.wf(),
            self.spec_mode() == Mode::Encrypt ==> data@.len() + 32 <= usize::MAX,
        ensures
            self.spec_mode() == Mode::Encrypt ==> (r matches Ok(v) && v@ == spec_enc(
                self.spec_key_id(),
                self.spec_iv(),
                data@,
            )),
            self.spec_mode() == Mode::Decrypt ==> match spec_dec(
                self.spec_key_id(),
                self.spec_iv(),
                data@,
            ) {
                Some(p) => r matches Ok(v) && v@ == p,
                None => r == Err::<Vec<u8>, Error>(Error::Cipher),
            },
    {
        match self.mode {
            Mode::Encrypt => Ok(self.encrypt(data)),
            Mode::Decrypt => self.decrypt(data),
        }
    }

    /// Pads, masks, and appends the verification block.
    fn encrypt(&self, data: &Vec<u8>) -> (r: Vec<u8>)
        requires
            self.wf(),
            data@.len() + 32 <= usize::MAX,
        ensures
            r@ == spec_enc(self.spec_key_id(), self.spec_iv(), data@),
    {
        let id = self.key.id;
        let padded = pad(data);
        let ghost body = spec_stream(id, self.iv@, padded@);
        let n: usize = padded.len();
        let mut out: Vec<u8> = Vec::new();
        let mut j: usize = 0;
        while j < n
            invariant
                j <= n,
                n == padded@.len(),
                self.wf(),
                body == spec_stream(id, self.iv@, padded@),
                id == self.spec_key_id(),
                out@.len() == j,
                forall|k: int| 0 <= k < j ==> out@[k] == body[k],
            decreases n - j,
        {
            out.push(padded[j] ^ ks_byte(id, &self.iv, j));
            j += 1;
        }
        let mut t: usize = 0;
        while t < 16
            invariant
                t <= 16,
                n == padded@.len(),
                self.wf(),
                body == spec_stream(id, self.iv@, padded@),
                id == self.spec_key_id(),
                out@.len() == n + t,
                forall|k: int| 0 <= k < n ==> out@[k] == body[k],
                forall|k: int| 0 <= k < t ==> out@[n + k] == spec_tag(id, self.iv@)[k],
            decreases 16 - t,
        {
            out.push(tag_byte(id, &self.iv, t));
            t += 1;
        }
        proof {
            assert(out@ =~= spec_enc(id, self.iv@, data@));
        }
        out
    }

    /// Checks the verification block, unmasks, and validates the padding.
    fn decrypt(&self, data: &Vec<u8>) -> (r: Result<Vec<u8>, Error>)
        requires
            self.wf(),
        ensures
            match spec_dec(self.spec_key_id(), self.spec_iv(), data@) {
                Some(p) => r matches Ok(v) && v@ == p,
                None => r == Err::<Vec<u8>, Error>(Error::Cipher),
            },
    {
        let id = self.key.id;
        let n: usize = data.len();
        if n < 32 {
            return Err(Error::Cipher);
        }
        let body_len: usize = n - 16;
        let mut t: usize = 0;
        while t < 16
            invariant
                t <= 16,
                n == data@.len(),
                n >= 32,
                body_len == n - 16,
                self.wf(),
                id == self.spec_key_id(),
                forall|k: int| 0 <= k < t ==> data@[body_len + k] == spec_tag(id, self.iv@)[k],
            decreases 16 - t,
        {
            if data[body_len + t] != tag_byte(id, &self.iv, t) {
                proof {
                    assert(data@.skip(n - 16)[t as int] == data@[body_len + t]);
                    assert(data@.skip(n - 16) != spec_tag(id, self.iv@));
                }
                return Err(Error::Cipher);
            }
            t += 1;
        }
        proof {
            assert(data@.skip(n - 16) =~= spec_tag(id, self.iv@));
        }
        let mut padded: Vec<u8> = Vec::new();
        let ghost unmasked = spec_stream(id, self.iv@, data@.take(n - 16));
        let mut j: usize = 0;
        while j < body_len
            invariant
                j <= body_len,
                n == data@.len(),
                n >= 32,
                body_len == n - 16,
                self.wf(),
                id == self.spec_key_id(),
                unmasked == spec_stream(id, self.iv@, data@.take(n - 16)),
                padded@.len() == j,
                forall|k: int| 0 <= k < j ==> padded@[k] == unmasked[k],
            decreases body_len - j,
        {
            padded.push(data[j] ^ ks_byte(id, &self.iv, j));
            proof {
                assert(data@.take(n - 16)[j as int] == data@[j as int]);
            }
            j += 1;
        }
        proof {
            assert(padded@ =~= unmasked);
        }
        match unpad(&padded) {
            Some(v) => Ok(v),
            None => Err(Error::Cipher),
        }
    }
}

} // verus!
