//! The credential service: four stateless operations over the platform
//! collaborators.
//!
//! A secret is stored under a `(service, account)` pair. `put` ensures a
//! hardware key under the alias `service ++ account`, encrypts the value
//! with a fresh IV, base64-encodes ciphertext and IV, and commits both into
//! the service's namespace under the keys `account` and `account ++ "iv"`,
//! atomically. `get` reads the two entries back, fetches the existing key,
//! decodes, and decrypts with the stored IV. `contains` and `delete` touch
//! only the backing store; `delete` removes both entries atomically and
//! leaves the hardware key behind.
//!
//! The service itself owns no state: all durable state lives in the
//! [`Platform`] value the operations act on.

use vstd::prelude::*;
use vstd::string::{StringExecFns, StrSliceExecFns};
use vstd::utf8::{encode_utf8, decode_utf8, valid_utf8, encode_utf8_valid_utf8,
    encode_utf8_decode_utf8};
use crate::cipher::{CipherSession, IvSource, Mode, next_counter, spec_dec, spec_enc, spec_iv_of,
    transform, lemma_enc_dec, lemma_dec_wrong_iv, lemma_iv_of_len, lemma_successive_ivs_distinct};
use crate::codec;
use crate::codec::{spec_encode, spec_text_decode, spec_text_valid, lemma_text_round_trip,
    lemma_text_injective};
use crate::error::Error;
use crate::keystore::{KeyStore, SecretKey};
use crate::store::{SecretStore, last_write, key_listed};
use crate::text::string_from_utf8;

verus! {

/// The durable platform state the operations act on: the preference-style
/// backing store, the hardware key store, and the cipher provider's IV
/// source.
pub struct Platform {
    pub store: SecretStore,
    pub keys: KeyStore,
    pub ivs: IvSource,
}

impl Platform {
    /// A platform with an empty store and key store.
    pub fn new() -> (r: Platform)
        ensures
            forall|ns: Seq<char>, k: Seq<char>| #[trigger] r.store.spec_read(ns, k) is None,
            forall|a: Seq<char>| #[trigger] r.keys.spec_key(a) is None,
            !r.store.spec_fault(),
            r.ivs.spec_counter() == 0,
            r.keys.spec_next_id() == 0,
    {
        Platform { store: SecretStore::new(), keys: KeyStore::new(), ivs: IvSource::new() }
    }
}

/// The alias a pair's hardware key lives under: `service ++ account`.
pub open spec fn spec_alias(service: Seq<char>, account: Seq<char>) -> Seq<char> {
    service + account
}

/// The store key of a pair's IV entry: `account ++ "iv"`.
pub open spec fn spec_iv_key(account: Seq<char>) -> Seq<char> {
    account + "iv"@
}

/// The IV entry's key never collides with the ciphertext entry's key.
pub proof fn lemma_iv_key_distinct(account: Seq<char>)
    ensures
        spec_iv_key(account) != account,
{
    reveal_strlit("iv");
    assert(spec_iv_key(account).len() == account.len() + 2);
}

/// Builds the alias of a pair.
pub fn alias_of(service: &str, account: &str) -> (r: String)
    ensures
        r@ == spec_alias(service@, account@),
{
    let mut s: String = service.to_owned();
    s.append(account);
    s
}

/// Builds the store key of a pair's IV entry.
pub fn iv_key_of(account: &str) -> (r: String)
    ensures
        r@ == spec_iv_key(account@),
{
    let mut s: String = account.to_owned();
    s.append("iv");
    s
}

/// The key a `put` uses: the key already under the alias, or the one that
/// key creation will produce.
pub open spec fn spec_put_key(
    pre: Platform,
    service: Seq<char>,
    account: Seq<char>,
    with_biometry: bool,
) -> SecretKey {
    match pre.keys.spec_key(spec_alias(service, account)) {
        Some(k) => k,
        None => SecretKey { id: pre.keys.spec_next_id(), require_auth: with_biometry },
    }
}

/// The IV a `put` starting from `pre` draws.
pub open spec fn spec_put_iv(pre: Platform) -> Seq<u8> {
    spec_iv_of(pre.ivs.spec_counter())
}

/// The ciphertext a `put` starting from `pre` produces.
pub open spec fn spec_put_ciphertext(
    pre: Platform,
    service: Seq<char>,
    account: Seq<char>,
    value: Seq<char>,
    with_biometry: bool,
) -> Seq<u8> {
    spec_enc(
        spec_put_key(pre, service, account, with_biometry).id,
        spec_put_iv(pre),
        encode_utf8(value),
    )
}

/// How a committed `put` changes the platform: the key is ensured, the IV
/// counter has advanced, and the two encoded entries replace whatever the
/// pair's namespace keys held, with everything else untouched.
pub open spec fn put_committed(
    pre: Platform,
    post: Platform,
    service: Seq<char>,
    account: Seq<char>,
    value: Seq<char>,
    with_biometry: bool,
) -> bool {
    &&& !pre.store.spec_fault()
    &&& !post.store.spec_fault()
    &&& post.keys.spec_key(spec_alias(service, account)) == Some(
        spec_put_key(pre, service, account, with_biometry),
    )
    &&& forall|a2: Seq<char>|
        a2 != spec_alias(service, account) ==> #[trigger] post.keys.spec_key(a2)
            == pre.keys.spec_key(a2)
    &&& post.keys.spec_next_id() == if pre.keys.spec_key(spec_alias(service, account)) is Some {
        pre.keys.spec_next_id()
    } else if pre.keys.spec_next_id() == u64::MAX {
        0u64
    } else {
        (pre.keys.spec_next_id() + 1) as u64
    }
    &&& post.ivs.spec_counter() == next_counter(pre.ivs.spec_counter())
    &&& forall|ns2: Seq<char>, k2: Seq<char>| #[trigger]
        post.store.spec_read(ns2, k2) == if ns2 == service && k2 == account {
            Some(spec_encode(spec_put_ciphertext(pre, service, account, value, with_biometry)))
        } else if ns2 == service && k2 == spec_iv_key(account) {
            Some(spec_encode(spec_put_iv(pre)))
        } else {
            pre.store.spec_read(ns2, k2)
        }
}

/// How a `put` whose commit faulted leaves the platform: the key is still
/// ensured and the IV counter has still advanced, but the store contents
/// are exactly what they were — no partial record.
pub open spec fn put_rolled_back(
    pre: Platform,
    post: Platform,
    service: Seq<char>,
    account: Seq<char>,
    with_biometry: bool,
) -> bool {
    &&& pre.store.spec_fault()
    &&& !post.store.spec_fault()
    &&& post.keys.spec_key(spec_alias(service, account)) == Some(
        spec_put_key(pre, service, account, with_biometry),
    )
    &&& forall|a2: Seq<char>|
        a2 != spec_alias(service, account) ==> #[trigger] post.keys.spec_key(a2)
            == pre.keys.spec_key(a2)
    &&& post.ivs.spec_counter() == next_counter(pre.ivs.spec_counter())
    &&& forall|ns2: Seq<char>, k2: Seq<char>| #[trigger]
        post.store.spec_read(ns2, k2) == pre.store.spec_read(ns2, k2)
}

/// What `get` returns on a given platform: the decrypted secret when both
/// entries, the key, the encodings, the IV and the padding are intact, and
/// the first applicable error otherwise.
pub open spec fn spec_get(env: Platform, service: Seq<char>, account: Seq<char>) -> Result<
    Seq<char>,
    Error,
> {
    let ct_read = env.store.spec_read(service, account);
    let iv_read = env.store.spec_read(service, spec_iv_key(account));
    if ct_read is None || iv_read is None {
        Err(Error::NotFound)
    } else {
        match env.keys.spec_key(spec_alias(service, account)) {
            None => Err(Error::KeyNotFound),
            Some(key) => {
                let ct_text = ct_read.unwrap();
                let iv_text = iv_read.unwrap();
                if !spec_text_valid(ct_text) || !spec_text_valid(iv_text) {
                    Err(Error::Codec)
                } else {
                    let ct = spec_text_decode(ct_text);
                    let iv = spec_text_decode(iv_text);
                    if iv.len() != 16 {
                        Err(Error::Cipher)
                    } else {
                        match spec_dec(key.id, iv, ct) {
                            None => Err(Error::Cipher),
                            Some(p) => if valid_utf8(p) {
                                Ok(decode_utf8(p))
                            } else {
                                Err(Error::Cipher)
                            },
                        }
                    }
                }
            },
        }
    }
}

/// Stores a secret for the pair: ensures the hardware key under the
/// pair's alias, encrypts the value under a fresh IV, encodes ciphertext
/// and IV as base64, and commits both entries atomically. Nothing is
/// written if any step fails; in this model only the commit itself can
/// fail, and a faulted commit leaves the store contents exactly as they
/// were.
pub fn put(
    env: &mut Platform,
    service: &str,
    account: &str,
    value: &str,
    with_biometry: bool,
) -> (r: Result<(), Error>)
    requires
        encode_utf8(value@).len() + 32 <= usize::MAX,
    ensures
        r is Ok <==> !old(env).store.spec_fault(),
        r matches Err(e) ==> e == Error::Commit,
        r is Ok ==> put_committed(
            *old(env),
            *final(env),
            service@,
            account@,
            value@,
            with_biometry,
        ),
        r is Err ==> put_rolled_back(*old(env), *final(env), service@, account@, with_biometry),
{
    let alias = alias_of(service, account);
    let t = transform();
    let key = env.keys.ensure_key(alias.as_str(), with_biometry);
    proof {
        assert(key == spec_put_key(*old(env), service@, account@, with_biometry));
    }
    let session = match CipherSession::open_session(
        t.as_str(),
        Mode::Encrypt,
        &key,
        None,
        &mut env.ivs,
    ) {
        Ok(s) => s,
        Err(e) => {
            proof {
                assert(false);
            }
            return Err(e);
        },
    };
    let value_bytes = value.as_bytes_vec();
    let encrypted = match session.process(&value_bytes) {
        Ok(v) => v,
        Err(e) => {
            proof {
                assert(false);
            }
            return Err(e);
        },
    };
    let iv = session.current_iv();
    proof {
        assert(encrypted@ == spec_put_ciphertext(
            *old(env),
            service@,
            account@,
            value@,
            with_biometry,
        ));
        assert(iv@ == spec_put_iv(*old(env)));
    }
    let ct_b64 = codec::encode(&encrypted);
    let iv_b64 = codec::encode(&iv);
    let mut batch: Vec<(String, String)> = Vec::new();
    batch.push((account.to_owned(), ct_b64));
    batch.push((iv_key_of(account), iv_b64));
    let r = env.store.write_batch(service, &batch);
    proof {
        lemma_iv_key_distinct(account@);
        assert(batch@.len() == 2);
        assert(batch@.last() == batch@[1]);
        assert(batch@.drop_last() =~= seq![batch@[0]]);
        assert(seq![batch@[0]].last() == batch@[0]);
        assert(seq![batch@[0]].drop_last() =~= Seq::<(String, String)>::empty());
        assert forall|k2: Seq<char>| true implies #[trigger] last_write(batch@, k2) == (if k2
            == spec_iv_key(account@) {
            Some(spec_encode(spec_put_iv(*old(env))))
        } else if k2 == account@ {
            Some(
                spec_encode(
                    spec_put_ciphertext(*old(env), service@, account@, value@, with_biometry),
                ),
            )
        } else {
            None::<Seq<char>>
        }) by {
            assert(batch@[1].0@ == spec_iv_key(account@));
            assert(batch@[0].0@ == account@);
            assert(batch@[1].1@ == spec_encode(spec_put_iv(*old(env))));
            assert(batch@[0].1@ == spec_encode(
                spec_put_ciphertext(*old(env), service@, account@, value@, with_biometry),
            ));
            assert(batch@.drop_last() == seq![batch@[0]]);
            if k2 == spec_iv_key(account@) {
                assert(last_write(batch@, k2) == Some(batch@[1].1@));
            } else if k2 == account@ {
                assert(last_write(batch@, k2) == last_write(seq![batch@[0]], k2));
                assert(last_write(seq![batch@[0]], k2) == Some(batch@[0].1@));
            } else {
                assert(last_write(batch@, k2) == last_write(seq![batch@[0]], k2));
                assert(last_write(seq![batch@[0]], k2) == last_write(
                    Seq::<(String, String)>::empty(),
                    k2,
                ));
                assert(last_write(Seq::<(String, String)>::empty(), k2) is None);
            }
        };
    }
    match r {
        Ok(()) => Ok(()),
        Err(e) => Err(e),
    }
}

/// Retrieves the pair's secret: reads both entries (absence of either is
/// `NotFound`), fetches the existing key (absence is `KeyNotFound`,
/// distinct from `NotFound`), decodes both entries, and decrypts with the
/// stored IV. A tampered entry surfaces as `Codec`; a wrong IV, wrong
/// key, broken padding, or plaintext that is not UTF-8 text surfaces as
/// `Cipher`.
pub fn get(env: &Platform, service: &str, account: &str) -> (r: Result<String, Error>)
    ensures
        match r {
            Ok(s) => spec_get(*env, service@, account@) == Ok::<Seq<char>, Error>(s@),
            Err(e) => spec_get(*env, service@, account@) == Err::<Seq<char>, Error>(e),
        },
{
    let ct_text = match env.store.read(service, account) {
        Some(s) => s,
        None => {
            return Err(Error::NotFound);
        },
    };
    let ivk = iv_key_of(account);
    let iv_text = match env.store.read(service, ivk.as_str()) {
        Some(s) => s,
        None => {
            return Err(Error::NotFound);
        },
    };
    let alias = alias_of(service, account);
    let key = match env.keys.fetch_key(alias.as_str()) {
        Some(k) => k,
        None => {
            return Err(Error::KeyNotFound);
        },
    };
    let ct = match codec::decode(ct_text.as_str()) {
        Ok(v) => v,
        Err(e) => {
            return Err(e);
        },
    };
    let iv = match codec::decode(iv_text.as_str()) {
        Ok(v) => v,
        Err(e) => {
            return Err(e);
        },
    };
    let t = transform();
    let session = match CipherSession::open_decrypt(t.as_str(), &key, iv) {
        Ok(s) => s,
        Err(e) => {
            return Err(e);
        },
    };
    let plain = match session.process(&ct) {
        Ok(v) => v,
        Err(e) => {
            return Err(e);
        },
    };
    let ghost plain_bytes = plain@;
    match string_from_utf8(plain) {
        Some(s) => {
            proof {
                encode_utf8_decode_utf8(s@);
            }
            Ok(s)
        },
        None => Err(Error::Cipher),
    }
}

/// Whether any record exists for the pair: a pure existence check against
/// the ciphertext entry, never touching the key store or the cipher.
pub fn contains(env: &Platform, service: &str, account: &str) -> (r: Result<bool, Error>)
    ensures
        r == Ok::<bool, Error>(env.store.spec_read(service@, account@) is Some),
{
    Ok(env.store.contains(service, account))
}

/// How a committed `delete` changes the platform: the pair's two entries
/// are gone, everything else — the hardware key included — is untouched.
pub open spec fn delete_committed(
    pre: Platform,
    post: Platform,
    service: Seq<char>,
    account: Seq<char>,
) -> bool {
    &&& post.keys == pre.keys
    &&& post.ivs == pre.ivs
    &&& forall|ns2: Seq<char>, k2: Seq<char>| #[trigger]
        post.store.spec_read(ns2, k2) == if ns2 == service && (k2 == account || k2 == spec_iv_key(
            account,
        )) {
            None::<Seq<char>>
        } else {
            pre.store.spec_read(ns2, k2)
        }
}

/// Removes the pair's ciphertext and IV entries, atomically; absent
/// entries are no error. The hardware key is not revoked: repeated
/// put/delete cycles leave the key under its alias.
pub fn delete(env: &mut Platform, service: &str, account: &str) -> (r: Result<(), Error>)
    ensures
        r is Ok <==> !old(env).store.spec_fault(),
        r matches Err(e) ==> e == Error::Commit,
        !final(env).store.spec_fault(),
        final(env).keys == old(env).keys,
        final(env).ivs == old(env).ivs,
        r is Ok ==> delete_committed(*old(env), *final(env), service@, account@),
        r is Err ==> forall|ns2: Seq<char>, k2: Seq<char>| #[trigger]
            final(env).store.spec_read(ns2, k2) == old(env).store.spec_read(ns2, k2),
{
    let account_key: String = account.to_owned();
    let iv_key: String = iv_key_of(account);
    let mut batch: Vec<String> = Vec::new();
    batch.push(account_key);
    batch.push(iv_key);
    let r = env.store.remove_batch(service, &batch);
    proof {
        assert(batch@[0]@ == account@);
        assert(batch@[1]@ == spec_iv_key(account@));
        assert forall|k2: Seq<char>| true implies #[trigger] key_listed(batch@, k2) == (k2
            == account@ || k2 == spec_iv_key(account@)) by {
            if k2 == account@ {
                assert(key_listed(batch@, k2));
            } else if k2 == spec_iv_key(account@) {
                assert(key_listed(batch@, k2));
            }
        };
    }
    match r {
        Ok(()) => Ok(()),
        Err(e) => Err(e),
    }
}

/// `contains` and `get` agree on absence: a pair whose ciphertext entry is
/// missing — exactly when `contains` answers `false` — is `NotFound` to
/// `get`.
pub proof fn lemma_absent_record_not_found(env: Platform, service: Seq<char>, account: Seq<char>)
    requires
        env.store.spec_read(service, account) is None,
    ensures
        spec_get(env, service, account) == Err::<Seq<char>, Error>(Error::NotFound),
{
}

/// Round trip: after a committed `put` of any UTF-8 text, `get` on the
/// same pair returns exactly that text.
pub proof fn lemma_put_get_round_trip(
    pre: Platform,
    post: Platform,
    service: Seq<char>,
    account: Seq<char>,
    value: Seq<char>,
    with_biometry: bool,
)
    requires
        put_committed(pre, post, service, account, value, with_biometry),
    ensures
        spec_get(post, service, account) == Ok::<Seq<char>, Error>(value),
{
    lemma_iv_key_distinct(account);
    let key = spec_put_key(pre, service, account, with_biometry);
    let iv = spec_put_iv(pre);
    let ct = spec_put_ciphertext(pre, service, account, value, with_biometry);
    assert(post.store.spec_read(service, account) == Some(spec_encode(ct)));
    assert(post.store.spec_read(service, spec_iv_key(account)) == Some(spec_encode(iv)));
    lemma_text_round_trip(ct);
    lemma_text_round_trip(iv);
    lemma_iv_of_len(pre.ivs.spec_counter());
    lemma_enc_dec(key.id, iv, encode_utf8(value));
    encode_utf8_valid_utf8(value);
    encode_utf8_decode_utf8(value);
}

/// After a committed `delete`, both entries are gone: `contains` sees
/// nothing and `get` reports `NotFound`.
pub proof fn lemma_delete_removes_record(
    pre: Platform,
    post: Platform,
    service: Seq<char>,
    account: Seq<char>,
)
    requires
        delete_committed(pre, post, service, account),
    ensures
        post.store.spec_read(service, account) is None,
        post.store.spec_read(service, spec_iv_key(account)) is None,
        spec_get(post, service, account) == Err::<Seq<char>, Error>(Error::NotFound),
{
}

/// `delete` of a pair that has no record is a no-op on the store: every
/// entry reads as before.
pub proof fn lemma_delete_absent_is_noop(
    pre: Platform,
    post: Platform,
    service: Seq<char>,
    account: Seq<char>,
)
    requires
        delete_committed(pre, post, service, account),
        pre.store.spec_read(service, account) is None,
        pre.store.spec_read(service, spec_iv_key(account)) is None,
    ensures
        forall|ns2: Seq<char>, k2: Seq<char>| #[trigger]
            post.store.spec_read(ns2, k2) == pre.store.spec_read(ns2, k2),
{
    assert forall|ns2: Seq<char>, k2: Seq<char>| true implies #[trigger] post.store.spec_read(
        ns2,
        k2,
    ) == pre.store.spec_read(ns2, k2) by {
        if ns2 == service && (k2 == account || k2 == spec_iv_key(account)) {
            assert(pre.store.spec_read(ns2, k2) is None);
        }
    };
}

/// IV uniqueness: two consecutive committed `put` calls for the same pair
/// store different IV entries, whatever the values written.
pub proof fn lemma_successive_put_ivs_differ(
    pre: Platform,
    mid: Platform,
    post: Platform,
    service: Seq<char>,
    account: Seq<char>,
    v1: Seq<char>,
    v2: Seq<char>,
    b1: bool,
    b2: bool,
)
    requires
        put_committed(pre, mid, service, account, v1, b1),
        put_committed(mid, post, service, account, v2, b2),
    ensures
        mid.store.spec_read(service, spec_iv_key(account)) != post.store.spec_read(
            service,
            spec_iv_key(account),
        ),
{
    lemma_iv_key_distinct(account);
    let iv1 = spec_put_iv(pre);
    let iv2 = spec_put_iv(mid);
    assert(mid.store.spec_read(service, spec_iv_key(account)) == Some(spec_encode(iv1)));
    assert(post.store.spec_read(service, spec_iv_key(account)) == Some(spec_encode(iv2)));
    lemma_successive_ivs_distinct(pre.ivs.spec_counter());
    assert(iv1 != iv2);
    if spec_encode(iv1) == spec_encode(iv2) {
        lemma_text_injective(iv1, iv2);
    }
}

/// Corruption detection: when a record's IV entry holds a different
/// sixteen-byte IV than the one its ciphertext was produced with — as
/// after swapping the IV entries of two distinct records — `get` reports
/// a cipher failure, never a silently wrong plaintext.
pub proof fn lemma_swapped_iv_detected(
    env: Platform,
    service: Seq<char>,
    account: Seq<char>,
    key: SecretKey,
    iv_own: Seq<u8>,
    iv_other: Seq<u8>,
    plain: Seq<u8>,
)
    requires
        env.store.spec_read(service, account) == Some(spec_encode(spec_enc(key.id, iv_own, plain))),
        env.store.spec_read(service, spec_iv_key(account)) == Some(spec_encode(iv_other)),
        env.keys.spec_key(spec_alias(service, account)) == Some(key),
        iv_own.len() == 16,
        iv_other.len() == 16,
        iv_own != iv_other,
    ensures
        spec_get(env, service, account) == Err::<Seq<char>, Error>(Error::Cipher),
{
    lemma_text_round_trip(spec_enc(key.id, iv_own, plain));
    lemma_text_round_trip(iv_other);
    lemma_dec_wrong_iv(key.id, iv_own, iv_other, plain);
}

/// Atomic write: a `put` whose commit faulted leaves no partial record —
/// where no record existed, `contains` still sees nothing and `get` still
/// reports `NotFound`.
pub proof fn lemma_failed_put_leaves_no_record(
    pre: Platform,
    post: Platform,
    service: Seq<char>,
    account: Seq<char>,
    with_biometry: bool,
)
    requires
        put_rolled_back(pre, post, service, account, with_biometry),
        pre.store.spec_read(service, account) is None,
    ensures
        post.store.spec_read(service, account) is None,
        post.store.spec_read(service, spec_iv_key(account)) == pre.store.spec_read(
            service,
            spec_iv_key(account),
        ),
        spec_get(post, service, account) == Err::<Seq<char>, Error>(Error::NotFound),
{
}

} // verus!
