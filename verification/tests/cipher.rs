use secure_native::cipher::{transform, CipherSession, IvSource, Mode};
use secure_native::error::Error;
use secure_native::keystore::{KeyStore, SecretKey};
use secure_native::pkcs7::{pad, unpad};

#[test]
fn transform_names_the_fixed_configuration() {
    assert_eq!(transform(), "AES/CBC/PKCS7Padding");
}

#[test]
fn pad_fills_to_block_size() {
    assert_eq!(pad(&vec![]), vec![16u8; 16]);
    let padded = pad(&vec![1, 2, 3]);
    assert_eq!(padded.len(), 16);
    assert_eq!(&padded[..3], &[1, 2, 3]);
    assert_eq!(&padded[3..], &[13u8; 13][..]);
    let exact = pad(&vec![7u8; 16]);
    assert_eq!(exact.len(), 32);
    assert_eq!(&exact[16..], &[16u8; 16][..]);
}

#[test]
fn unpad_inverts_pad() {
    let cases: Vec<Vec<u8>> = vec![vec![], vec![9], vec![1; 15], vec![2; 16], vec![3; 17]];
    for bytes in &cases {
        assert_eq!(unpad(&pad(bytes)), Some(bytes.clone()));
    }
}

#[test]
fn unpad_rejects_broken_padding() {
    assert_eq!(unpad(&vec![]), None);
    assert_eq!(unpad(&vec![1, 2, 3]), None);
    assert_eq!(unpad(&vec![0u8; 16]), None);
    assert_eq!(unpad(&vec![17u8; 16]), None);
    let mut broken = vec![5u8; 16];
    broken[13] = 9;
    assert_eq!(unpad(&broken), None);
}

#[test]
fn encrypt_then_decrypt_returns_plaintext() {
    let mut keys = KeyStore::new();
    let mut ivs = IvSource::new();
    let key = keys.ensure_key("svcacct", false);
    let t = transform();
    let enc = CipherSession::open_session(t.as_str(), Mode::Encrypt, &key, None, &mut ivs)
        .unwrap();
    let plain = b"attack at dawn".to_vec();
    let ct = enc.process(&plain).unwrap();
    assert_ne!(ct, plain);
    let iv = enc.current_iv();
    let dec = CipherSession::open_session(t.as_str(), Mode::Decrypt, &key, Some(iv), &mut ivs)
        .unwrap();
    assert_eq!(dec.process(&ct), Ok(plain));
}

#[test]
fn decrypt_with_wrong_iv_fails() {
    let mut keys = KeyStore::new();
    let mut ivs = IvSource::new();
    let key = keys.ensure_key("svcacct", false);
    let t = transform();
    let enc = CipherSession::open_session(t.as_str(), Mode::Encrypt, &key, None, &mut ivs)
        .unwrap();
    let ct = enc.process(&b"payload".to_vec()).unwrap();
    let mut wrong_iv = enc.current_iv();
    wrong_iv[0] ^= 1;
    let dec = CipherSession::open_decrypt(t.as_str(), &key, wrong_iv).unwrap();
    assert_eq!(dec.process(&ct), Err(Error::Cipher));
}

#[test]
fn decrypt_with_wrong_key_fails() {
    let mut keys = KeyStore::new();
    let mut ivs = IvSource::new();
    let key1 = keys.ensure_key("alias1", false);
    let key2 = keys.ensure_key("alias2", false);
    let t = transform();
    let enc = CipherSession::open_session(t.as_str(), Mode::Encrypt, &key1, None, &mut ivs)
        .unwrap();
    let ct = enc.process(&b"payload".to_vec()).unwrap();
    let dec = CipherSession::open_decrypt(t.as_str(), &key2, enc.current_iv()).unwrap();
    assert_eq!(dec.process(&ct), Err(Error::Cipher));
}

#[test]
fn open_rejects_unknown_transform() {
    let mut ivs = IvSource::new();
    let key = SecretKey { id: 4, require_auth: false };
    let r = CipherSession::open_session("DES/ECB/NoPadding", Mode::Encrypt, &key, None, &mut ivs);
    assert!(matches!(r, Err(Error::Cipher)));
}

#[test]
fn open_checks_iv_shape() {
    let mut ivs = IvSource::new();
    let key = SecretKey { id: 4, require_auth: false };
    let t = transform();
    // Decryption demands an IV.
    let r = CipherSession::open_session(t.as_str(), Mode::Decrypt, &key, None, &mut ivs);
    assert!(matches!(r, Err(Error::Cipher)));
    // ... of exactly sixteen bytes.
    let r = CipherSession::open_session(t.as_str(), Mode::Decrypt, &key, Some(vec![0u8; 8]),
        &mut ivs);
    assert!(matches!(r, Err(Error::Cipher)));
    // Encryption draws its own IV and refuses a supplied one.
    let r = CipherSession::open_session(t.as_str(), Mode::Encrypt, &key, Some(vec![0u8; 16]),
        &mut ivs);
    assert!(matches!(r, Err(Error::Cipher)));
}

#[test]
fn fresh_ivs_differ() {
    let mut ivs = IvSource::new();
    let a = ivs.fresh_iv();
    let b = ivs.fresh_iv();
    assert_eq!(a.len(), 16);
    assert_eq!(b.len(), 16);
    assert_ne!(a, b);
}

#[test]
fn ensure_key_is_idempotent() {
    let mut keys = KeyStore::new();
    let first = keys.ensure_key("svcacct", true);
    let again = keys.ensure_key("svcacct", false);
    assert_eq!(first, again);
    assert!(again.require_auth);
    let other = keys.ensure_key("svcother", false);
    assert_ne!(first.id, other.id);
    assert_eq!(keys.fetch_key("svcacct"), Some(first));
    assert_eq!(keys.fetch_key("missing"), None);
}
