use secure_native::codec::{decode, encode};
use secure_native::error::Error;

fn enc(bytes: &[u8]) -> String {
    encode(&bytes.to_vec())
}

#[test]
fn encode_standard_vectors() {
    assert_eq!(enc(b""), "");
    assert_eq!(enc(b"f"), "Zg==");
    assert_eq!(enc(b"fo"), "Zm8=");
    assert_eq!(enc(b"foo"), "Zm9v");
    assert_eq!(enc(b"foob"), "Zm9vYg==");
    assert_eq!(enc(b"fooba"), "Zm9vYmE=");
    assert_eq!(enc(b"foobar"), "Zm9vYmFy");
}

#[test]
fn encode_covers_whole_alphabet() {
    assert_eq!(enc(&[0x00, 0x10, 0x83]), "ABCD");
    assert_eq!(enc(&[0xfb, 0xef, 0xbe]), "++++");
    assert_eq!(enc(&[0xff, 0xff, 0xff]), "////");
    assert_eq!(enc(&[0xff]), "/w==");
}

#[test]
fn decode_inverts_encode() {
    let cases: Vec<Vec<u8>> = vec![
        vec![],
        vec![0],
        vec![255],
        vec![1, 2],
        vec![1, 2, 3],
        vec![1, 2, 3, 4],
        b"The quick brown fox jumps over the lazy dog".to_vec(),
        (0u16..=255).map(|b| b as u8).collect(),
    ];
    for bytes in &cases {
        let text = encode(bytes);
        assert_eq!(decode(text.as_str()), Ok(bytes.clone()));
    }
}

#[test]
fn decode_exact_values() {
    assert_eq!(decode(""), Ok(vec![]));
    assert_eq!(decode("QQ=="), Ok(vec![b'A']));
    assert_eq!(decode("QUI="), Ok(vec![b'A', b'B']));
    assert_eq!(decode("QUJD"), Ok(vec![b'A', b'B', b'C']));
}

#[test]
fn decode_rejects_malformed_input() {
    // Length not a multiple of four.
    assert_eq!(decode("A"), Err(Error::Codec));
    assert_eq!(decode("AB"), Err(Error::Codec));
    assert_eq!(decode("ABC"), Err(Error::Codec));
    assert_eq!(decode("QUJDRא"), Err(Error::Codec));
    // Bytes outside the alphabet.
    assert_eq!(decode("AB!="), Err(Error::Codec));
    assert_eq!(decode("A B="), Err(Error::Codec));
    assert_eq!(decode("AAAA\n"), Err(Error::Codec));
    // Misplaced padding.
    assert_eq!(decode("===="), Err(Error::Codec));
    assert_eq!(decode("A==="), Err(Error::Codec));
    assert_eq!(decode("AB=C"), Err(Error::Codec));
    assert_eq!(decode("=AAA"), Err(Error::Codec));
    // Padding in a non-final group.
    assert_eq!(decode("QQ==QQ=="), Err(Error::Codec));
    // Non-ASCII text.
    assert_eq!(decode("éééé"), Err(Error::Codec));
}
