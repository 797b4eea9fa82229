use base64::Engine as _;
use devapi::error::Error;
use devapi::vault::Vault;

fn test_key() -> String {
    base64::engine::general_purpose::STANDARD.encode([7u8; 32])
}

fn vault() -> Vault {
    Vault::new(&test_key()).unwrap()
}

#[test]
fn round_trip_plain_token() {
    let v = vault();
    let (ct, nonce) = v.seal(b"abc123");
    assert_eq!(v.open(&ct, &nonce).unwrap(), "abc123");
}

#[test]
fn round_trip_empty_token() {
    let v = vault();
    let (ct, nonce) = v.seal(b"");
    assert_eq!(ct.len(), 16);
    assert_eq!(v.open(&ct, &nonce).unwrap(), "");
}

#[test]
fn round_trip_unicode_token() {
    let v = vault();
    let secret = "p@ss wörd ∆ 秘密";
    let (ct, nonce) = v.seal(secret.as_bytes());
    assert_eq!(ct.len(), secret.as_bytes().len() + 16);
    assert_eq!(v.open(&ct, &nonce).unwrap(), secret);
}

#[test]
fn nonce_uniqueness_over_many_seals() {
    let v = vault();
    let mut seen = std::collections::HashSet::new();
    for _ in 0..1000 {
        let (_, nonce) = v.seal(b"tok");
        assert_eq!(nonce.len(), 12);
        assert!(seen.insert(nonce), "a nonce repeated");
    }
}

#[test]
fn tamper_detection_every_bit() {
    let v = vault();
    let (ct, nonce) = v.seal(b"topsecret");
    for byte in 0..ct.len() {
        for bit in 0..8 {
            let mut bad = ct.clone();
            bad[byte] ^= 1 << bit;
            assert_eq!(v.open(&bad, &nonce), Err(Error::DecryptionError));
        }
    }
}

#[test]
fn wrong_nonce_length_is_decryption_error() {
    let v = vault();
    let (ct, nonce) = v.seal(b"tok");
    assert_eq!(v.open(&ct, &nonce[0..11]), Err(Error::DecryptionError));
    assert_eq!(v.open(&ct, &[]), Err(Error::DecryptionError));
}

#[test]
fn non_text_plaintext_is_encoding_error() {
    let v = vault();
    let (ct, nonce) = v.seal(&[0xff, 0xfe, 0x00]);
    assert_eq!(v.open(&ct, &nonce), Err(Error::EncodingError));
}

#[test]
fn bad_key_material_is_key_error() {
    assert!(matches!(Vault::new("not base64 at all!"), Err(Error::KeyError)));
    let short = base64::engine::general_purpose::STANDARD.encode([1u8; 16]);
    assert!(matches!(Vault::new(&short), Err(Error::KeyError)));
    let long = base64::engine::general_purpose::STANDARD.encode([1u8; 33]);
    assert!(matches!(Vault::new(&long), Err(Error::KeyError)));
}
