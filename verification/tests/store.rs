use base64::Engine as _;
use devapi::error::Error;
use devapi::store::CredentialStore;
use devapi::store::EncryptedSecret;
use devapi::vault::Vault;

fn store() -> CredentialStore {
    let key = base64::engine::general_purpose::STANDARD.encode([9u8; 32]);
    CredentialStore::new(Vault::new(&key).unwrap())
}

#[test]
fn store_then_get_idempotent() {
    let mut s = store();
    let id = s.store_credential("github", "tok-123");
    for _ in 0..3 {
        let c = s.get_credential(id).unwrap();
        assert_eq!(c.id, id);
        assert_eq!(c.name, "github");
        assert_eq!(c.token, "tok-123");
    }
}

#[test]
fn distinct_ids_for_distinct_credentials() {
    let mut s = store();
    let a = s.store_credential("a", "x");
    let b = s.store_credential("b", "y");
    assert_ne!(a, b);
    assert_eq!(s.get_credential(a).unwrap().token, "x");
    assert_eq!(s.get_credential(b).unwrap().token, "y");
}

#[test]
fn unknown_id_is_not_found() {
    let s = store();
    assert_eq!(s.get_credential(42).unwrap_err(), Error::NotFoundError { id: 42 });
}

#[test]
fn rows_hold_sealed_base64_not_plaintext() {
    let mut s = store();
    let id = s.store_credential("svc", "hunter2");
    let rows = s.rows();
    assert_eq!(rows.len(), 1);
    assert_eq!(rows[0].id, id);
    assert_eq!(rows[0].name, "svc");
    let ct = base64::engine::general_purpose::STANDARD
        .decode(&rows[0].encrypted_token)
        .unwrap();
    assert_eq!(ct.len(), "hunter2".len() + 16);
    let nonce = base64::engine::general_purpose::STANDARD
        .decode(&rows[0].nonce)
        .unwrap();
    assert_eq!(nonce.len(), 12);
    assert!(rows[0].encrypted_token != "hunter2");
}

#[test]
fn rows_are_append_only() {
    let mut s = store();
    let a = s.store_credential("first", "t1");
    let before = s.rows()[0].clone();
    let _b = s.store_credential("second", "t2");
    assert_eq!(s.rows().len(), 2);
    assert_eq!(s.rows()[0].id, before.id);
    assert_eq!(s.rows()[0].name, before.name);
    assert_eq!(s.rows()[0].encrypted_token, before.encrypted_token);
    assert_eq!(s.rows()[0].nonce, before.nonce);
    assert_eq!(before.id, a);
}

#[test]
fn load_row_rehydrates_a_persisted_credential() {
    let key = base64::engine::general_purpose::STANDARD.encode([9u8; 32]);
    let mut old_store = CredentialStore::new(Vault::new(&key).unwrap());
    let id = old_store.store_credential("github", "tok-123");
    let row = old_store.rows()[0].clone();

    let mut fresh = CredentialStore::new(Vault::new(&key).unwrap());
    assert!(!fresh.contains_id(id));
    fresh.load_row(row).unwrap();
    assert!(fresh.contains_id(id));
    let c = fresh.get_credential(id).unwrap();
    assert_eq!(c.name, "github");
    assert_eq!(c.token, "tok-123");
}

#[test]
fn load_row_rejects_tampering_and_wrong_keys() {
    let key = base64::engine::general_purpose::STANDARD.encode([9u8; 32]);
    let mut old_store = CredentialStore::new(Vault::new(&key).unwrap());
    let _ = old_store.store_credential("svc", "hunter2");
    let row = old_store.rows()[0].clone();

    // one bit flipped in the sealed bytes
    let mut ct = base64::engine::general_purpose::STANDARD
        .decode(&row.encrypted_token)
        .unwrap();
    ct[0] ^= 1;
    let tampered = EncryptedSecret {
        encrypted_token: base64::engine::general_purpose::STANDARD.encode(&ct),
        ..row.clone()
    };
    let mut fresh = CredentialStore::new(Vault::new(&key).unwrap());
    assert_eq!(fresh.load_row(tampered), Err(Error::DecryptionError));

    // fields that are not base64, or a nonce of the wrong length
    let bad_b64 = EncryptedSecret { nonce: "***".to_string(), ..row.clone() };
    assert_eq!(fresh.load_row(bad_b64), Err(Error::DecryptionError));
    let short_nonce = EncryptedSecret {
        nonce: base64::engine::general_purpose::STANDARD.encode([0u8; 11]),
        ..row.clone()
    };
    assert_eq!(fresh.load_row(short_nonce), Err(Error::DecryptionError));

    // the right row under another key
    let other_key = base64::engine::general_purpose::STANDARD.encode([8u8; 32]);
    let mut other = CredentialStore::new(Vault::new(&other_key).unwrap());
    assert_eq!(other.load_row(row), Err(Error::DecryptionError));
    assert_eq!(other.rows().len(), 0);
}

#[test]
fn load_row_rejects_sealed_bytes_that_are_not_text() {
    let key = base64::engine::general_purpose::STANDARD.encode([9u8; 32]);
    let vault = Vault::new(&key).unwrap();
    let (ct, nonce) = vault.seal(&[0xff, 0xfe]);
    let row = EncryptedSecret {
        id: 7,
        name: "binary".to_string(),
        encrypted_token: base64::engine::general_purpose::STANDARD.encode(&ct),
        nonce: base64::engine::general_purpose::STANDARD.encode(&nonce),
    };
    let mut s = CredentialStore::new(Vault::new(&key).unwrap());
    assert_eq!(s.load_row(row), Err(Error::EncodingError));
}
