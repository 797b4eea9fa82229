//! The AEAD vault: authenticated encryption of secret tokens.
//!
//! Tokens are sealed with AES-256-GCM under a process-wide 256-bit key
//! and a fresh random 96-bit nonce per seal; the sealed form is the
//! ciphertext followed by the 128-bit authentication tag.
use vstd::prelude::*;
use vstd::utf8::valid_utf8;
use vstd::utf8::decode_utf8;
use crate::error::Error;
use crate::codec::b64_of;
use crate::codec::b64_decode;
use crate::codec::bytes_to_string;

verus! {

/// AES-256-GCM sealing: ciphertext followed by the 128-bit tag, as a
/// function of key, nonce and plaintext alone.
pub uninterp spec fn gcm_seal(key: Seq<u8>, nonce: Seq<u8>, pt: Seq<u8>) -> Seq<u8>;

/// Relies on ring: `UnboundKey::new(&AES_256_GCM, ..)` and
/// `LessSafeKey::seal_in_place_separate_tag` (the key construction only
/// converts the key bytes).  Sealing is deterministic in key, nonce and
/// plaintext, appends a 16-byte tag, and fails only when the plaintext
/// exceeds the cipher's length limit, which the `requires` rules out.
#[verifier::external_body]
fn aead_seal(key: &[u8], nonce: &[u8], pt: &[u8]) -> (r: Vec<u8>)
    requires
        key@.len() == 32,
        nonce@.len() == 12,
        pt@.len() <= 0x1_0000_0000,
    ensures
        r@ == gcm_seal(key@, nonce@, pt@),
        r@.len() == pt@.len() + 16,
{
    let unbound = ring::aead::UnboundKey::new(&ring::aead::AES_256_GCM, key).unwrap();
    let k = ring::aead::LessSafeKey::new(unbound);
    let mut nb = [0u8; 12];
    nb.copy_from_slice(nonce);
    let n = ring::aead::Nonce::assume_unique_for_key(nb);
    let mut buf = pt.to_vec();
    let tag = k.seal_in_place_separate_tag(n, ring::aead::Aad::empty(), &mut buf).unwrap();
    buf.extend_from_slice(tag.as_ref());
    buf
}

/// Relies on ring: `UnboundKey::new(&AES_256_GCM, ..)` and
/// `LessSafeKey::open_in_place`.  Opening verifies the tag and succeeds
/// exactly on sealed inputs: on the seal of some plaintext under this
/// key and nonce it returns that plaintext (AES-GCM under one key and
/// nonce is deterministic and, being length-preserving, injective), and
/// whatever it returns, the input was exactly that plaintext's seal — so
/// on an input that is the seal of nothing it fails.  The returned
/// length is the input's less the tag.
#[verifier::external_body]
fn aead_open(key: &[u8], nonce: &[u8], ct: &[u8]) -> (r: Option<Vec<u8>>)
    requires
        key@.len() == 32,
        nonce@.len() == 12,
    ensures
        forall|pt: Seq<u8>| ct@ == gcm_seal(key@, nonce@, pt) ==> r is Some && r.unwrap()@ == pt,
        r is Some ==> ct@ == gcm_seal(key@, nonce@, r.unwrap()@),
        r is Some ==> r.unwrap()@.len() + 16 == ct@.len(),
{
    let unbound = ring::aead::UnboundKey::new(&ring::aead::AES_256_GCM, key).unwrap();
    let k = ring::aead::LessSafeKey::new(unbound);
    let mut nb = [0u8; 12];
    nb.copy_from_slice(nonce);
    let n = ring::aead::Nonce::assume_unique_for_key(nb);
    let mut buf = ct.to_vec();
    match k.open_in_place(n, ring::aead::Aad::empty(), &mut buf) {
        Ok(p) => {
            let out = p.to_vec();
            Some(out)
        },
        Err(_) => None,
    }
}

/// Relies on ring's `SystemRandom::fill` for 12 random bytes; nothing is
/// assumed of their values.  Aborts only if the system's entropy source
/// fails, as the surrounding system would.
#[verifier::external_body]
fn fresh_nonce() -> (r: Vec<u8>)
    ensures
        r@.len() == 12,
{
    let rng = ring::rand::SystemRandom::new();
    let mut nb = [0u8; 12];
    ring::rand::SecureRandom::fill(&rng, &mut nb).expect("system randomness unavailable");
    nb.to_vec()
}

/// The AEAD vault: holds the 256-bit key, decoded once at construction
/// and never re-read.
pub struct Vault {
    key: Vec<u8>,
}

impl Vault {
    /// The vault's key bytes.
    pub closed spec fn key(&self) -> Seq<u8> {
        self.key@
    }

    /// A vault is well formed when its key is exactly 256 bits.
    pub closed spec fn wf(&self) -> bool {
        self.key@.len() == 32
    }

    /// Builds a vault from base64-encoded key material; `KeyError`
    /// exactly when the text is not the encoding of 32 bytes.
    pub fn new(key_b64: &str) -> (r: Result<Vault, Error>)
        ensures
            match r {
                Ok(v) => v.wf() && key_b64@ == b64_of(v.key()),
                Err(e) => e == Error::KeyError && forall|bytes: Seq<u8>|
                    key_b64@ == b64_of(bytes) ==> bytes.len() != 32,
            },
    {
        match b64_decode(key_b64) {
            Some(kb) => {
                if kb.len() == 32 {
                    Ok(Vault { key: kb })
                } else {
                    Err(Error::KeyError)
                }
            },
            None => Err(Error::KeyError),
        }
    }

    /// Seals `plaintext` under a fresh random 96-bit nonce; returns the
    /// ciphertext-with-tag and the nonce used.
    pub fn seal(&self, plaintext: &[u8]) -> (r: (Vec<u8>, Vec<u8>))
        requires
            self.wf(),
            // a conservative cap, well under the cipher's own limit of
            // (2^39 - 256) / 8 bytes per sealing
            plaintext@.len() <= 0x1_0000_0000,
        ensures
            r.1@.len() == 12,
            r.0@ == gcm_seal(self.key(), r.1@, plaintext@),
            r.0@.len() == plaintext@.len() + 16,
    {
        let nonce = fresh_nonce();
        let ct = aead_seal(self.key.as_slice(), nonce.as_slice(), plaintext);
        (ct, nonce)
    }

    /// Opens a sealed ciphertext: a nonce of the wrong length or a failed
    /// tag verification is `DecryptionError`; decrypted bytes that are
    /// not valid text are `EncodingError`.  On the seal of any plaintext
    /// under this key and nonce, the result is that plaintext's text:
    /// `open` inverts `seal`.  Conversely, success comes only on sealed
    /// inputs: a ciphertext that is the seal of no plaintext — tampered
    /// or corrupted data — fails with `DecryptionError`, never with a
    /// made-up text.
    pub fn open(&self, ct: &[u8], nonce: &[u8]) -> (r: Result<String, Error>)
        requires
            self.wf(),
        ensures
            nonce@.len() != 12 ==> r == Err::<String, Error>(Error::DecryptionError),
            nonce@.len() == 12 ==> forall|pt: Seq<u8>|
                ct@ == gcm_seal(self.key(), nonce@, pt) ==> (if valid_utf8(pt) {
                    r is Ok && r.unwrap()@ == decode_utf8(pt)
                } else {
                    r == Err::<String, Error>(Error::EncodingError)
                }),
            (nonce@.len() == 12 && (forall|pt: Seq<u8>| ct@ != gcm_seal(self.key(), nonce@, pt)))
                ==> r == Err::<String, Error>(Error::DecryptionError),
            r is Ok ==> exists|pt: Seq<u8>|
                ct@ == gcm_seal(self.key(), nonce@, pt) && valid_utf8(pt) && r.unwrap()@
                    == decode_utf8(pt) && ct@.len() == pt.len() + 16,
            r == Err::<String, Error>(Error::EncodingError) ==> exists|pt: Seq<u8>|
                ct@ == gcm_seal(self.key(), nonce@, pt) && !valid_utf8(pt),
            r is Err ==> (r.unwrap_err() == Error::DecryptionError || r.unwrap_err() == Error::EncodingError),
    {
        if nonce.len() != 12 {
            return Err(Error::DecryptionError);
        }
        match aead_open(self.key.as_slice(), nonce, ct) {
            None => Err(Error::DecryptionError),
            Some(pt) => {
                let ghost ptv = pt@;
                proof {
                    assert(ct@ == gcm_seal(self.key(), nonce@, ptv));
                }
                match bytes_to_string(pt) {
                    Some(s) => Ok(s),
                    None => Err(Error::EncodingError),
                }
            },
        }
    }
}

} // verus!
