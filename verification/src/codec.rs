//! Trusted text codecs: base64 and UTF-8.
use vstd::prelude::*;
use vstd::utf8::valid_utf8;
use vstd::utf8::decode_utf8;

verus! {

/// The standard padded base64 encoding of `bytes`.
pub uninterp spec fn b64_of(bytes: Seq<u8>) -> Seq<char>;

/// Relies on base64's `STANDARD` engine `encode`: the canonical padded
/// encoding, a function of the input bytes alone.
#[verifier::external_body]
pub(crate) fn b64_encode(bytes: &[u8]) -> (r: String)
    ensures
        r@ == b64_of(bytes@),
{
    base64::Engine::encode(&base64::engine::general_purpose::STANDARD, bytes)
}

/// Relies on base64's `STANDARD` engine `decode`, which accepts exactly
/// the canonical padded encodings (canonical padding required, trailing
/// bits must be zero) and inverts `encode` on them.
#[verifier::external_body]
pub(crate) fn b64_decode(s: &str) -> (r: Option<Vec<u8>>)
    ensures
        forall|bytes: Seq<u8>| s@ == b64_of(bytes) ==> r is Some && r.unwrap()@ == bytes,
        r is Some ==> s@ == b64_of(r.unwrap()@),
{
    match base64::Engine::decode(&base64::engine::general_purpose::STANDARD, s) {
        Ok(v) => Some(v),
        Err(_) => None,
    }
}

/// Relies on `String::from_utf8`: `Some` exactly on valid UTF-8, decoding
/// the bytes to their text.
#[verifier::external_body]
pub(crate) fn bytes_to_string(bytes: Vec<u8>) -> (r: Option<String>)
    ensures
        valid_utf8(bytes@) ==> r is Some && r.unwrap()@ == decode_utf8(bytes@),
        !valid_utf8(bytes@) ==> r is None,
{
    match String::from_utf8(bytes) {
        Ok(s) => Some(s),
        Err(_) => None,
    }
}

} // verus!
