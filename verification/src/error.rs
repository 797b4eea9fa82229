use vstd::prelude::*;

verus! {

/// The failure kinds of the vault, the credential store, the secret
/// resolver and the workflow executor.
#[derive(Debug, Clone, Copy, PartialEq, Eq, Structural)]
pub enum Error {
    /// The configured key material is absent, malformed, or not 256 bits
    /// after decoding.
    KeyError,
    /// Authentication-tag verification failed, or the nonce did not have
    /// the required 96-bit length.
    DecryptionError,
    /// Decrypted bytes were not valid text.
    EncodingError,
    /// No credential is stored under the referenced id.
    NotFoundError { id: u128 },
    /// A placeholder's identifier does not parse as a canonical
    /// hyphenated 128-bit id.
    InvalidReferenceError,
    /// A step's method does not name an HTTP verb.
    MethodError { step: usize },
    /// A step's URL was rejected by the transport.
    UrlError { step: usize },
    /// A step's response body was not valid JSON.
    ResponseParseError { step: usize },
    /// The transport failed to deliver a request or a response.
    NetworkError { step: usize },
}

} // verus!
