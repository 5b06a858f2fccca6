use vstd::prelude::*;

verus! {

/// The failure cases of the text-operation layer.
///
/// A failed signature or MAC comparison is never an `Error`: it is the
/// `false` branch of a verification result that callers must handle.
#[derive(Debug, Clone, Copy, PartialEq, Eq, Structural)]
pub enum Error {
    /// Key material is shorter than the algorithm requires, or the
    /// algorithm's native key constructor rejects the bytes.
    KeyFormat,
    /// A supplied signature, nonce or ciphertext string is not valid
    /// base64, has the wrong decoded length, or a required record line
    /// or prefix is missing.
    Decode,
    /// The authentication tag check failed during decryption; no
    /// plaintext is released.
    AeadIntegrity,
    /// An unrecognized format tag.
    Format,
}

impl Error {
    /// A short description of the error, for display by callers.
    pub fn message(&self) -> (r: &'static str)
        ensures
            *self == Error::KeyFormat ==> r@ == "key material is malformed or too short"@,
            *self == Error::Decode ==> r@ == "input is not a well-formed encoded value"@,
            *self == Error::AeadIntegrity ==> r@ == "ciphertext integrity check failed"@,
            *self == Error::Format ==> r@ == "invalid format"@,
    {
        match self {
            Error::KeyFormat => "key material is malformed or too short",
            Error::Decode => "input is not a well-formed encoded value",
            Error::AeadIntegrity => "ciphertext integrity check failed",
            Error::Format => "invalid format",
        }
    }
}

} // verus!
