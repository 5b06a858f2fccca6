use crate::error::Error;
use vstd::prelude::*;

verus! {

/// The text subcommands: signing, verification, key generation, and
/// authenticated encryption and decryption.
pub enum TextSubCommand {
    Sign(TextSignOpts),
    Verify(TextVerifyOpts),
    Generate(TextKeyGenerateOpts),
    Encrypt(TextEncryptOpts),
    Decrypt(TextDecryptOpts),
}

pub struct TextSignOpts {
    pub input: String,
    pub key: String,
    pub format: TextSignFormat,
}

pub struct TextVerifyOpts {
    pub input: String,
    pub key: String,
    pub format: TextSignFormat,
    pub sig: String,
}

pub struct TextKeyGenerateOpts {
    pub format: TextSignFormat,
    pub output: String,
}

pub struct TextEncryptOpts {
    pub input: String,
    pub key: String,
    pub output: String,
}

pub struct TextDecryptOpts {
    pub input: String,
    pub key: String,
    pub output: String,
}

/// The format tag selecting which signing algorithm is active.
#[derive(Debug, Clone, Copy, PartialEq, Eq, Structural)]
pub enum TextSignFormat {
    Blake3,
    Ed25519,
}

/// The exhaustive mapping from a tag's textual spelling to the tag;
/// every unrecognized spelling is rejected.
pub open spec fn format_from_text(s: Seq<char>) -> Result<TextSignFormat, Error> {
    if s == "blake3"@ {
        Ok(TextSignFormat::Blake3)
    } else if s == "ed25519"@ {
        Ok(TextSignFormat::Ed25519)
    } else {
        Err(Error::Format)
    }
}

/// Parses a user-supplied format tag, rejecting unknown spellings at
/// parse time rather than at algorithm construction time.
pub fn parse_format(format: &str) -> (r: Result<TextSignFormat, Error>)
    ensures
        r == format_from_text(format@),
{
    let f = format.to_owned();
    if f == String::from_str("blake3") {
        Ok(TextSignFormat::Blake3)
    } else if f == String::from_str("ed25519") {
        Ok(TextSignFormat::Ed25519)
    } else {
        Err(Error::Format)
    }
}

impl core::str::FromStr for TextSignFormat {
    type Err = Error;

    fn from_str(s: &str) -> Result<Self, Error> {
        parse_format(s)
    }
}

impl TextSignFormat {
    /// The textual spelling of the tag; the inverse of `parse_format`.
    pub fn as_str(&self) -> (r: &'static str)
        ensures
            *self == TextSignFormat::Blake3 ==> r@ == "blake3"@,
            *self == TextSignFormat::Ed25519 ==> r@ == "ed25519"@,
    {
        match self {
            TextSignFormat::Blake3 => "blake3",
            TextSignFormat::Ed25519 => "ed25519",
        }
    }
}

} // verus!
