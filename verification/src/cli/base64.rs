use crate::error::Error;
use vstd::prelude::*;

verus! {

/// The base64 alphabet variant: the standard alphabet with `=`
/// padding, or the URL-safe alphabet without padding.
#[derive(Debug, Clone, Copy, PartialEq, Eq, Structural)]
pub enum Base64Format {
    Standard,
    UrlSafe,
}

/// The base64 utility subcommands.
pub enum Base64SubCommand {
    Encode(Base64EncodeOpts),
    Decode(Base64DecodeOpts),
}

pub struct Base64EncodeOpts {
    pub input: String,
    pub format: Base64Format,
}

pub struct Base64DecodeOpts {
    pub input: String,
    pub format: Base64Format,
}

/// The exhaustive mapping from an alphabet's spelling to the tag.
pub open spec fn base64_format_from_text(s: Seq<char>) -> Result<Base64Format, Error> {
    if s == "standard"@ {
        Ok(Base64Format::Standard)
    } else if s == "urlsafe"@ {
        Ok(Base64Format::UrlSafe)
    } else {
        Err(Error::Format)
    }
}

/// Parses a base64 alphabet tag, rejecting unknown spellings.
pub fn parse_base64_format(format: &str) -> (r: Result<Base64Format, Error>)
    ensures
        r == base64_format_from_text(format@),
{
    let f = format.to_owned();
    if f == String::from_str("standard") {
        Ok(Base64Format::Standard)
    } else if f == String::from_str("urlsafe") {
        Ok(Base64Format::UrlSafe)
    } else {
        Err(Error::Format)
    }
}

impl core::str::FromStr for Base64Format {
    type Err = Error;

    fn from_str(s: &str) -> Result<Self, Error> {
        parse_base64_format(s)
    }
}

} // verus!
