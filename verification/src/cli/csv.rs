use crate::error::Error;
use vstd::prelude::*;

verus! {

/// The structured output format of the CSV conversion.
#[derive(Debug, Clone, Copy, PartialEq, Eq, Structural)]
pub enum Outputformat {
    Json,
    Yaml,
}

pub struct CsvOpts {
    pub input: String,
    pub output: Option<String>,
    pub format: Outputformat,
    pub delimiter: char,
    pub header: bool,
}

/// The exhaustive mapping from an output format's spelling to the tag.
pub open spec fn output_format_from_text(s: Seq<char>) -> Result<Outputformat, Error> {
    if s == "json"@ {
        Ok(Outputformat::Json)
    } else if s == "yaml"@ {
        Ok(Outputformat::Yaml)
    } else {
        Err(Error::Format)
    }
}

/// Parses an output format tag, rejecting unknown spellings.
pub fn parse_format(format: &str) -> (r: Result<Outputformat, Error>)
    ensures
        r == output_format_from_text(format@),
{
    let f = format.to_owned();
    if f == String::from_str("json") {
        Ok(Outputformat::Json)
    } else if f == String::from_str("yaml") {
        Ok(Outputformat::Yaml)
    } else {
        Err(Error::Format)
    }
}

impl core::str::FromStr for Outputformat {
    type Err = Error;

    fn from_str(s: &str) -> Result<Self, Error> {
        parse_format(s)
    }
}

impl Outputformat {
    /// The textual spelling of the tag; the inverse of `parse_format`.
    pub fn as_str(&self) -> (r: &'static str)
        ensures
            *self == Outputformat::Json ==> r@ == "json"@,
            *self == Outputformat::Yaml ==> r@ == "yaml"@,
    {
        match self {
            Outputformat::Json => "json",
            Outputformat::Yaml => "yaml",
        }
    }
}

} // verus!
