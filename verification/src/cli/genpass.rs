use vstd::prelude::*;

verus! {

/// Options of the random password generator: the requested length and
/// which character classes must be represented.
pub struct GenpassOpts {
    pub length: u8,
    pub uppercase: bool,
    pub lowercase: bool,
    pub number: bool,
    pub symbol: bool,
}

} // verus!
