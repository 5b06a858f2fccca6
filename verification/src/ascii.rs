use vstd::prelude::*;

verus! {

/// The characters of a sequence of ASCII bytes, one character per byte.
pub open spec fn ascii_chars_of(s: Seq<u8>) -> Seq<char> {
    Seq::new(s.len(), |i: int| s[i] as char)
}

/// The text form of an ASCII byte string carries exactly those
/// bytes: encoding its characters back to UTF-8 is the identity.
/// This links a returned `String`'s characters to the byte view that
/// the byte-level contracts speak of.
pub proof fn lemma_ascii_chars_encode(s: Seq<u8>)
    requires
        forall|i: int| 0 <= i < s.len() ==> s[i] < 128,
    ensures
        vstd::utf8::is_ascii_chars(ascii_chars_of(s)),
        vstd::utf8::encode_utf8(ascii_chars_of(s)) == s,
{
    let chars = ascii_chars_of(s);
    assert forall|i: int| 0 <= i < chars.len() implies '\0' <= #[trigger] chars[i] <= '\u{7f}' by {
        assert(chars[i] == s[i] as char);
    }
    vstd::utf8::is_ascii_chars_encode_utf8(chars);
    assert forall|i: int|
        0 <= i < vstd::utf8::encode_utf8(chars).len() implies #[trigger] vstd::utf8::encode_utf8(
        chars,
    )[i] == s[i] by {
        assert(chars[i] as u8 == vstd::utf8::encode_utf8(chars)[i]);
        assert(chars[i] == s[i] as char);
    }
    assert(vstd::utf8::encode_utf8(chars) =~= s);
}

/// Relies on String::from_utf8: bytes below 128 are valid UTF-8 and
/// decode to exactly one code point per byte.
#[verifier::external_body]
pub(crate) fn ascii_to_string(v: Vec<u8>) -> (r: String)
    requires
        forall|i: int| 0 <= i < v@.len() ==> v@[i] < 128,
    ensures
        r@ == ascii_chars_of(v@),
{
    String::from_utf8(v).unwrap()
}

} // verus!
