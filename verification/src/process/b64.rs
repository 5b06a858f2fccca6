//! Base64 encoding and decoding over the two alphabets the tool uses:
//! the standard alphabet with `=` padding and the URL-safe alphabet
//! without padding. Decoding is the exact inverse of encoding and
//! rejects every string that encoding cannot produce from some input.

use crate::ascii::{ascii_chars_of, ascii_to_string};
use crate::cli::base64::Base64Format;
use crate::error::Error;
use vstd::prelude::*;

verus! {

/// The byte encoding digit value 62: `+` for the standard alphabet,
/// `-` for the URL-safe one.
pub open spec fn b64_sym62(fmt: Base64Format) -> u8 {
    match fmt {
        Base64Format::Standard => 43,
        Base64Format::UrlSafe => 45,
    }
}

/// The byte encoding digit value 63: `/` for the standard alphabet,
/// `_` for the URL-safe one.
pub open spec fn b64_sym63(fmt: Base64Format) -> u8 {
    match fmt {
        Base64Format::Standard => 47,
        Base64Format::UrlSafe => 95,
    }
}

/// The alphabet byte of a six-bit digit value.
pub open spec fn b64_char(fmt: Base64Format, d: u8) -> u8
    recommends
        d < 64,
{
    if d < 26 {
        (65 + d) as u8  // 'A'..='Z'
    } else if d < 52 {
        (97 + (d - 26)) as u8  // 'a'..='z'
    } else if d < 62 {
        (48 + (d - 52)) as u8  // '0'..='9'
    } else if d == 62 {
        b64_sym62(fmt)
    } else {
        b64_sym63(fmt)
    }
}

/// Whether a byte belongs to the alphabet.
pub open spec fn b64_is_digit(fmt: Base64Format, c: u8) -> bool {
    (65 <= c && c <= 90) || (97 <= c && c <= 122) || (48 <= c && c <= 57) || c == b64_sym62(fmt)
        || c == b64_sym63(fmt)
}

/// The six-bit value of an alphabet byte (zero for bytes outside it).
pub open spec fn b64_val(fmt: Base64Format, c: u8) -> u8 {
    if 65 <= c && c <= 90 {
        (c - 65) as u8
    } else if 97 <= c && c <= 122 {
        (26 + (c - 97)) as u8
    } else if 48 <= c && c <= 57 {
        (52 + (c - 48)) as u8
    } else if c == b64_sym62(fmt) {
        62
    } else if c == b64_sym63(fmt) {
        63
    } else {
        0
    }
}

/// The alphabet digits encoding a byte sequence, three bytes to four
/// digits, with a shorter final group for a remainder of one or two
/// bytes. No padding is included here.
pub open spec fn b64_encode_digits(fmt: Base64Format, s: Seq<u8>) -> Seq<u8>
    decreases s.len(),
{
    if s.len() == 0 {
        Seq::empty()
    } else if s.len() == 1 {
        seq![b64_char(fmt, s[0] >> 2), b64_char(fmt, (s[0] & 3) << 4)]
    } else if s.len() == 2 {
        seq![
            b64_char(fmt, s[0] >> 2),
            b64_char(fmt, ((s[0] & 3) << 4) | (s[1] >> 4)),
            b64_char(fmt, (s[1] & 15) << 2),
        ]
    } else {
        seq![
            b64_char(fmt, s[0] >> 2),
            b64_char(fmt, ((s[0] & 3) << 4) | (s[1] >> 4)),
            b64_char(fmt, ((s[1] & 15) << 2) | (s[2] >> 6)),
            b64_char(fmt, s[2] & 63),
        ] + b64_encode_digits(fmt, s.skip(3))
    }
}

/// The `=` padding appended for the standard alphabet; the URL-safe
/// alphabet is used without padding.
pub open spec fn b64_pad(fmt: Base64Format, n: int) -> Seq<u8> {
    match fmt {
        Base64Format::Standard => if n % 3 == 1 {
            seq![61u8, 61u8]
        } else if n % 3 == 2 {
            seq![61u8]
        } else {
            Seq::empty()
        },
        Base64Format::UrlSafe => Seq::empty(),
    }
}

/// The full text encoding of a byte sequence: digits plus padding.
pub open spec fn b64_encode(fmt: Base64Format, s: Seq<u8>) -> Seq<u8> {
    b64_encode_digits(fmt, s) + b64_pad(fmt, s.len() as int)
}

/// Removes the padding of an encoded string before digit decoding, or
/// rejects the string when its padded length is not a multiple of
/// four. The URL-safe alphabet carries no padding to remove.
pub open spec fn b64_strip_pad(fmt: Base64Format, t: Seq<u8>) -> Option<Seq<u8>> {
    match fmt {
        Base64Format::UrlSafe => Some(t),
        Base64Format::Standard => {
            let n = t.len() as int;
            if n % 4 != 0 {
                None
            } else if n >= 2 && t[n - 1] == 61 && t[n - 2] == 61 {
                Some(t.take(n - 2))
            } else if n >= 1 && t[n - 1] == 61 {
                Some(t.take(n - 1))
            } else {
                Some(t)
            }
        },
    }
}

/// Decodes a padding-free digit string, four digits to three bytes.
/// A single trailing digit, a byte outside the alphabet, or nonzero
/// unused trailing bits make the string undecodable.
pub open spec fn b64_decode_digits(fmt: Base64Format, t: Seq<u8>) -> Option<Seq<u8>>
    decreases t.len(),
{
    if t.len() == 0 {
        Some(Seq::empty())
    } else if t.len() == 1 {
        None
    } else if t.len() == 2 {
        if b64_is_digit(fmt, t[0]) && b64_is_digit(fmt, t[1]) && b64_val(fmt, t[1]) & 15 == 0 {
            Some(seq![(b64_val(fmt, t[0]) << 2) | (b64_val(fmt, t[1]) >> 4)])
        } else {
            None
        }
    } else if t.len() == 3 {
        if b64_is_digit(fmt, t[0]) && b64_is_digit(fmt, t[1]) && b64_is_digit(fmt, t[2])
            && b64_val(fmt, t[2]) & 3 == 0 {
            Some(
                seq![
                    (b64_val(fmt, t[0]) << 2) | (b64_val(fmt, t[1]) >> 4),
                    ((b64_val(fmt, t[1]) & 15) << 4) | (b64_val(fmt, t[2]) >> 2),
                ],
            )
        } else {
            None
        }
    } else {
        if b64_is_digit(fmt, t[0]) && b64_is_digit(fmt, t[1]) && b64_is_digit(fmt, t[2])
            && b64_is_digit(fmt, t[3]) {
            match b64_decode_digits(fmt, t.skip(4)) {
                Some(rest) => Some(
                    seq![
                        (b64_val(fmt, t[0]) << 2) | (b64_val(fmt, t[1]) >> 4),
                        ((b64_val(fmt, t[1]) & 15) << 4) | (b64_val(fmt, t[2]) >> 2),
                        ((b64_val(fmt, t[2]) & 3) << 6) | b64_val(fmt, t[3]),
                    ] + rest,
                ),
                None => None,
            }
        } else {
            None
        }
    }
}

/// The inverse of `b64_encode`: strips padding, then decodes digits.
pub open spec fn b64_decode(fmt: Base64Format, t: Seq<u8>) -> Option<Seq<u8>> {
    match b64_strip_pad(fmt, t) {
        Some(digits) => b64_decode_digits(fmt, digits),
        None => None,
    }
}

proof fn lemma_split1(a: u8)
    ensures
        a >> 2 < 64,
        (a & 3) << 4 < 64,
        ((a & 3) << 4) & 15 == 0,
        ((a >> 2) << 2) | (((a & 3) << 4) >> 4) == a,
{
    assert(a >> 2 < 64 && (a & 3) << 4 < 64 && ((a & 3) << 4) & 15 == 0 && ((a >> 2) << 2) | (((a
        & 3) << 4) >> 4) == a) by (bit_vector);
}

proof fn lemma_split2(a: u8, b: u8)
    ensures
        a >> 2 < 64,
        ((a & 3) << 4) | (b >> 4) < 64,
        (b & 15) << 2 < 64,
        ((b & 15) << 2) & 3 == 0,
        ((a >> 2) << 2) | ((((a & 3) << 4) | (b >> 4)) >> 4) == a,
        (((((a & 3) << 4) | (b >> 4)) & 15) << 4) | (((b & 15) << 2) >> 2) == b,
{
    assert(a >> 2 < 64 && ((a & 3) << 4) | (b >> 4) < 64 && (b & 15) << 2 < 64 && ((b & 15) << 2)
        & 3 == 0 && ((a >> 2) << 2) | ((((a & 3) << 4) | (b >> 4)) >> 4) == a && (((((a & 3) << 4)
        | (b >> 4)) & 15) << 4) | (((b & 15) << 2) >> 2) == b) by (bit_vector);
}

proof fn lemma_split3(a: u8, b: u8, c: u8)
    ensures
        a >> 2 < 64,
        ((a & 3) << 4) | (b >> 4) < 64,
        ((b & 15) << 2) | (c >> 6) < 64,
        c & 63 < 64,
        ((a >> 2) << 2) | ((((a & 3) << 4) | (b >> 4)) >> 4) == a,
        (((((a & 3) << 4) | (b >> 4)) & 15) << 4) | ((((b & 15) << 2) | (c >> 6)) >> 2) == b,
        (((((b & 15) << 2) | (c >> 6)) & 3) << 6) | (c & 63) == c,
{
    assert(a >> 2 < 64 && ((a & 3) << 4) | (b >> 4) < 64 && ((b & 15) << 2) | (c >> 6) < 64 && c
        & 63 < 64 && ((a >> 2) << 2) | ((((a & 3) << 4) | (b >> 4)) >> 4) == a && (((((a & 3) << 4)
        | (b >> 4)) & 15) << 4) | ((((b & 15) << 2) | (c >> 6)) >> 2) == b && (((((b & 15) << 2) | (
    c >> 6)) & 3) << 6) | (c & 63) == c) by (bit_vector);
}

/// Every alphabet byte is recovered exactly by the digit value map,
/// and is distinct from padding, newline, and all non-ASCII bytes.
proof fn lemma_char_val(fmt: Base64Format, d: u8)
    requires
        d < 64,
    ensures
        b64_is_digit(fmt, b64_char(fmt, d)),
        b64_val(fmt, b64_char(fmt, d)) == d,
        b64_char(fmt, d) != 61,
        b64_char(fmt, d) != 10,
        b64_char(fmt, d) < 128,
{
}

/// Bytes outside the alphabet include padding and all whitespace.
proof fn lemma_digit_shape(fmt: Base64Format, c: u8)
    ensures
        b64_is_digit(fmt, c) ==> c != 61 && !is_b64_space(c) && c < 128,
{
}

/// All digits that encoding emits belong to the alphabet.
proof fn lemma_encode_digits_valid(fmt: Base64Format, s: Seq<u8>)
    ensures
        forall|i: int|
            0 <= i < b64_encode_digits(fmt, s).len() ==> b64_is_digit(
                fmt,
                #[trigger] b64_encode_digits(fmt, s)[i],
            ),
    decreases s.len(),
{
    if s.len() == 0 {
    } else if s.len() == 1 {
        lemma_split1(s[0]);
        lemma_char_val(fmt, s[0] >> 2);
        lemma_char_val(fmt, (s[0] & 3) << 4);
    } else if s.len() == 2 {
        lemma_split2(s[0], s[1]);
        lemma_char_val(fmt, s[0] >> 2);
        lemma_char_val(fmt, ((s[0] & 3) << 4) | (s[1] >> 4));
        lemma_char_val(fmt, (s[1] & 15) << 2);
    } else {
        lemma_split3(s[0], s[1], s[2]);
        lemma_char_val(fmt, s[0] >> 2);
        lemma_char_val(fmt, ((s[0] & 3) << 4) | (s[1] >> 4));
        lemma_char_val(fmt, ((s[1] & 15) << 2) | (s[2] >> 6));
        lemma_char_val(fmt, s[2] & 63);
        lemma_encode_digits_valid(fmt, s.skip(3));
        let t = b64_encode_digits(fmt, s);
        let rest = b64_encode_digits(fmt, s.skip(3));
        assert forall|i: int| 0 <= i < t.len() implies b64_is_digit(fmt, t[i]) by {
            if i >= 4 {
                assert(t[i] == rest[i - 4]);
            }
        }
    }
}

/// The number of digits encoding emits: four per full group of three
/// bytes, plus two or three for a remainder of one or two bytes.
proof fn lemma_encode_digits_len(fmt: Base64Format, s: Seq<u8>)
    ensures
        b64_encode_digits(fmt, s).len() == 4 * (s.len() as int / 3) + (
        if s.len() as int % 3 == 0 {
            0int
        } else {
            s.len() as int % 3 + 1
        }),
    decreases s.len(),
{
    if s.len() >= 3 {
        lemma_encode_digits_len(fmt, s.skip(3));
    }
}

/// Encoding distributes over concatenation at a group boundary.
proof fn lemma_encode_digits_append(fmt: Base64Format, a: Seq<u8>, b: Seq<u8>)
    requires
        a.len() % 3 == 0,
    ensures
        b64_encode_digits(fmt, a + b) == b64_encode_digits(fmt, a) + b64_encode_digits(fmt, b),
    decreases a.len(),
{
    if a.len() == 0 {
        assert(a + b =~= b);
        assert(b64_encode_digits(fmt, a) + b64_encode_digits(fmt, b) =~= b64_encode_digits(
            fmt,
            b,
        ));
    } else {
        let ab = a + b;
        assert(ab.len() >= 3);
        assert(ab[0] == a[0] && ab[1] == a[1] && ab[2] == a[2]);
        assert(ab.skip(3) =~= a.skip(3) + b);
        lemma_encode_digits_append(fmt, a.skip(3), b);
        assert(b64_encode_digits(fmt, a + b) =~= b64_encode_digits(fmt, a) + b64_encode_digits(
            fmt,
            b,
        ));
    }
}

/// Digit decoding distributes over concatenation at a group boundary:
/// both halves must decode, and the results concatenate.
proof fn lemma_decode_digits_append(fmt: Base64Format, a: Seq<u8>, b: Seq<u8>)
    requires
        a.len() % 4 == 0,
    ensures
        b64_decode_digits(fmt, a + b) == match (
            b64_decode_digits(fmt, a),
            b64_decode_digits(fmt, b),
        ) {
            (Some(x), Some(y)) => Some(x + y),
            _ => None::<Seq<u8>>,
        },
    decreases a.len(),
{
    if a.len() == 0 {
        assert(a + b =~= b);
        assert(b64_decode_digits(fmt, a) == Some(Seq::<u8>::empty()));
        if b64_decode_digits(fmt, b) is Some {
            let y = b64_decode_digits(fmt, b)->Some_0;
            assert(Seq::<u8>::empty() + y =~= y);
        }
    } else {
        let ab = a + b;
        assert(a.len() >= 4);
        assert(ab.len() >= 4);
        assert(ab[0] == a[0] && ab[1] == a[1] && ab[2] == a[2] && ab[3] == a[3]);
        assert(ab.skip(4) =~= a.skip(4) + b);
        lemma_decode_digits_append(fmt, a.skip(4), b);
        if b64_is_digit(fmt, a[0]) && b64_is_digit(fmt, a[1]) && b64_is_digit(fmt, a[2])
            && b64_is_digit(fmt, a[3]) {
            let g = seq![
                (b64_val(fmt, a[0]) << 2) | (b64_val(fmt, a[1]) >> 4),
                ((b64_val(fmt, a[1]) & 15) << 4) | (b64_val(fmt, a[2]) >> 2),
                ((b64_val(fmt, a[2]) & 3) << 6) | b64_val(fmt, a[3]),
            ];
            match (b64_decode_digits(fmt, a.skip(4)), b64_decode_digits(fmt, b)) {
                (Some(x), Some(y)) => {
                    assert(b64_decode_digits(fmt, a) == Some(g + x));
                    assert(b64_decode_digits(fmt, ab) == Some(g + (x + y)));
                    assert(g + (x + y) =~= (g + x) + y);
                },
                _ => {},
            }
        }
    }
}

/// Digit decoding undoes digit encoding for every byte sequence.
proof fn lemma_b64_digits_round_trip(fmt: Base64Format, s: Seq<u8>)
    ensures
        b64_decode_digits(fmt, b64_encode_digits(fmt, s)) == Some(s),
    decreases s.len(),
{
    let t = b64_encode_digits(fmt, s);
    if s.len() == 0 {
        assert(t =~= Seq::<u8>::empty());
        assert(s =~= Seq::<u8>::empty());
    } else if s.len() == 1 {
        lemma_split1(s[0]);
        lemma_char_val(fmt, s[0] >> 2);
        lemma_char_val(fmt, (s[0] & 3) << 4);
        assert(b64_decode_digits(fmt, t) == Some(seq![s[0]]));
        assert(seq![s[0]] =~= s);
    } else if s.len() == 2 {
        lemma_split2(s[0], s[1]);
        lemma_char_val(fmt, s[0] >> 2);
        lemma_char_val(fmt, ((s[0] & 3) << 4) | (s[1] >> 4));
        lemma_char_val(fmt, (s[1] & 15) << 2);
        assert(b64_decode_digits(fmt, t) == Some(seq![s[0], s[1]]));
        assert(seq![s[0], s[1]] =~= s);
    } else {
        let d0 = s[0] >> 2;
        let d1 = ((s[0] & 3) << 4) | (s[1] >> 4);
        let d2 = ((s[1] & 15) << 2) | (s[2] >> 6);
        let d3 = s[2] & 63;
        lemma_split3(s[0], s[1], s[2]);
        lemma_char_val(fmt, d0);
        lemma_char_val(fmt, d1);
        lemma_char_val(fmt, d2);
        lemma_char_val(fmt, d3);
        let g = seq![
            b64_char(fmt, d0),
            b64_char(fmt, d1),
            b64_char(fmt, d2),
            b64_char(fmt, d3),
        ];
        let rest = b64_encode_digits(fmt, s.skip(3));
        assert(t =~= g + rest);
        lemma_b64_digits_round_trip(fmt, s.skip(3));
        lemma_decode_digits_append(fmt, g, rest);
        assert(g.skip(4) =~= Seq::<u8>::empty());
        assert(b64_decode_digits(fmt, Seq::<u8>::empty()) == Some(Seq::<u8>::empty()));
        assert(b64_is_digit(fmt, g[0]) && b64_is_digit(fmt, g[1]) && b64_is_digit(fmt, g[2])
            && b64_is_digit(fmt, g[3]));
        assert(b64_decode_digits(fmt, g) == Some(
            seq![
                (b64_val(fmt, g[0]) << 2) | (b64_val(fmt, g[1]) >> 4),
                ((b64_val(fmt, g[1]) & 15) << 4) | (b64_val(fmt, g[2]) >> 2),
                ((b64_val(fmt, g[2]) & 3) << 6) | b64_val(fmt, g[3]),
            ] + Seq::<u8>::empty(),
        ));
        assert(seq![s[0], s[1], s[2]] + Seq::<u8>::empty() =~= seq![s[0], s[1], s[2]]);
        assert(b64_decode_digits(fmt, g) == Some(seq![s[0], s[1], s[2]]));
        assert(b64_decode_digits(fmt, t) == Some(seq![s[0], s[1], s[2]] + s.skip(3)));
        assert(seq![s[0], s[1], s[2]] + s.skip(3) =~= s);
    }
}

/// Stripping the padding of a freshly encoded string yields exactly
/// its digits.
#[verifier::rlimit(100)]
proof fn lemma_strip_encode(fmt: Base64Format, s: Seq<u8>)
    ensures
        b64_strip_pad(fmt, b64_encode(fmt, s)) == Some(b64_encode_digits(fmt, s)),
{
    let digits = b64_encode_digits(fmt, s);
    let t = b64_encode(fmt, s);
    lemma_encode_digits_len(fmt, s);
    lemma_encode_digits_valid(fmt, s);
    match fmt {
        Base64Format::UrlSafe => {
            assert(t =~= digits);
        },
        Base64Format::Standard => {
            let n = s.len() as int;
            if n % 3 == 1 {
                assert(t.len() % 4 == 0);
                assert(t[t.len() - 1] == 61 && t[t.len() - 2] == 61);
                assert(t.take(t.len() - 2) =~= digits);
            } else if n % 3 == 2 {
                assert(t.len() % 4 == 0);
                assert(t[t.len() - 1] == 61);
                assert(digits.len() > 0);
                assert(t[t.len() - 2] == digits[digits.len() - 1]);
                lemma_digit_shape(fmt, digits[digits.len() - 1]);
                assert(t[t.len() - 2] != 61);
                assert(t.take(t.len() - 1) =~= digits);
            } else {
                assert(t =~= digits);
                assert(t.len() % 4 == 0);
                if t.len() >= 1 {
                    lemma_digit_shape(fmt, digits[digits.len() - 1]);
                    assert(t[t.len() - 1] != 61);
                }
            }
        },
    }
}

/// Decoding the base64 output of an encode operation reproduces the
/// exact original byte sequence, for every byte sequence and both
/// alphabets.
pub proof fn lemma_b64_round_trip(fmt: Base64Format, s: Seq<u8>)
    ensures
        b64_decode(fmt, b64_encode(fmt, s)) == Some(s),
{
    lemma_strip_encode(fmt, s);
    lemma_b64_digits_round_trip(fmt, s);
}

/// Every byte of an encoded string is ASCII and is neither a line
/// break nor any other whitespace.
pub proof fn lemma_b64_encode_ascii(fmt: Base64Format, s: Seq<u8>)
    ensures
        forall|i: int| 0 <= i < b64_encode(fmt, s).len() ==> #[trigger] b64_encode(fmt, s)[i]
            < 128,
        forall|i: int| 0 <= i < b64_encode(fmt, s).len() ==> #[trigger] b64_encode(fmt, s)[i]
            != 10,
        forall|i: int|
            0 <= i < b64_encode(fmt, s).len() ==> !is_b64_space(#[trigger] b64_encode(fmt, s)[i]),
{
    lemma_encode_digits_valid(fmt, s);
    let t = b64_encode(fmt, s);
    let digits = b64_encode_digits(fmt, s);
    assert forall|i: int| 0 <= i < t.len() implies t[i] < 128 && !is_b64_space(t[i]) by {
        if i < digits.len() {
            assert(t[i] == digits[i]);
            lemma_digit_shape(fmt, digits[i]);
        } else {
            assert(t[i] == 61);
        }
    }
}

/// Decoding the text that an encode operation emits, after the
/// decoder's whitespace trim, reproduces the exact original byte
/// sequence: what `process_decode` promises of what `process_encode`
/// returns.
pub proof fn lemma_text_encoding_round_trip(fmt: Base64Format, s: Seq<u8>)
    ensures
        b64_decode(fmt, b64_trim(b64_encode(fmt, s))) == Some(s),
{
    lemma_b64_encode_ascii(fmt, s);
    let t = b64_encode(fmt, s);
    assert(b64_trim(t) == t);
    lemma_b64_round_trip(fmt, s);
}

/// The ASCII whitespace bytes stripped from the ends of an encoded
/// string before decoding: space, tab, line feed, carriage return.
pub open spec fn is_b64_space(b: u8) -> bool {
    b == 32 || b == 9 || b == 10 || b == 13
}

/// A byte sequence with ASCII whitespace removed from both ends.
pub open spec fn b64_trim(s: Seq<u8>) -> Seq<u8>
    decreases s.len(),
{
    if s.len() > 0 && is_b64_space(s[0]) {
        b64_trim(s.drop_first())
    } else if s.len() > 0 && is_b64_space(s[s.len() - 1]) {
        b64_trim(s.drop_last())
    } else {
        s
    }
}

fn is_space_byte(b: u8) -> (r: bool)
    ensures
        r == is_b64_space(b),
{
    b == 32 || b == 9 || b == 10 || b == 13
}

/// Copies a byte slice with ASCII whitespace removed from both ends.
fn trim_ascii(input: &[u8]) -> (r: Vec<u8>)
    ensures
        r@ == b64_trim(input@),
{
    let n = input.len();
    let mut lo: usize = 0;
    let mut hi: usize = n;
    proof {
        assert(input@.subrange(0, n as int) =~= input@);
    }
    while lo < hi && is_space_byte(input[lo])
        invariant
            lo <= hi,
            hi <= n,
            n == input@.len(),
            b64_trim(input@) == b64_trim(input@.subrange(lo as int, hi as int)),
        decreases hi - lo,
    {
        proof {
            let s = input@.subrange(lo as int, hi as int);
            assert(s.drop_first() =~= input@.subrange(lo + 1, hi as int));
        }
        lo = lo + 1;
    }
    while hi > lo && is_space_byte(input[hi - 1])
        invariant
            lo <= hi,
            hi <= n,
            n == input@.len(),
            lo == hi || !is_b64_space(input@[lo as int]),
            b64_trim(input@) == b64_trim(input@.subrange(lo as int, hi as int)),
        decreases hi,
    {
        proof {
            let s = input@.subrange(lo as int, hi as int);
            assert(s.drop_last() =~= input@.subrange(lo as int, hi - 1));
        }
        hi = hi - 1;
    }
    proof {
        let s = input@.subrange(lo as int, hi as int);
        assert(b64_trim(s) == s);
    }
    let mut out: Vec<u8> = Vec::new();
    let mut k: usize = lo;
    while k < hi
        invariant
            lo <= k,
            k <= hi,
            hi <= n,
            n == input@.len(),
            out@ == input@.subrange(lo as int, k as int),
        decreases hi - k,
    {
        out.push(input[k]);
        proof {
            assert(out@ =~= input@.subrange(lo as int, k + 1));
        }
        k = k + 1;
    }
    proof {
        assert(out@ =~= input@.subrange(lo as int, hi as int));
    }
    out
}

/// Encodes the full input and returns the text form: the deliverable
/// of the encode subcommand.
pub fn process_encode(buf: &Vec<u8>, format: Base64Format) -> (r: String)
    ensures
        r@ == ascii_chars_of(b64_encode(format, buf@)),
{
    let digits = encode_bytes(format, buf.as_slice());
    proof {
        lemma_b64_encode_ascii(format, buf@);
    }
    ascii_to_string(digits)
}

/// Decodes the full input after trimming surrounding whitespace: the
/// deliverable of the decode subcommand. Every string that no encode
/// operation produces is rejected before any use of the result.
pub fn process_decode(buf: &Vec<u8>, format: Base64Format) -> (r: Result<Vec<u8>, Error>)
    ensures
        match b64_decode(format, b64_trim(buf@)) {
            Some(p) => r matches Ok(v) && v@ == p,
            None => r == Err::<Vec<u8>, Error>(Error::Decode),
        },
{
    let trimmed = trim_ascii(buf.as_slice());
    decode_bytes(format, trimmed.as_slice())
}

/// The alphabet byte of a six-bit value.
fn enc64(fmt: Base64Format, d: u8) -> (r: u8)
    requires
        d < 64,
    ensures
        r == b64_char(fmt, d),
{
    if d < 26 {
        65 + d
    } else if d < 52 {
        97 + (d - 26)
    } else if d < 62 {
        48 + (d - 52)
    } else if d == 62 {
        match fmt {
            Base64Format::Standard => 43,
            Base64Format::UrlSafe => 45,
        }
    } else {
        match fmt {
            Base64Format::Standard => 47,
            Base64Format::UrlSafe => 95,
        }
    }
}

/// The six-bit value of an alphabet byte, or nothing for a byte
/// outside the alphabet.
fn dec64(fmt: Base64Format, c: u8) -> (r: Option<u8>)
    ensures
        b64_is_digit(fmt, c) ==> r == Some(b64_val(fmt, c)),
        !b64_is_digit(fmt, c) ==> r is None,
{
    if 65 <= c && c <= 90 {
        Some(c - 65)
    } else if 97 <= c && c <= 122 {
        Some(26 + (c - 97))
    } else if 48 <= c && c <= 57 {
        Some(52 + (c - 48))
    } else {
        let s62 = match fmt {
            Base64Format::Standard => 43,
            Base64Format::UrlSafe => 45,
        };
        let s63 = match fmt {
            Base64Format::Standard => 47,
            Base64Format::UrlSafe => 95,
        };
        if c == s62 {
            Some(62)
        } else if c == s63 {
            Some(63)
        } else {
            None
        }
    }
}

/// Encodes a byte slice into alphabet digits plus padding.
pub fn encode_bytes(fmt: Base64Format, input: &[u8]) -> (r: Vec<u8>)
    ensures
        r@ == b64_encode(fmt, input@),
{
    let n = input.len();
    let mut out: Vec<u8> = Vec::new();
    let mut i: usize = 0;
    while n - i >= 3
        invariant
            i % 3 == 0,
            i <= n,
            n == input@.len(),
            out@ == b64_encode_digits(fmt, input@.take(i as int)),
        decreases n - i,
    {
        let a = input[i];
        let b = input[i + 1];
        let c = input[i + 2];
        proof {
            lemma_split3(a, b, c);
            let pre = input@.take(i as int);
            let g3 = seq![a, b, c];
            assert(input@.take(i + 3) =~= pre + g3);
            lemma_encode_digits_append(fmt, pre, g3);
            assert(g3.skip(3) =~= Seq::<u8>::empty());
            assert(g3.len() == 3 && g3[0] == a && g3[1] == b && g3[2] == c);
            assert(b64_encode_digits(fmt, Seq::<u8>::empty()) =~= Seq::<u8>::empty());
            assert(b64_encode_digits(fmt, g3) =~= seq![
                b64_char(fmt, a >> 2),
                b64_char(fmt, ((a & 3) << 4) | (b >> 4)),
                b64_char(fmt, ((b & 15) << 2) | (c >> 6)),
                b64_char(fmt, c & 63),
            ]);
        }
        out.push(enc64(fmt, a >> 2));
        out.push(enc64(fmt, ((a & 3) << 4) | (b >> 4)));
        out.push(enc64(fmt, ((b & 15) << 2) | (c >> 6)));
        out.push(enc64(fmt, c & 63));
        i = i + 3;
        assert(out@ =~= b64_encode_digits(fmt, input@.take(i as int)));
    }
    if n - i == 1 {
        let a = input[i];
        proof {
            lemma_split1(a);
            let pre = input@.take(i as int);
            let g1 = seq![a];
            assert(input@.take(n as int) =~= pre + g1);
            lemma_encode_digits_append(fmt, pre, g1);
            assert(b64_encode_digits(fmt, g1) =~= seq![
                b64_char(fmt, a >> 2),
                b64_char(fmt, (a & 3) << 4),
            ]);
        }
        out.push(enc64(fmt, a >> 2));
        out.push(enc64(fmt, (a & 3) << 4));
    } else if n - i == 2 {
        let a = input[i];
        let b = input[i + 1];
        proof {
            lemma_split2(a, b);
            let pre = input@.take(i as int);
            let g2 = seq![a, b];
            assert(input@.take(n as int) =~= pre + g2);
            lemma_encode_digits_append(fmt, pre, g2);
            assert(b64_encode_digits(fmt, g2) =~= seq![
                b64_char(fmt, a >> 2),
                b64_char(fmt, ((a & 3) << 4) | (b >> 4)),
                b64_char(fmt, (b & 15) << 2),
            ]);
        }
        out.push(enc64(fmt, a >> 2));
        out.push(enc64(fmt, ((a & 3) << 4) | (b >> 4)));
        out.push(enc64(fmt, (b & 15) << 2));
    }
    assert(input@.take(n as int) =~= input@);
    assert(out@ =~= b64_encode_digits(fmt, input@));
    match fmt {
        Base64Format::Standard => {
            if n % 3 == 1 {
                out.push(61);
                out.push(61);
            } else if n % 3 == 2 {
                out.push(61);
            }
        },
        Base64Format::UrlSafe => {},
    }
    assert(out@ =~= b64_encode(fmt, input@));
    out
}

/// Decodes an encoded string, rejecting everything that no encode
/// operation produces.
#[verifier::rlimit(60)]
pub fn decode_bytes(fmt: Base64Format, input: &[u8]) -> (r: Result<Vec<u8>, Error>)
    ensures
        match b64_decode(fmt, input@) {
            Some(p) => r matches Ok(v) && v@ == p,
            None => r == Err::<Vec<u8>, Error>(Error::Decode),
        },
{
    let n = input.len();
    let mut end = n;
    match fmt {
        Base64Format::Standard => {
            if n % 4 != 0 {
                return Err(Error::Decode);
            }
            if n >= 2 && input[n - 1] == 61 && input[n - 2] == 61 {
                end = n - 2;
            } else if n >= 1 && input[n - 1] == 61 {
                end = n - 1;
            }
        },
        Base64Format::UrlSafe => {},
    }
    let ghost digits = input@.take(end as int);
    proof {
        assert(input@.take(n as int) =~= input@);
        assert(b64_strip_pad(fmt, input@) == Some(digits));
    }
    let mut out: Vec<u8> = Vec::new();
    let mut j: usize = 0;
    proof {
        assert(digits.skip(0) =~= digits);
    }
    while end - j >= 4
        invariant
            j % 4 == 0,
            j <= end,
            end <= n,
            n == input@.len(),
            digits == input@.take(end as int),
            b64_strip_pad(fmt, input@) == Some(digits),
            b64_decode_digits(fmt, digits) == match b64_decode_digits(fmt, digits.skip(j as int)) {
                Some(rest) => Some(out@ + rest),
                None => None::<Seq<u8>>,
            },
        decreases end - j,
    {
        let ghost tail = digits.skip(j as int);
        let ghost out0 = out@;
        proof {
            assert(tail.len() >= 4);
            assert(tail[0] == input@[j as int]);
            assert(tail[1] == input@[j + 1]);
            assert(tail[2] == input@[j + 2]);
            assert(tail[3] == input@[j + 3]);
        }
        let v0 = dec64(fmt, input[j]);
        let v1 = dec64(fmt, input[j + 1]);
        let v2 = dec64(fmt, input[j + 2]);
        let v3 = dec64(fmt, input[j + 3]);
        match (v0, v1, v2, v3) {
            (Some(d0), Some(d1), Some(d2), Some(d3)) => {
                out.push((d0 << 2) | (d1 >> 4));
                out.push(((d1 & 15) << 4) | (d2 >> 2));
                out.push(((d2 & 3) << 6) | d3);
                proof {
                    let g = seq![
                        (d0 << 2) | (d1 >> 4),
                        ((d1 & 15) << 4) | (d2 >> 2),
                        ((d2 & 3) << 6) | d3,
                    ];
                    assert(out@ =~= out0 + g);
                    assert(tail.skip(4) =~= digits.skip(j + 4));
                    let dd = b64_decode_digits(fmt, digits.skip(j + 4));
                    assert(b64_decode_digits(fmt, tail) == match dd {
                        Some(rest) => Some(g + rest),
                        None => None::<Seq<u8>>,
                    });
                    if dd is Some {
                        let rest = dd->Some_0;
                        assert(out0 + (g + rest) =~= (out0 + g) + rest);
                    }
                }
                j = j + 4;
            },
            _ => {
                proof {
                    assert(b64_decode_digits(fmt, tail) is None);
                    assert(b64_decode_digits(fmt, digits) is None);
                    assert(b64_decode(fmt, input@) is None);
                }
                return Err(Error::Decode);
            },
        }
    }
    let ghost tail = digits.skip(j as int);
    let ghost out0 = out@;
    if end - j == 0 {
        proof {
            assert(tail =~= Seq::<u8>::empty());
            assert(out@ + Seq::<u8>::empty() =~= out@);
        }
        Ok(out)
    } else if end - j == 1 {
        proof {
            assert(tail.len() == 1);
        }
        Err(Error::Decode)
    } else if end - j == 2 {
        proof {
            assert(tail.len() == 2);
            assert(tail[0] == input@[j as int] && tail[1] == input@[j + 1]);
        }
        let v0 = dec64(fmt, input[j]);
        let v1 = dec64(fmt, input[j + 1]);
        match (v0, v1) {
            (Some(d0), Some(d1)) => {
                if d1 & 15 == 0 {
                    out.push((d0 << 2) | (d1 >> 4));
                    proof {
                        assert(b64_decode_digits(fmt, tail) == Some(
                            seq![(d0 << 2) | (d1 >> 4)],
                        ));
                        assert(out@ =~= out0 + seq![(d0 << 2) | (d1 >> 4)]);
                    }
                    Ok(out)
                } else {
                    Err(Error::Decode)
                }
            },
            _ => Err(Error::Decode),
        }
    } else {
        proof {
            assert(tail.len() == 3);
            assert(tail[0] == input@[j as int] && tail[1] == input@[j + 1] && tail[2] == input@[j
                + 2]);
        }
        let v0 = dec64(fmt, input[j]);
        let v1 = dec64(fmt, input[j + 1]);
        let v2 = dec64(fmt, input[j + 2]);
        match (v0, v1, v2) {
            (Some(d0), Some(d1), Some(d2)) => {
                if d2 & 3 == 0 {
                    out.push((d0 << 2) | (d1 >> 4));
                    out.push(((d1 & 15) << 4) | (d2 >> 2));
                    proof {
                        let g = seq![(d0 << 2) | (d1 >> 4), ((d1 & 15) << 4) | (d2 >> 2)];
                        assert(b64_decode_digits(fmt, tail) == Some(g));
                        assert(out@ =~= out0 + g);
                    }
                    Ok(out)
                } else {
                    Err(Error::Decode)
                }
            },
            _ => Err(Error::Decode),
        }
    }
}

} // verus!
