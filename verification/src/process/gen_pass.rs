//! Random password generation. The password is drawn from four
//! character classes (look-alike characters are left out); every
//! requested class is represented at least once, and the order is
//! randomized. The randomness is supplied by trusted picks, and the
//! assembly around them is verified for every choice the picks make.

use crate::ascii::ascii_to_string;
use crate::error::Error;
use rand::seq::SliceRandom;
use vstd::prelude::*;
use vstd::seq_lib::group_to_multiset_ensures;

verus! {

/// Uppercase candidates: `A`-`Z` without the look-alikes `I` and `O`.
pub open spec fn upper_chars() -> Seq<u8> {
    seq![
        65u8, 66, 67, 68, 69, 70, 71, 72, 74, 75, 76, 77, 78, 80, 81, 82, 83, 84, 85, 86, 87, 88,
        89, 90,
    ]
}

/// Lowercase candidates: `a`-`z` without the look-alike `l`.
pub open spec fn lower_chars() -> Seq<u8> {
    seq![
        97u8, 98, 99, 100, 101, 102, 103, 104, 105, 106, 107, 109, 110, 111, 112, 113, 114, 115,
        116, 117, 118, 119, 120, 121, 122,
    ]
}

/// Digit candidates: `1`-`9` without the look-alike `0`.
pub open spec fn number_chars() -> Seq<u8> {
    seq![49u8, 50, 51, 52, 53, 54, 55, 56, 57]
}

/// Symbol candidates.
pub open spec fn symbol_chars() -> Seq<u8> {
    seq![
        33u8, 64, 35, 36, 37, 94, 38, 42, 40, 41, 45, 95, 61, 43, 91, 93, 123, 125, 124, 59, 58,
        44, 46, 60, 62, 63, 47, 126,
    ]
}

/// Whether a byte may appear in a password generated with the given
/// class selection.
pub open spec fn in_pool(b: u8, upper: bool, lower: bool, number: bool, symbol: bool) -> bool {
    ||| (upper && upper_chars().contains(b))
    ||| (lower && lower_chars().contains(b))
    ||| (number && number_chars().contains(b))
    ||| (symbol && symbol_chars().contains(b))
}

/// The candidate pool: the concatenation of the enabled classes.
pub open spec fn pool_chars(upper: bool, lower: bool, number: bool, symbol: bool) -> Seq<u8> {
    (if upper {
        upper_chars()
    } else {
        Seq::empty()
    }) + (if lower {
        lower_chars()
    } else {
        Seq::empty()
    }) + (if number {
        number_chars()
    } else {
        Seq::empty()
    }) + (if symbol {
        symbol_chars()
    } else {
        Seq::empty()
    })
}

/// How many classes are enabled.
pub open spec fn enabled_classes(upper: bool, lower: bool, number: bool, symbol: bool) -> int {
    (if upper {
        1int
    } else {
        0
    }) + (if lower {
        1int
    } else {
        0
    }) + (if number {
        1int
    } else {
        0
    }) + (if symbol {
        1int
    } else {
        0
    })
}

/// What the generator promises of a password: the requested length,
/// only bytes of enabled classes, and at least one byte of every
/// enabled class.
/// Whether some byte of `pw` comes from `class`.
pub open spec fn has_byte_of(pw: Seq<u8>, class: Seq<u8>) -> bool {
    exists|i: int| 0 <= i < pw.len() && class.contains(#[trigger] pw[i])
}

pub open spec fn password_ok(
    pw: Seq<u8>,
    length: u8,
    upper: bool,
    lower: bool,
    number: bool,
    symbol: bool,
) -> bool {
    &&& pw.len() == length
    &&& forall|i: int| 0 <= i < pw.len() ==> in_pool(#[trigger] pw[i], upper, lower, number, symbol)
    &&& upper ==> has_byte_of(pw, upper_chars())
    &&& lower ==> has_byte_of(pw, lower_chars())
    &&& number ==> has_byte_of(pw, number_chars())
    &&& symbol ==> has_byte_of(pw, symbol_chars())
}

/// Appending a byte keeps every class already represented.
proof fn lemma_push_keeps_class(pw: Seq<u8>, b: u8, class: Seq<u8>)
    requires
        has_byte_of(pw, class),
    ensures
        has_byte_of(pw.push(b), class),
{
    let i = choose|i: int| 0 <= i < pw.len() && class.contains(#[trigger] pw[i]);
    assert(pw.push(b)[i] == pw[i]);
}

/// Appending a byte of a class makes that class represented.
proof fn lemma_push_has_class(pw: Seq<u8>, b: u8, class: Seq<u8>)
    requires
        class.contains(b),
    ensures
        has_byte_of(pw.push(b), class),
{
    assert(pw.push(b)[pw.len() as int] == b);
}

/// A byte of the candidate pool belongs to one of the enabled classes.
proof fn lemma_pool_member(upper: bool, lower: bool, number: bool, symbol: bool, b: u8)
    requires
        pool_chars(upper, lower, number, symbol).contains(b),
    ensures
        in_pool(b, upper, lower, number, symbol),
{
    let up = if upper {
        upper_chars()
    } else {
        Seq::empty()
    };
    let lo = if lower {
        lower_chars()
    } else {
        Seq::empty()
    };
    let nu = if number {
        number_chars()
    } else {
        Seq::empty()
    };
    let sy = if symbol {
        symbol_chars()
    } else {
        Seq::empty()
    };
    let pool = pool_chars(upper, lower, number, symbol);
    let i = choose|i: int| 0 <= i < pool.len() && pool[i] == b;
    if i < up.len() {
        assert(up[i] == b);
    } else if i < up.len() + lo.len() {
        assert(lo[i - up.len()] == b);
    } else if i < up.len() + lo.len() + nu.len() {
        assert(nu[i - up.len() - lo.len()] == b);
    } else {
        assert(sy[i - up.len() - lo.len() - nu.len()] == b);
    }
}

fn upper_set() -> (r: Vec<u8>)
    ensures
        r@ == upper_chars(),
{
    let v: Vec<u8> = vec![
        65u8, 66, 67, 68, 69, 70, 71, 72, 74, 75, 76, 77, 78, 80, 81, 82, 83, 84, 85, 86, 87, 88,
        89, 90,
    ];
    proof {
        assert(v@ =~= upper_chars());
    }
    v
}

fn lower_set() -> (r: Vec<u8>)
    ensures
        r@ == lower_chars(),
{
    let v: Vec<u8> = vec![
        97u8, 98, 99, 100, 101, 102, 103, 104, 105, 106, 107, 109, 110, 111, 112, 113, 114, 115,
        116, 117, 118, 119, 120, 121, 122,
    ];
    proof {
        assert(v@ =~= lower_chars());
    }
    v
}

fn number_set() -> (r: Vec<u8>)
    ensures
        r@ == number_chars(),
{
    let v: Vec<u8> = vec![49u8, 50, 51, 52, 53, 54, 55, 56, 57];
    proof {
        assert(v@ =~= number_chars());
    }
    v
}

fn symbol_set() -> (r: Vec<u8>)
    ensures
        r@ == symbol_chars(),
{
    let v: Vec<u8> = vec![
        33u8, 64, 35, 36, 37, 94, 38, 42, 40, 41, 45, 95, 61, 43, 91, 93, 123, 125, 124, 59, 58,
        44, 46, 60, 62, 63, 47, 126,
    ];
    proof {
        assert(v@ =~= symbol_chars());
    }
    v
}

/// Relies on rand's SliceRandom::choose with thread_rng: some element
/// of a nonempty slice; which one depends on the generator, so only
/// membership is promised.
#[verifier::external_body]
fn pick_byte(v: &Vec<u8>) -> (r: u8)
    requires
        v@.len() > 0,
    ensures
        v@.contains(r),
{
    *v.as_slice().choose(&mut rand::thread_rng()).unwrap()
}

/// Relies on rand's SliceRandom::shuffle with thread_rng: a
/// permutation in place, so the multiset of bytes is unchanged.
#[verifier::external_body]
fn shuffle_bytes(v: &mut Vec<u8>)
    ensures
        final (v)@.to_multiset() == old(v)@.to_multiset(),
{
    v.as_mut_slice().shuffle(&mut rand::thread_rng());
}

/// Assembles a password as raw bytes: one pick from every enabled
/// class, the rest from the whole pool, then a shuffle.
pub fn genpass_bytes(length: u8, upper: bool, lower: bool, number: bool, symbol: bool) -> (r: Vec<
    u8,
>)
    requires
        enabled_classes(upper, lower, number, symbol) <= length as int,
        length > 0 ==> upper || lower || number || symbol,
    ensures
        password_ok(r@, length, upper, lower, number, symbol),
{
    broadcast use group_to_multiset_ensures;

    let mut password: Vec<u8> = Vec::new();
    let mut chars: Vec<u8> = Vec::new();
    if upper {
        let mut set = upper_set();
        let b = pick_byte(&set);
        let ghost prev = password@;
        password.push(b);
        chars.append(&mut set);
        proof {
            lemma_push_has_class(prev, b, upper_chars());
        }
    }
    if lower {
        let mut set = lower_set();
        let b = pick_byte(&set);
        let ghost prev = password@;
        password.push(b);
        chars.append(&mut set);
        proof {
            lemma_push_has_class(prev, b, lower_chars());
            if upper {
                lemma_push_keeps_class(prev, b, upper_chars());
            }
        }
    }
    if number {
        let mut set = number_set();
        let b = pick_byte(&set);
        let ghost prev = password@;
        password.push(b);
        chars.append(&mut set);
        proof {
            lemma_push_has_class(prev, b, number_chars());
            if upper {
                lemma_push_keeps_class(prev, b, upper_chars());
            }
            if lower {
                lemma_push_keeps_class(prev, b, lower_chars());
            }
        }
    }
    if symbol {
        let mut set = symbol_set();
        let b = pick_byte(&set);
        let ghost prev = password@;
        password.push(b);
        chars.append(&mut set);
        proof {
            lemma_push_has_class(prev, b, symbol_chars());
            if upper {
                lemma_push_keeps_class(prev, b, upper_chars());
            }
            if lower {
                lemma_push_keeps_class(prev, b, lower_chars());
            }
            if number {
                lemma_push_keeps_class(prev, b, number_chars());
            }
        }
    }
    proof {
        assert(chars@ =~= pool_chars(upper, lower, number, symbol));
    }
    while password.len() < length as usize
        invariant
            password@.len() <= length as int,
            chars@ == pool_chars(upper, lower, number, symbol),
            length > 0 ==> chars@.len() > 0,
            forall|i: int|
                0 <= i < password@.len() ==> in_pool(
                    #[trigger] password@[i],
                    upper,
                    lower,
                    number,
                    symbol,
                ),
            upper ==> has_byte_of(password@, upper_chars()),
            lower ==> has_byte_of(password@, lower_chars()),
            number ==> has_byte_of(password@, number_chars()),
            symbol ==> has_byte_of(password@, symbol_chars()),
        decreases length as int - password@.len(),
    {
        let b = pick_byte(&chars);
        let ghost prev = password@;
        proof {
            lemma_pool_member(upper, lower, number, symbol, b);
        }
        password.push(b);
        proof {
            if upper {
                lemma_push_keeps_class(prev, b, upper_chars());
            }
            if lower {
                lemma_push_keeps_class(prev, b, lower_chars());
            }
            if number {
                lemma_push_keeps_class(prev, b, number_chars());
            }
            if symbol {
                lemma_push_keeps_class(prev, b, symbol_chars());
            }
        }
    }
    let ghost before = password@;
    shuffle_bytes(&mut password);
    proof {
        assert(password@.len() == password@.to_multiset().len());
        assert(before.len() == before.to_multiset().len());
        assert forall|i: int| 0 <= i < password@.len() implies in_pool(
            #[trigger] password@[i],
            upper,
            lower,
            number,
            symbol,
        ) by {
            let b = password@[i];
            assert(password@.contains(b));
            assert(password@.to_multiset().count(b) > 0);
            assert(before.contains(b));
            let k = choose|k: int| 0 <= k < before.len() && before[k] == b;
            assert(in_pool(before[k], upper, lower, number, symbol));
        }
        if upper {
            lemma_shuffle_keeps_class(before, password@, upper_chars());
        }
        if lower {
            lemma_shuffle_keeps_class(before, password@, lower_chars());
        }
        if number {
            lemma_shuffle_keeps_class(before, password@, number_chars());
        }
        if symbol {
            lemma_shuffle_keeps_class(before, password@, symbol_chars());
        }
    }
    password
}

/// A permutation keeps every represented class represented.
proof fn lemma_shuffle_keeps_class(before: Seq<u8>, after: Seq<u8>, class: Seq<u8>)
    requires
        before.to_multiset() == after.to_multiset(),
        has_byte_of(before, class),
    ensures
        has_byte_of(after, class),
{
    broadcast use group_to_multiset_ensures;

    let i = choose|i: int| 0 <= i < before.len() && class.contains(#[trigger] before[i]);
    let w = before[i];
    assert(before.contains(w));
    assert(after.to_multiset().count(w) > 0);
    assert(after.contains(w));
    let k = choose|k: int| 0 <= k < after.len() && after[k] == w;
    assert(class.contains(after[k]));
}

/// Every pool byte is printable ASCII.
proof fn lemma_pool_ascii(b: u8, upper: bool, lower: bool, number: bool, symbol: bool)
    requires
        in_pool(b, upper, lower, number, symbol),
    ensures
        33 <= b < 127,
{
}

/// Generates a printable password of the requested length in which
/// every enabled character class is represented.
pub fn process_genpass(length: u8, upper: bool, lower: bool, number: bool, symbol: bool) -> (r:
    Result<String, Error>)
    requires
        enabled_classes(upper, lower, number, symbol) <= length as int,
        length > 0 ==> upper || lower || number || symbol,
    ensures
        r matches Ok(p) && p@.len() == length as int,
        r matches Ok(p) ==> password_ok(
            p@.map_values(|c: char| c as u8),
            length,
            upper,
            lower,
            number,
            symbol,
        ),
{
    let pw = genpass_bytes(length, upper, lower, number, symbol);
    proof {
        assert forall|i: int| 0 <= i < pw@.len() implies pw@[i] < 128 by {
            lemma_pool_ascii(pw@[i], upper, lower, number, symbol);
        }
    }
    let s = ascii_to_string(pw);
    proof {
        assert(s@.map_values(|c: char| c as u8) =~= pw@);
    }
    Ok(s)
}

} // verus!
