//! The relative expiry notation of the token subcommands: a decimal
//! count followed by a unit (`d`, `h`, `m`, `s`), or a bare count of
//! seconds. Only the conversion to seconds lives here; issuing and
//! checking tokens is outside work.

use vstd::prelude::*;
use vstd::string::StringSliceAdditionalSpecFns;

verus! {

/// The value of a decimal digit string.
pub open spec fn digits_val(s: Seq<u8>) -> int
    decreases s.len(),
{
    if s.len() == 0 {
        0
    } else {
        digits_val(s.drop_last()) * 10 + (s.last() - 48)
    }
}

/// Whether a byte string is one or more decimal digits.
pub open spec fn all_digits(s: Seq<u8>) -> bool {
    s.len() > 0 && forall|i: int| 0 <= i < s.len() ==> 48 <= #[trigger] s[i] <= 57
}

/// The seconds of one unit letter.
pub open spec fn unit_seconds(b: u8) -> Option<int> {
    if b == 100 {
        Some(86400int)  // d
    } else if b == 104 {
        Some(3600int)  // h
    } else if b == 109 {
        Some(60int)  // m
    } else if b == 115 {
        Some(1int)  // s
    } else {
        None
    }
}

/// The seconds a relative expiry denotes: the count before a trailing
/// unit letter, or a bare count of seconds. The count is capped at
/// twelve digits so the result fits the machine word.
pub open spec fn exp_duration_spec(s: Seq<u8>) -> Option<int> {
    if s.len() == 0 {
        None
    } else {
        let (body, mult) = match unit_seconds(s.last()) {
            Some(m) => (s.drop_last(), m),
            None => (s, 1int),
        };
        if all_digits(body) && body.len() <= 12 {
            Some(digits_val(body) * mult)
        } else {
            None
        }
    }
}

/// A digit string of at most `cap` digits stays below `10^cap`.
proof fn lemma_digits_val_pow(s: Seq<u8>, cap: nat)
    requires
        forall|i: int| 0 <= i < s.len() ==> 48 <= #[trigger] s[i] <= 57,
        s.len() <= cap,
    ensures
        0 <= digits_val(s) < vstd::arithmetic::power::pow(10, cap),
    decreases s.len(),
{
    vstd::arithmetic::power::lemma_pow_positive(10, cap);
    if s.len() > 0 {
        assert(48 <= s[s.len() - 1] <= 57);
        lemma_digits_val_pow(s.drop_last(), (cap - 1) as nat);
        assert(vstd::arithmetic::power::pow(10, cap) == 10 * vstd::arithmetic::power::pow(
            10,
            (cap - 1) as nat,
        )) by {
            vstd::arithmetic::power::lemma_pow1(10);
            vstd::arithmetic::power::lemma_pow_adds(10, 1, (cap - 1) as nat);
        }
        assert(digits_val(s) == digits_val(s.drop_last()) * 10 + (s.last() - 48));
    }
}

/// A digit string of at most twelve digits stays below `10^12`.
proof fn lemma_digits_val_bound(s: Seq<u8>)
    requires
        forall|i: int| 0 <= i < s.len() ==> 48 <= #[trigger] s[i] <= 57,
        s.len() <= 12,
    ensures
        0 <= digits_val(s) < 1000000000000,
{
    lemma_digits_val_pow(s, 12);
    assert(vstd::arithmetic::power::pow(10, 12) == 1000000000000) by {
        reveal_with_fuel(vstd::arithmetic::power::pow, 13);
    }
}

/// Converts a relative expiry such as `14d` or `45s` to seconds,
/// rejecting everything else.
#[verifier::loop_isolation(false)]
pub fn exp_duration_seconds(exp: &str) -> (r: Option<u64>)
    ensures
        match exp_duration_spec(exp.spec_bytes()) {
            Some(v) => r matches Some(x) && x as int == v,
            None => r is None,
        },
{
    let bytes = exp.as_bytes();
    let n = bytes.len();
    if n == 0 {
        return None;
    }
    let last = bytes[n - 1];
    let mult: u64 = if last == 100 {
        86400
    } else if last == 104 {
        3600
    } else if last == 109 {
        60
    } else if last == 115 {
        1
    } else {
        0
    };
    let body_len = if mult > 0 {
        n - 1
    } else {
        n
    };
    let ghost body = if mult > 0 {
        exp.spec_bytes().drop_last()
    } else {
        exp.spec_bytes()
    };
    proof {
        assert(body =~= bytes@.subrange(0, body_len as int));
    }
    if body_len == 0 || body_len > 12 {
        return None;
    }
    let real_mult: u64 = if mult > 0 {
        mult
    } else {
        1
    };
    let mut acc: u64 = 0;
    let mut k: usize = 0;
    while k < body_len
        invariant
            k <= body_len,
            body_len <= 12,
            body_len <= bytes@.len(),
            body == bytes@.subrange(0, body_len as int),
            forall|i: int| 0 <= i < k ==> 48 <= #[trigger] body[i] <= 57,
            acc as int == digits_val(body.take(k as int)),
            acc < 1000000000000,
        decreases body_len - k,
    {
        let b = bytes[k];
        if b < 48 || b > 57 {
            proof {
                assert(body[k as int] == b);
                assert(!all_digits(body));
            }
            return None;
        }
        proof {
            lemma_digits_val_bound(body.take(k as int));
            assert(body.take(k + 1).drop_last() =~= body.take(k as int));
            assert(body.take(k + 1).last() == body[k as int]);
            lemma_digits_val_bound(body.take(k + 1));
        }
        acc = acc * 10 + ((b - 48) as u64);
        k = k + 1;
    }
    proof {
        assert(body.take(body_len as int) =~= body);
        assert(all_digits(body));
        lemma_digits_val_bound(body);
        vstd::arithmetic::mul::lemma_mul_upper_bound(
            acc as int,
            999999999999,
            real_mult as int,
            86400,
        );
    }
    Some(acc * real_mult)
}

} // verus!
