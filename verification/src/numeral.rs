//! Parsing a decimal numeral into a `u64`: an optional leading plus sign,
//! then one or more decimal digits, rejected when the value does not fit.

use vstd::prelude::*;

verus! {

/// True for the ten decimal digit characters.
pub open spec fn is_decimal_digit(c: char) -> bool {
    '0' as int <= c as int && c as int <= '9' as int
}

/// The numeric value of a decimal digit character.
pub open spec fn digit_value(c: char) -> int {
    c as int - '0' as int
}

/// True when every character of `s` is a decimal digit.
pub open spec fn all_digits(s: Seq<char>) -> bool {
    forall|k: int| 0 <= k < s.len() ==> is_decimal_digit(#[trigger] s[k])
}

/// The value of a run of decimal digits, most significant first.
pub open spec fn digits_value(s: Seq<char>) -> int
    decreases s.len(),
{
    if s.len() == 0 {
        0
    } else {
        digits_value(s.drop_last()) * 10 + digit_value(s.last())
    }
}

/// The digit characters of a numeral: everything after an optional
/// leading plus sign.
pub open spec fn numeral_digits(s: Seq<char>) -> Seq<char> {
    if s.len() > 0 && s[0] == '+' {
        s.skip(1)
    } else {
        s
    }
}

/// True when `s` is a decimal numeral whose value fits in a `u64`:
/// an optional leading plus sign, then at least one decimal digit.
pub open spec fn is_u64_numeral(s: Seq<char>) -> bool {
    let d = numeral_digits(s);
    d.len() > 0 && all_digits(d) && digits_value(d) <= u64::MAX
}

/// The value of a numeral accepted by `is_u64_numeral`.
pub open spec fn u64_numeral_value(s: Seq<char>) -> int {
    digits_value(numeral_digits(s))
}

/// A run of digits has a non-negative value.
proof fn lemma_digits_value_nonneg(s: Seq<char>)
    requires
        all_digits(s),
    ensures
        digits_value(s) >= 0,
    decreases s.len(),
{
    if s.len() > 0 {
        lemma_digits_value_nonneg(s.drop_last());
    }
}

/// Extending a run of digits never shrinks its value.
proof fn lemma_digits_value_prefix_le(s: Seq<char>, i: int)
    requires
        all_digits(s),
        0 <= i <= s.len(),
    ensures
        digits_value(s.take(i)) <= digits_value(s),
    decreases s.len() - i,
{
    if i < s.len() {
        lemma_digits_value_prefix_le(s, i + 1);
        assert(s.take(i + 1).drop_last() =~= s.take(i));
        lemma_digits_value_nonneg(s.take(i));
    } else {
        assert(s.take(i) =~= s);
    }
}

/// Parses `s` as a decimal numeral. Returns its value exactly when `s` is
/// an optional plus sign followed by one or more decimal digits and the
/// value fits in a `u64`; returns `None` otherwise.
pub fn parse_u64(s: &str) -> (r: Option<u64>)
    ensures
        r is Some <==> is_u64_numeral(s@),
        r matches Some(v) ==> v == u64_numeral_value(s@),
{
    let n = s.unicode_len();
    let start: usize = if n > 0 && s.get_char(0) == '+' {
        1
    } else {
        0
    };
    let ghost d = numeral_digits(s@);
    proof {
        assert(d =~= s@.skip(start as int));
    }
    if start >= n {
        return None;
    }
    let mut acc: u64 = 0;
    let mut i: usize = start;
    proof {
        assert(d.take(0) =~= Seq::<char>::empty());
    }
    while i < n
        invariant
            n == s@.len(),
            start <= i <= n,
            d == numeral_digits(s@),
            d =~= s@.skip(start as int),
            forall|k: int| 0 <= k < i - start ==> is_decimal_digit(#[trigger] d[k]),
            acc == digits_value(d.take(i - start)),
        decreases n - i,
    {
        let c = s.get_char(i);
        let cv = c as u32;
        if cv < 48 || cv > 57 {
            proof {
                assert(d[i - start] == s@[i as int]);
                assert(!is_decimal_digit(d[i - start]));
            }
            return None;
        }
        let dv = (cv - 48) as u64;
        proof {
            assert(d[i - start] == s@[i as int]);
            assert(dv == digit_value(d[i - start]));
            assert(d.take(i - start + 1).drop_last() =~= d.take(i - start));
            assert(d.take(i - start + 1).last() == d[i - start]);
        }
        let acc10 = match acc.checked_mul(10) {
            Some(x) => x,
            None => {
                proof {
                    lemma_overflow_rejects(d, i - start + 1);
                }
                return None;
            },
        };
        acc = match acc10.checked_add(dv) {
            Some(x) => x,
            None => {
                proof {
                    lemma_overflow_rejects(d, i - start + 1);
                }
                return None;
            },
        };
        i += 1;
    }
    proof {
        assert(d.take(n - start) =~= d);
    }
    Some(acc)
}

/// When some prefix of the digit run already exceeds `u64::MAX`, the whole
/// run is no `u64` numeral.
proof fn lemma_overflow_rejects(d: Seq<char>, i: int)
    requires
        0 <= i <= d.len(),
        digits_value(d.take(i)) > u64::MAX,
    ensures
        !(d.len() > 0 && all_digits(d) && digits_value(d) <= u64::MAX),
{
    if all_digits(d) {
        lemma_digits_value_prefix_le(d, i);
    }
}

} // verus!
