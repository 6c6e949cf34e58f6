//! Decimal parsing for the numeric configuration fields.
//!
//! A configuration value is accepted when it is an optional leading `+`
//! followed by one or more decimal digits whose value fits in a `u64`;
//! anything else (empty, signed negative, stray characters, overflow)
//! falls back to a caller-supplied default.

use vstd::prelude::*;

verus! {

/// Whether `c` is a decimal digit (`'0'` through `'9'`, code points 48 to 57).
pub open spec fn is_digit_char(c: char) -> bool {
    48 <= c as int <= 57
}

/// The numeric value of the decimal digit `c`.
pub open spec fn digit_value(c: char) -> int {
    c as int - 48
}

/// Whether every character of `s` is a decimal digit.
pub open spec fn all_digits(s: Seq<char>) -> bool {
    forall|i: int| 0 <= i < s.len() ==> is_digit_char(#[trigger] s[i])
}

/// The value denoted by a sequence of decimal digits, most significant first.
pub open spec fn digits_value(s: Seq<char>) -> int
    decreases s.len(),
{
    if s.len() == 0 {
        0
    } else {
        10 * digits_value(s.drop_last()) + digit_value(s.last())
    }
}

/// The digits of a numeric string: everything after one optional leading `+`.
pub open spec fn unsigned_digits(s: Seq<char>) -> Seq<char> {
    if s.len() > 0 && s[0] == '+' {
        s.drop_first()
    } else {
        s
    }
}

/// Whether `s` denotes a `u64`: an optional `+`, then one or more decimal
/// digits, with a value of at most `u64::MAX`.
pub open spec fn is_u64_string(s: Seq<char>) -> bool {
    let d = unsigned_digits(s);
    d.len() > 0 && all_digits(d) && digits_value(d) <= u64::MAX
}

/// What parsing `s` with fallback `default` yields: the denoted value when
/// `s` denotes a `u64`, and `default` otherwise.
pub open spec fn spec_to_int(s: Seq<char>, default: u64) -> u64 {
    if is_u64_string(s) {
        digits_value(unsigned_digits(s)) as u64
    } else {
        default
    }
}

/// A sequence of digits denotes a non-negative value.
pub proof fn lemma_digits_value_nonneg(s: Seq<char>)
    requires
        all_digits(s),
    ensures
        digits_value(s) >= 0,
    decreases s.len(),
{
    if s.len() > 0 {
        assert(all_digits(s.drop_last()));
        lemma_digits_value_nonneg(s.drop_last());
    }
}

/// Extending a digit string to the right can only increase its value.
pub proof fn lemma_digits_value_monotonic(s: Seq<char>, k: int)
    requires
        all_digits(s),
        0 <= k <= s.len(),
    ensures
        digits_value(s.take(k)) <= digits_value(s),
    decreases s.len(),
{
    if k == s.len() {
        assert(s.take(k) =~= s);
    } else {
        assert(all_digits(s.drop_last()));
        assert(s.drop_last().take(k) =~= s.take(k));
        lemma_digits_value_monotonic(s.drop_last(), k);
        lemma_digits_value_nonneg(s.drop_last());
    }
}

/// Parse `s` as a non-negative decimal integer, yielding `default` when `s`
/// is empty, not numeric, or too large for a `u64`.
pub fn parse_decimal(s: &str, default: u64) -> (value: u64)
    ensures
        value == spec_to_int(s@, default),
{
    let n: usize = s.unicode_len();
    if n == 0 {
        return default;
    }
    let first: char = s.get_char(0);
    let start: usize = if first == '+' {
        1
    } else {
        0
    };
    let ghost digits: Seq<char> = unsigned_digits(s@);
    proof {
        assert(digits =~= s@.skip(start as int));
    }
    if start == n {
        // the string is just a sign with no digits
        return default;
    }
    let mut acc: u64 = 0;
    let mut j: usize = start;
    while j < n
        invariant
            start <= j <= n,
            n == s@.len(),
            digits == unsigned_digits(s@),
            digits == s@.skip(start as int),
            digits.len() == n - start,
            all_digits(digits.take(j - start)),
            acc == digits_value(digits.take(j - start)),
        decreases n - j,
    {
        let c: char = s.get_char(j);
        let code: u32 = c as u32;
        proof {
            assert(digits[j - start] == s@[j as int]);
        }
        if code < 48 || code > 57 {
            // a non-digit character: the string is not numeric
            assert(!is_u64_string(s@));
            return default;
        }
        let d: u64 = (code - 48) as u64;
        let grown: u64 = match acc.checked_mul(10) {
            Some(v) => v,
            None => {
                proof {
                    lemma_overflow_invalid(s@, digits, j - start);
                }
                return default;
            },
        };
        let next: u64 = match grown.checked_add(d) {
            Some(v) => v,
            None => {
                proof {
                    lemma_overflow_invalid(s@, digits, j - start);
                }
                return default;
            },
        };
        proof {
            assert(digits.take(j - start + 1).drop_last() =~= digits.take(j - start));
            assert(digits.take(j - start + 1).last() == digits[j - start]);
        }
        acc = next;
        j = j + 1;
    }
    proof {
        assert(digits.take(n - start) =~= digits);
    }
    acc
}

/// The decimal digit character with value `d`.
pub open spec fn digit_char(d: int) -> char {
    if d == 0 {
        '0'
    } else if d == 1 {
        '1'
    } else if d == 2 {
        '2'
    } else if d == 3 {
        '3'
    } else if d == 4 {
        '4'
    } else if d == 5 {
        '5'
    } else if d == 6 {
        '6'
    } else if d == 7 {
        '7'
    } else if d == 8 {
        '8'
    } else {
        '9'
    }
}

/// The canonical decimal string form of the non-negative integer `n`.
pub open spec fn dec_str(n: int) -> Seq<char>
    decreases n,
{
    if n < 0 {
        Seq::empty()
    } else if n < 10 {
        seq![digit_char(n)]
    } else {
        dec_str(n / 10).push(digit_char(n % 10))
    }
}

/// The canonical decimal form of `n` is a non-empty digit string denoting `n`.
pub proof fn lemma_dec_str_value(n: int)
    requires
        0 <= n,
    ensures
        all_digits(dec_str(n)),
        dec_str(n).len() > 0,
        digits_value(dec_str(n)) == n,
    decreases n,
{
    if n < 10 {
        assert(dec_str(n) =~= seq![digit_char(n)]);
        assert(dec_str(n).drop_last() =~= Seq::<char>::empty());
        assert(dec_str(n).last() == digit_char(n));
        assert(digits_value(Seq::<char>::empty()) == 0);
        assert(digit_value(digit_char(n)) == n);
        assert(digits_value(dec_str(n)) == 10 * digits_value(dec_str(n).drop_last())
            + digit_value(dec_str(n).last()));
    } else {
        lemma_dec_str_value(n / 10);
        assert(dec_str(n).drop_last() =~= dec_str(n / 10));
        assert(dec_str(n).last() == digit_char(n % 10));
        assert(is_digit_char(digit_char(n % 10)));
        assert(digits_value(dec_str(n)) == 10 * (n / 10) + (n % 10));
    }
}

/// For every `u64` value `n`, parsing the decimal string form of `n` yields
/// `n`, whatever the fallback default.
pub proof fn lemma_to_int_round_trip(n: u64, default: u64)
    ensures
        spec_to_int(dec_str(n as int), default) == n,
{
    lemma_dec_str_value(n as int);
    let s = dec_str(n as int);
    assert(is_digit_char(s[0]));
    assert(s[0] != '+');
    assert(unsigned_digits(s) == s);
}

/// The decimal string form of a negative integer is rejected: parsing
/// `-n` yields the supplied default.
pub proof fn lemma_to_int_negative(n: u64, default: u64)
    ensures
        spec_to_int(seq!['-'] + dec_str(n as int), default) == default,
{
    let s = seq!['-'] + dec_str(n as int);
    assert(s[0] == '-');
    assert(s[0] != '+');
    assert(unsigned_digits(s) == s);
    assert(!is_digit_char(s[0]));
    assert(!all_digits(s));
}

/// Parsing the empty string yields the supplied default.
pub proof fn lemma_to_int_empty(default: u64)
    ensures
        spec_to_int(Seq::empty(), default) == default,
{
    assert(unsigned_digits(Seq::<char>::empty()) == Seq::<char>::empty());
}

/// If the digits read so far already exceed `u64::MAX`, the whole string
/// cannot denote a `u64`.
proof fn lemma_overflow_invalid(s: Seq<char>, digits: Seq<char>, k: int)
    requires
        digits == unsigned_digits(s),
        0 <= k < digits.len(),
        all_digits(digits.take(k)),
        is_digit_char(digits[k]),
        10 * digits_value(digits.take(k)) + digit_value(digits[k]) > u64::MAX,
    ensures
        !is_u64_string(s),
{
    if is_u64_string(s) {
        assert(digits.take(k + 1).drop_last() =~= digits.take(k));
        assert(digits.take(k + 1).last() == digits[k]);
        assert(digits_value(digits.take(k + 1)) > u64::MAX);
        lemma_digits_value_monotonic(digits, k + 1);
    }
}

} // verus!
