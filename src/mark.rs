//! Marks: a mark is a plain decimal numeral, held exactly in millionths.
use vstd::prelude::*;
use crate::text::{all_digits_between, digits_value, is_digit, digit_value, pow10, trim, trimmed};

verus! {

/// Units of a mark per whole point: marks are held in millionths.
pub const MARK_SCALE: i128 = 1_000_000;

/// The most digits a mark may carry after its decimal point.
pub const MAX_FRACTION_DIGITS: usize = 6;

/// The largest whole part a mark may have.
pub const MAX_WHOLE: u64 = 1_000_000_000_000_000_000;

/// Bound on the magnitude of a mark, in millionths.
pub const MARK_LIMIT: i128 = 1_000_000_000_000_000_001_000_000;

/// The length of a leading `+` or `-`, if there is one.
pub open spec fn sign_len(t: Seq<char>) -> int {
    if t.len() > 0 && (t[0] == '+' || t[0] == '-') {
        1
    } else {
        0
    }
}

/// The end of the run of digits that starts at `i`.
pub open spec fn digits_end(t: Seq<char>, i: int) -> int
    decreases t.len() - i,
{
    if 0 <= i < t.len() && is_digit(t[i]) {
        digits_end(t, i + 1)
    } else {
        i
    }
}

/// Where the whole part of a numeral ends.
pub open spec fn whole_end(t: Seq<char>) -> int {
    digits_end(t, sign_len(t))
}

/// The digits before the decimal point.
pub open spec fn whole_digits(t: Seq<char>) -> Seq<char> {
    t.subrange(sign_len(t), whole_end(t))
}

/// The characters after the decimal point (empty where there is no point).
pub open spec fn fraction_digits(t: Seq<char>) -> Seq<char> {
    if whole_end(t) < t.len() {
        t.subrange(whole_end(t) + 1, t.len() as int)
    } else {
        Seq::empty()
    }
}

/// `t` is an optionally signed decimal numeral: digits, optionally followed by a
/// point and more digits, with at least one digit in all.
pub open spec fn is_numeral(t: Seq<char>) -> bool {
    &&& (whole_end(t) == t.len() || t[whole_end(t)] == '.')
    &&& all_digits_between(fraction_digits(t), 0, fraction_digits(t).len() as int)
    &&& (whole_digits(t).len() > 0 || fraction_digits(t).len() > 0)
}

/// The value of the mark written `t`, in millionths, or `None` where `t` is not a
/// numeral or lies beyond the bounds that a mark may have.
pub open spec fn mark_value(t: Seq<char>) -> Option<int> {
    if is_numeral(t) && fraction_digits(t).len() <= MAX_FRACTION_DIGITS && digits_value(
        whole_digits(t),
    ) <= MAX_WHOLE {
        let magnitude = digits_value(whole_digits(t)) * MARK_SCALE + digits_value(
            fraction_digits(t),
        ) * pow10((MAX_FRACTION_DIGITS - fraction_digits(t).len()) as nat);
        Some(
            if t.len() > 0 && t[0] == '-' {
                -magnitude
            } else {
                magnitude
            },
        )
    } else {
        None
    }
}

/// The mark entered as `s`, once surrounding whitespace is trimmed.
pub open spec fn entered_mark(s: Seq<char>) -> Option<int> {
    mark_value(trimmed(s))
}

proof fn lemma_digits_value_step(t: Seq<char>, lo: int, hi: int)
    requires
        0 <= lo <= hi < t.len(),
    ensures
        digits_value(t.subrange(lo, hi + 1)) == 10 * digits_value(t.subrange(lo, hi))
            + digit_value(t[hi]),
{
    assert(t.subrange(lo, hi + 1).drop_last() =~= t.subrange(lo, hi));
}

proof fn lemma_digits_value_nonneg(s: Seq<char>)
    requires
        all_digits_between(s, 0, s.len() as int),
    ensures
        digits_value(s) >= 0,
    decreases s.len(),
{
    if s.len() > 0 {
        lemma_digits_value_nonneg(s.drop_last());
    }
}

proof fn lemma_pow10_mono(a: nat, b: nat)
    requires
        a <= b,
    ensures
        0 < pow10(a) <= pow10(b),
    decreases b,
{
    if a < b {
        lemma_pow10_mono(a, (b - 1) as nat);
    } else if a > 0 {
        lemma_pow10_mono((a - 1) as nat, (a - 1) as nat);
    }
}

proof fn lemma_pow10_fraction_limit(k: nat)
    requires
        k <= MAX_FRACTION_DIGITS,
    ensures
        0 < pow10(k) <= MARK_SCALE,
{
    lemma_pow10_mono(k, MAX_FRACTION_DIGITS as nat);
    reveal_with_fuel(pow10, 7);
}

/// Whether `c` is one of the ten decimal digits.
pub fn is_decimal_digit(c: char) -> (r: bool)
    ensures
        r == is_digit(c),
{
    '0' <= c && c <= '9'
}

/// Parses a mark written as a plain decimal numeral (no surrounding whitespace),
/// giving its value in millionths.
pub fn parse_mark(t: &str) -> (r: Option<i128>)
    ensures
        r.is_some() == mark_value(t@).is_some(),
        r.is_some() ==> r.unwrap() as int == mark_value(t@).unwrap(),
        r.is_some() ==> -MARK_LIMIT < r.unwrap() < MARK_LIMIT,
{
    let n = t.unicode_len();
    let ghost s = t@;
    let mut i: usize = 0;
    let mut negative = false;
    if n > 0 {
        let c = t.get_char(0);
        if c == '+' || c == '-' {
            negative = c == '-';
            i = 1;
        }
    }
    let start = i;
    let mut whole: u64 = 0;
    let mut too_large = false;
    while i < n && is_decimal_digit(t.get_char(i))
        invariant
            s == t@,
            n == s.len(),
            start == sign_len(s),
            start <= i <= n,
            negative == (s.len() > 0 && s[0] == '-'),
            digits_end(s, start as int) == digits_end(s, i as int),
            all_digits_between(s, start as int, i as int),
            too_large == (digits_value(s.subrange(start as int, i as int)) > MAX_WHOLE),
            !too_large ==> whole == digits_value(s.subrange(start as int, i as int)),
        decreases n - i,
    {
        let c = t.get_char(i);
        proof {
            lemma_digits_value_step(s, start as int, i as int);
            lemma_digits_value_nonneg(s.subrange(start as int, i as int));
        }
        if !too_large {
            let next = whole * 10 + (c as u64 - '0' as u64);
            if next > MAX_WHOLE {
                too_large = true;
            } else {
                whole = next;
            }
        }
        i = i + 1;
    }
    assert(whole_end(s) == i);
    assert(whole_digits(s) =~= s.subrange(start as int, i as int));
    if too_large {
        return None;
    }
    let mut fraction: i128 = 0;
    let mut fraction_len: usize = 0;
    if i < n {
        if t.get_char(i) != '.' {
            return None;
        }
        let first = i + 1;
        if n - first > MAX_FRACTION_DIGITS {
            return None;
        }
        fraction_len = n - first;
        assert(fraction_digits(s) =~= s.subrange(first as int, n as int));
        let mut j: usize = first;
        while j < n
            invariant
                s == t@,
                n == s.len(),
                first == whole_end(s) + 1,
                first <= j <= n,
                n - first <= MAX_FRACTION_DIGITS,
                fraction_digits(s) == s.subrange(first as int, n as int),
                all_digits_between(s, first as int, j as int),
                fraction == digits_value(s.subrange(first as int, j as int)),
                0 <= fraction < pow10((j - first) as nat),
            decreases n - j,
        {
            let c = t.get_char(j);
            if !is_decimal_digit(c) {
                assert(fraction_digits(s)[j - first] == c);
                return None;
            }
            proof {
                lemma_digits_value_step(s, first as int, j as int);
                lemma_pow10_fraction_limit((j - first) as nat);
            }
            fraction = fraction * 10 + (c as u32 - '0' as u32) as i128;
            j = j + 1;
        }
        assert(all_digits_between(fraction_digits(s), 0, fraction_digits(s).len() as int));
        assert(fraction == digits_value(fraction_digits(s)) * pow10(0));
        let mut k: usize = fraction_len;
        while k < MAX_FRACTION_DIGITS
            invariant
                fraction_len <= k <= MAX_FRACTION_DIGITS,
                fraction == digits_value(fraction_digits(s)) * pow10((k - fraction_len) as nat),
                0 <= fraction < pow10(k as nat),
            decreases MAX_FRACTION_DIGITS - k,
        {
            proof {
                lemma_pow10_fraction_limit(k as nat);
                assert(pow10((k + 1 - fraction_len) as nat) == 10 * pow10((k - fraction_len) as nat));
                assert(fraction * 10 == digits_value(fraction_digits(s)) * pow10(
                    (k + 1 - fraction_len) as nat,
                )) by (nonlinear_arith)
                    requires
                        fraction == digits_value(fraction_digits(s)) * pow10((k - fraction_len) as nat),
                        pow10((k + 1 - fraction_len) as nat) == 10 * pow10((k - fraction_len) as nat),
                ;
            }
            fraction = fraction * 10;
            k = k + 1;
        }
        proof {
            lemma_pow10_fraction_limit(k as nat);
        }
    } else {
        assert(fraction_digits(s).len() == 0);
    }
    if i == start && fraction_len == 0 {
        return None;
    }
    let magnitude: i128 = whole as i128 * MARK_SCALE + fraction;
    if negative {
        Some(-magnitude)
    } else {
        Some(magnitude)
    }
}

} // verus!
