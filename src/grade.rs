//! The average of the seven marks, its two-decimal text, and the verdict.
use vstd::prelude::*;
use crate::mark::{entered_mark, parse_mark, MARK_LIMIT, MARK_SCALE};
use crate::text::{decimal, digit_char, digit_str, push_decimal, trim};

verus! {

/// The number of subject rows on a sheet, and the divisor of the average.
pub const SUBJECT_ROWS: usize = 7;

/// The lowest average that passes.
pub const PASS_MARK: i128 = 40;

/// The sum of the marks entered as `ms`, trimmed, or `None` where one of them
/// is not a mark.
pub open spec fn marks_total(ms: Seq<Seq<char>>) -> Option<int>
    decreases ms.len(),
{
    if ms.len() == 0 {
        Some(0)
    } else {
        match (marks_total(ms.drop_last()), entered_mark(ms.last())) {
            (Some(a), Some(b)) => Some(a + b),
            _ => None,
        }
    }
}

/// An average `total / SUBJECT_ROWS` at or above the pass mark. With `total` in
/// millionths this is exact: no rounding takes part in the verdict.
pub open spec fn passes(total: int) -> bool {
    total >= PASS_MARK * SUBJECT_ROWS * MARK_SCALE
}

/// `n / d` rounded to the nearest integer, ties to the even one.
pub open spec fn round_half_even(n: nat, d: nat) -> nat
    recommends
        d > 0,
{
    let q = n / d;
    let r = n % d;
    if 2 * r > d || (2 * r == d && q % 2 == 1) {
        q + 1
    } else {
        q
    }
}

pub open spec fn abs(x: int) -> nat {
    if x < 0 {
        (-x) as nat
    } else {
        x as nat
    }
}

/// The average of marks summing to `total` millionths, in hundredths, rounded.
pub open spec fn average_hundredths(total: int) -> nat {
    round_half_even(abs(total) * 100, (SUBJECT_ROWS * MARK_SCALE) as nat)
}

/// The average of marks summing to `total` millionths, written with two decimals.
pub open spec fn average_text(total: int) -> Seq<char> {
    let h = average_hundredths(total);
    let sign = if total < 0 {
        seq!['-']
    } else {
        Seq::empty()
    };
    sign + decimal(h / 100) + seq!['.', digit_char((h % 100) / 10), digit_char(h % 10)]
}

/// The average of the seven marks of a sheet, held exactly as their sum.
pub struct Average {
    total: i128,
}

/// What a calculation concludes.
#[derive(PartialEq, Eq, Structural, Clone, Copy, Debug)]
pub enum Verdict {
    Pass,
    Fail,
    Invalid,
}

pub open spec fn verdict_text(v: Verdict) -> Seq<char> {
    match v {
        Verdict::Pass => "Pass"@,
        Verdict::Fail => "Fail"@,
        Verdict::Invalid => "Invalid input!"@,
    }
}

/// The verdict on marks summing to `total`.
pub open spec fn verdict_of(total: int) -> Verdict {
    if passes(total) {
        Verdict::Pass
    } else {
        Verdict::Fail
    }
}

impl Verdict {
    /// The text shown for the verdict.
    pub fn text(&self) -> (r: String)
        ensures
            r@ == verdict_text(*self),
    {
        match self {
            Verdict::Pass => String::from_str("Pass"),
            Verdict::Fail => String::from_str("Fail"),
            Verdict::Invalid => String::from_str("Invalid input!"),
        }
    }
}

impl Average {
    /// The sum of the marks, in millionths.
    pub closed spec fn spec_total(&self) -> int {
        self.total as int
    }

    pub open spec fn wf(&self) -> bool {
        -(SUBJECT_ROWS as int) * MARK_LIMIT <= self.spec_total() <= (SUBJECT_ROWS as int)
            * MARK_LIMIT
    }

    /// The sum of the marks, in millionths.
    pub fn total(&self) -> (r: i128)
        ensures
            r == self.spec_total(),
    {
        self.total
    }

    /// Whether the average reaches the pass mark.
    pub fn passes(&self) -> (r: bool)
        ensures
            r == passes(self.spec_total()),
    {
        self.total >= PASS_MARK * (SUBJECT_ROWS as i128) * MARK_SCALE
    }

    /// The verdict on this average.
    pub fn verdict(&self) -> (r: Verdict)
        ensures
            r == verdict_of(self.spec_total()),
    {
        if self.passes() {
            Verdict::Pass
        } else {
            Verdict::Fail
        }
    }

    /// The average in hundredths, rounded half to even, without its sign.
    pub fn hundredths(&self) -> (r: u128)
        requires
            self.wf(),
        ensures
            r == average_hundredths(self.spec_total()),
    {
        let magnitude: u128 = if self.total < 0 {
            (-self.total) as u128
        } else {
            self.total as u128
        };
        let n: u128 = magnitude * 100;
        // the divisor SUBJECT_ROWS * MARK_SCALE
        let d: u128 = 7_000_000;
        assert(d == SUBJECT_ROWS * MARK_SCALE);
        let q = n / d;
        let r = n % d;
        if 2 * r > d || (2 * r == d && q % 2 == 1) {
            q + 1
        } else {
            q
        }
    }

    /// The average written with two decimals, as the sheet shows it.
    pub fn text(&self) -> (r: String)
        requires
            self.wf(),
        ensures
            r@ == average_text(self.spec_total()),
    {
        let h = self.hundredths();
        let mut out = String::new();
        if self.total < 0 {
            out.append("-");
        }
        push_decimal(&mut out, h / 100);
        out.append(".");
        out.append(digit_str(((h % 100) / 10) as u8));
        out.append(digit_str((h % 10) as u8));
        proof {
            reveal_strlit("-");
            reveal_strlit(".");
            let sign = if self.total < 0 {
                seq!['-']
            } else {
                Seq::<char>::empty()
            };
            assert(out@ =~= sign + decimal((h / 100) as nat) + seq![
                '.',
                digit_char(((h % 100) / 10) as nat),
                digit_char((h % 10) as nat),
            ]);
        }
        out
    }
}

/// The average of the marks entered on a sheet: each is trimmed and read as a
/// mark, stopping at the first one that is not. The divisor is always
/// `SUBJECT_ROWS`, so the average is `total / SUBJECT_ROWS` exactly.
pub fn average_of(marks: &[String; 7]) -> (r: Option<Average>)
    ensures
        r.is_some() == marks_total(marks@.map_values(|m: String| m@)).is_some(),
        r.is_some() ==> r.unwrap().wf() && r.unwrap().spec_total() == marks_total(
            marks@.map_values(|m: String| m@),
        ).unwrap(),
{
    let ghost ms = marks@.map_values(|m: String| m@);
    let mut total: i128 = 0;
    let mut i: usize = 0;
    while i < SUBJECT_ROWS
        invariant
            i <= SUBJECT_ROWS,
            ms == marks@.map_values(|m: String| m@),
            ms.len() == SUBJECT_ROWS,
            marks_total(ms.take(i as int)) == Some(total as int),
            -(i as int) * MARK_LIMIT <= total <= (i as int) * MARK_LIMIT,
        decreases SUBJECT_ROWS - i,
    {
        let entered = trim(marks[i].as_str());
        let value = parse_mark(entered);
        assert(ms.take(i + 1).drop_last() =~= ms.take(i as int));
        match value {
            None => {
                proof {
                    lemma_invalid_stays_invalid(ms, (i + 1) as int);
                }
                return None;
            },
            Some(v) => {
                total = total + v;
            },
        }
        i = i + 1;
    }
    assert(ms.take(SUBJECT_ROWS as int) =~= ms);
    Some(Average { total })
}

proof fn lemma_invalid_stays_invalid(ms: Seq<Seq<char>>, k: int)
    requires
        0 <= k <= ms.len(),
        marks_total(ms.take(k)) is None,
    ensures
        marks_total(ms) is None,
    decreases ms.len() - k,
{
    if k < ms.len() {
        assert(ms.take(k + 1).drop_last() =~= ms.take(k));
        lemma_invalid_stays_invalid(ms, k + 1);
    } else {
        assert(ms.take(k) =~= ms);
    }
}

/// A single mark that cannot be read makes the whole sheet unreadable, wherever
/// it stands: no total, and so no average.
pub proof fn lemma_one_invalid_mark_voids_total(ms: Seq<Seq<char>>, i: int)
    requires
        0 <= i < ms.len(),
        entered_mark(ms[i]) is None,
    ensures
        marks_total(ms) is None,
    decreases ms.len(),
{
    if i < ms.len() - 1 {
        assert(ms.drop_last()[i] == ms[i]);
        lemma_one_invalid_mark_voids_total(ms.drop_last(), i);
    }
}

/// Where every mark can be read, the total is their sum, exactly.
pub proof fn lemma_total_is_sum_of_marks(ms: Seq<Seq<char>>)
    requires
        forall|i: int| 0 <= i < ms.len() ==> #[trigger] entered_mark(ms[i]) is Some,
    ensures
        marks_total(ms) == Some(
            ms.fold_left(0int, |acc: int, m: Seq<char>| acc + entered_mark(m).unwrap()),
        ),
    decreases ms.len(),
{
    if ms.len() > 0 {
        let rest = ms.drop_last();
        assert forall|i: int| 0 <= i < rest.len() implies #[trigger] entered_mark(rest[i]) is Some by {
            assert(rest[i] == ms[i]);
        }
        lemma_total_is_sum_of_marks(rest);
        assert(entered_mark(ms[ms.len() - 1]) is Some);
    }
}

/// The verdict is `Pass` exactly when the average, `total / SUBJECT_ROWS`, is at
/// least the pass mark; an average of exactly the pass mark passes, and one a
/// millionth below it fails.
pub proof fn lemma_verdict_threshold(total: int)
    ensures
        (verdict_of(total) == Verdict::Pass) == (total >= PASS_MARK * SUBJECT_ROWS
            * MARK_SCALE),
        (verdict_of(total) == Verdict::Fail) == (total < PASS_MARK * SUBJECT_ROWS * MARK_SCALE),
        verdict_of(PASS_MARK * SUBJECT_ROWS * MARK_SCALE) == Verdict::Pass,
        verdict_of(PASS_MARK * SUBJECT_ROWS * MARK_SCALE - 1) == Verdict::Fail,
{
}

} // verus!
