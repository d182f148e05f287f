use vstd::prelude::*;

verus! {

/// An elapsed time as whole years plus remaining months.
///
/// The month component is not forced below twelve: a value produced from a
/// day count may hold twelve months, and only `add` folds months into years.
#[derive(Debug, Default, PartialEq, Eq, Clone, Copy)]
pub struct CVDuration {
    pub year: u32,
    pub month: u32,
}

impl View for CVDuration {
    type V = (nat, nat);

    open spec fn view(&self) -> (nat, nat) {
        (self.year as nat, self.month as nat)
    }
}

/// Sum of two `(years, months)` spans, carrying whole years out of the months.
pub open spec fn span_add(a: (nat, nat), b: (nat, nat)) -> (nat, nat) {
    let m = a.1 + b.1;
    ((a.0 + b.0 + m / 12) as nat, (m % 12) as nat)
}

/// Length of a span counted in months.
pub open spec fn span_months(a: (nat, nat)) -> nat {
    12 * a.0 + a.1
}

/// Nearest whole number of years, ties upwards, for spans of eleven months or more.
pub open spec fn span_round(a: (nat, nat)) -> (nat, nat) {
    if a.0 == 0 && a.1 <= 10 {
        a
    } else {
        (((12 * a.0 + a.1 + 6) / 12) as nat, 0)
    }
}

/// Splits a non-negative day count into years of 365 days and months of 30
/// days, the remainder rounded to the nearest month.
pub open spec fn span_of_days(days: nat) -> (nat, nat) {
    (days / 365, ((days % 365 + 15) / 30) as nat)
}

/// Adding spans adds their month counts.
pub proof fn lemma_span_add_months(a: (nat, nat), b: (nat, nat))
    ensures
        span_months(span_add(a, b)) == span_months(a) + span_months(b),
        span_add(a, b).1 < 12,
{
    let m = a.1 + b.1;
    assert(m == 12 * (m / 12) + m % 12) by (nonlinear_arith);
}

/// Two spans with fewer than twelve months are equal when their month counts are.
proof fn lemma_normal_span_unique(a: (nat, nat), b: (nat, nat))
    requires
        a.1 < 12,
        b.1 < 12,
        span_months(a) == span_months(b),
    ensures
        a == b,
{
    assert(a.0 == b.0) by (nonlinear_arith)
        requires
            12 * a.0 + a.1 == 12 * b.0 + b.1,
            a.1 < 12,
            b.1 < 12,
    ;
}

/// Duration addition is commutative.
pub proof fn lemma_add_commutative(a: CVDuration, b: CVDuration)
    ensures
        span_add(a@, b@) == span_add(b@, a@),
{
}

/// Duration addition is associative.
pub proof fn lemma_add_associative(a: CVDuration, b: CVDuration, c: CVDuration)
    ensures
        span_add(span_add(a@, b@), c@) == span_add(a@, span_add(b@, c@)),
{
    lemma_span_assoc(a@, b@, c@);
}

pub proof fn lemma_span_assoc(a: (nat, nat), b: (nat, nat), c: (nat, nat))
    ensures
        span_add(span_add(a, b), c) == span_add(a, span_add(b, c)),
{
    lemma_span_add_months(a, b);
    lemma_span_add_months(span_add(a, b), c);
    lemma_span_add_months(b, c);
    lemma_span_add_months(a, span_add(b, c));
    lemma_normal_span_unique(span_add(span_add(a, b), c), span_add(a, span_add(b, c)));
}

impl CVDuration {
    /// Whether `self.add(other)` fits the field types.
    pub open spec fn add_fits(self, other: Self) -> bool {
        span_add(self@, other@).0 <= u32::MAX && self.month + other.month <= u32::MAX
    }

    /// Sum of two durations; months beyond eleven are carried into years.
    pub fn add(self, other: Self) -> (r: Self)
        requires
            self.add_fits(other),
        ensures
            r@ == span_add(self@, other@),
    {
        let m: u32 = self.month + other.month;
        if m < 12 {
            CVDuration { year: self.year + other.year, month: m }
        } else {
            CVDuration { year: self.year + other.year + m / 12, month: m % 12 }
        }
    }

    /// Round to the nearest number of years once the duration reaches eleven
    /// months; shorter durations are returned unchanged.
    pub fn round(&self) -> (r: Self)
        requires
            span_round(self@).0 <= u32::MAX,
        ensures
            r@ == span_round(self@),
    {
        if self.year == 0 && self.month <= 10 {
            *self
        } else {
            let up: u32 = self.month / 12 + (self.month % 12 + 6) / 12;
            assert(up == (self.month + 6) / 12) by (nonlinear_arith)
                requires up == self.month / 12 + (self.month % 12 + 6) / 12;
            assert((12 * self.year + self.month + 6) / 12 == self.year + (self.month + 6) / 12) by (nonlinear_arith);
            CVDuration { year: self.year + up, month: 0 }
        }
    }

    /// Duration of a span of `days` days: years of 365 days, then the rest in
    /// months of 30 days, rounded to the nearest month.
    pub fn from_days(days: u32) -> (r: Self)
        ensures
            r@ == span_of_days(days as nat),
    {
        CVDuration { year: days / 365, month: (days % 365 + 15) / 30 }
    }
}

} // verus!
