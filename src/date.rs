use vstd::prelude::*;
use chrono::Datelike;

verus! {

/// Smallest year that a calendar date may carry.
pub const MIN_YEAR: i32 = -262143;

/// Largest year that a calendar date may carry.
pub const MAX_YEAR: i32 = 262142;

/// A day of the proleptic Gregorian calendar.
#[derive(Debug, PartialEq, Eq, Clone, Copy)]
pub struct CalendarDate {
    pub year: i32,
    pub month: u32,
    pub day: u32,
}

pub open spec fn is_leap_year(y: int) -> bool {
    y % 4 == 0 && (y % 100 != 0 || y % 400 == 0)
}

pub open spec fn month_length(y: int, m: int) -> int {
    if m == 2 {
        if is_leap_year(y) { 29 } else { 28 }
    } else if m == 4 || m == 6 || m == 9 || m == 11 {
        30
    } else {
        31
    }
}

/// Days of year `y` that come before the first of month `m`.
pub open spec fn days_before_month(y: int, m: int) -> int
    decreases m,
{
    if m <= 1 {
        0
    } else {
        days_before_month(y, m - 1) + month_length(y, m - 1)
    }
}

/// Number of the day in the proleptic Gregorian calendar, 1 January of year 1
/// being day 1.
pub open spec fn day_number(y: int, m: int, d: int) -> int {
    let p = y - 1;
    365 * p + p / 4 - p / 100 + p / 400 + days_before_month(y, m) + d
}

pub open spec fn valid_date(y: int, m: int, d: int) -> bool {
    &&& MIN_YEAR <= y <= MAX_YEAR
    &&& 1 <= m <= 12
    &&& 1 <= d <= month_length(y, m)
}

impl CalendarDate {
    pub open spec fn wf(self) -> bool {
        valid_date(self.year as int, self.month as int, self.day as int)
    }

    pub open spec fn spec_day_number(self) -> int {
        day_number(self.year as int, self.month as int, self.day as int)
    }

    /// The date `year`-`month`-`day`, if it exists in the calendar.
    pub fn new(year: i32, month: u32, day: u32) -> (r: Option<Self>)
        ensures
            r is Some <==> valid_date(year as int, month as int, day as int),
            r matches Some(date) ==> date == (CalendarDate { year, month, day }),
    {
        if year < MIN_YEAR || year > MAX_YEAR || month < 1 || month > 12 || day < 1 {
            return None;
        }
        let leap = year % 4 == 0 && (year % 100 != 0 || year % 400 == 0);
        let len: u32 = if month == 2 {
            if leap { 29 } else { 28 }
        } else if month == 4 || month == 6 || month == 9 || month == 11 {
            30
        } else {
            31
        };
        if day > len {
            None
        } else {
            Some(CalendarDate { year, month, day })
        }
    }

    /// Day number of this date, 1 January of year 1 being day 1.
    pub fn day_number(&self) -> (r: i32)
        requires
            self.wf(),
        ensures
            r == self.spec_day_number(),
    {
        days_from_ce(self.year, self.month, self.day)
    }

    /// The year written as `%Y` does: four digits at least, with a sign
    /// outside years 0 to 9999.
    pub fn year_text(&self) -> (r: String)
        requires
            self.wf(),
        ensures
            r@ == year_label(self.year as int),
    {
        format_year(self.year, self.month, self.day)
    }
}

/// Relies on chrono's `NaiveDate::from_ymd_opt` and `Datelike::num_days_from_ce`:
/// a valid date in chrono's year range is accepted, and its count of days
/// has 1 January of year 1 as day 1.
#[verifier::external_body]
fn days_from_ce(year: i32, month: u32, day: u32) -> (r: i32)
    requires
        valid_date(year as int, month as int, day as int),
    ensures
        r == day_number(year as int, month as int, day as int),
{
    chrono::NaiveDate::from_ymd_opt(year, month, day).unwrap().num_days_from_ce()
}

/// Relies on chrono's `Utc::now`: today's date in UTC, which chrono keeps
/// within its year range.
#[verifier::external_body]
pub(crate) fn today() -> (r: CalendarDate)
    ensures
        r.wf(),
{
    let d = chrono::Utc::now().date_naive();
    CalendarDate { year: d.year(), month: d.month(), day: d.day() }
}

pub open spec fn digit_char(d: nat) -> char {
    if d == 1 { '1' }
    else if d == 2 { '2' }
    else if d == 3 { '3' }
    else if d == 4 { '4' }
    else if d == 5 { '5' }
    else if d == 6 { '6' }
    else if d == 7 { '7' }
    else if d == 8 { '8' }
    else if d == 9 { '9' }
    else { '0' }
}

/// Decimal digits of `n`, without leading zeros.
pub open spec fn decimal(n: nat) -> Seq<char>
    decreases n,
{
    if n < 10 {
        seq![digit_char(n)]
    } else {
        decimal(n / 10) + seq![digit_char(n % 10)]
    }
}

/// Decimal digits of `n`, padded with zeros to four digits.
pub open spec fn padded4(n: nat) -> Seq<char> {
    let d = decimal(n);
    if d.len() < 4 { Seq::new((4 - d.len()) as nat, |i: int| '0') + d } else { d }
}

/// A year as chrono's `%Y` writes it.
pub open spec fn year_label(y: int) -> Seq<char> {
    if 0 <= y <= 9999 {
        padded4(y as nat)
    } else if y > 9999 {
        seq!['+'] + padded4(y as nat)
    } else {
        seq!['-'] + padded4((-y) as nat)
    }
}

/// Relies on chrono's `%Y` format item: the year zero-padded to four digits,
/// signed outside years 0 to 9999.
#[verifier::external_body]
fn format_year(year: i32, month: u32, day: u32) -> (r: String)
    requires
        valid_date(year as int, month as int, day as int),
    ensures
        r@ == year_label(year as int),
{
    chrono::NaiveDate::from_ymd_opt(year, month, day).unwrap().format("%Y").to_string()
}

pub open spec fn is_digit(c: char) -> bool {
    '0' <= c <= '9'
}

/// Value of a string of decimal digits.
pub open spec fn digits_value(s: Seq<char>) -> nat
    decreases s.len(),
{
    if s.len() == 0 {
        0
    } else {
        digits_value(s.drop_last()) * 10 + (s.last() as nat - '0' as nat) as nat
    }
}

/// Whether `s` is a non-empty string of decimal digits.
pub open spec fn is_number(s: Seq<char>) -> bool {
    s.len() > 0 && forall|k: int| 0 <= k < s.len() ==> is_digit(#[trigger] s[k])
}

/// Index of the first `-` at or after `i`, or the length of `s`.
pub open spec fn field_end(s: Seq<char>, i: int) -> int
    decreases s.len() - i,
{
    if 0 <= i < s.len() && s[i] != '-' {
        field_end(s, i + 1)
    } else {
        i
    }
}

/// The date that a text `YYYY-MM` denotes, on the first of the month: the
/// fields are split at `-`, the first is the year and the second the month,
/// further fields are ignored.
pub open spec fn spec_parse_year_month(s: Seq<char>) -> Option<CalendarDate> {
    let e1 = field_end(s, 0);
    if e1 >= s.len() {
        None
    } else {
        let e2 = field_end(s, e1 + 1);
        let y = s.subrange(0, e1);
        let m = s.subrange(e1 + 1, e2);
        if is_number(y) && is_number(m) && digits_value(y) <= MAX_YEAR && 1 <= digits_value(m)
            <= 12 {
            Some(CalendarDate { year: digits_value(y) as i32, month: digits_value(m) as u32, day: 1 })
        } else {
            None
        }
    }
}

/// Numbers above this are rejected while reading digits.
const DIGITS_CAP: u64 = 1000000;

fn field_end_exec(s: &str, from: usize) -> (r: usize)
    requires
        from <= s@.len(),
    ensures
        r == field_end(s@, from as int),
        from <= r <= s@.len(),
{
    let n = s.unicode_len();
    let mut i = from;
    while i < n && s.get_char(i) != '-'
        invariant
            n == s@.len(),
            from <= i <= n,
            field_end(s@, i as int) == field_end(s@, from as int),
        decreases n - i,
    {
        i = i + 1;
    }
    i
}

proof fn lemma_digits_value_grows(s: Seq<char>, i: int)
    requires
        0 <= i <= s.len(),
        forall|k: int| 0 <= k < s.len() ==> is_digit(#[trigger] s[k]),
    ensures
        digits_value(s.subrange(0, i)) <= digits_value(s),
    decreases s.len() - i,
{
    if i < s.len() {
        lemma_digits_value_grows(s, i + 1);
        let t = s.subrange(0, i + 1);
        assert(t.drop_last() =~= s.subrange(0, i));
    } else {
        assert(s.subrange(0, i) =~= s);
    }
}

/// Value of the digits `s[from..to]`, none unless they are all digits, at
/// least one, with a value of at most `DIGITS_CAP`.
fn parse_number(s: &str, from: usize, to: usize) -> (r: Option<u64>)
    requires
        from <= to <= s@.len(),
    ensures
        r matches Some(v) ==> is_number(s@.subrange(from as int, to as int)) && v == digits_value(
            s@.subrange(from as int, to as int),
        ),
        r is None ==> !is_number(s@.subrange(from as int, to as int)) || digits_value(
            s@.subrange(from as int, to as int),
        ) > DIGITS_CAP,
{
    if from == to {
        return None;
    }
    let ghost t = s@.subrange(from as int, to as int);
    let mut v: u64 = 0;
    let mut i = from;
    while i < to
        invariant
            from <= i <= to,
            to <= s@.len(),
            t == s@.subrange(from as int, to as int),
            forall|k: int| 0 <= k < i - from ==> is_digit(#[trigger] t[k]),
            v == digits_value(t.subrange(0, i - from)),
            v <= DIGITS_CAP,
        decreases to - i,
    {
        let c = s.get_char(i);
        if c < '0' || c > '9' {
            assert(!is_digit(t[i - from]));
            return None;
        }
        proof {
            assert(t.subrange(0, i + 1 - from).drop_last() =~= t.subrange(0, i - from));
        }
        v = v * 10 + (c as u64 - '0' as u64);
        if v > DIGITS_CAP {
            proof {
                if is_number(t) {
                    lemma_digits_value_grows(t, i + 1 - from);
                }
            }
            return None;
        }
        i = i + 1;
    }
    assert(t.subrange(0, to - from) =~= t);
    Some(v)
}

/// Reads a date written `YYYY-MM` (fields after the month are ignored),
/// taking the first day of the month; none when the text is not of that form
/// or the month is not 1 to 12.
pub fn parse_year_month(s: &str) -> (r: Option<CalendarDate>)
    ensures
        r == spec_parse_year_month(s@),
        r matches Some(d) ==> d.wf(),
{
    let n = s.unicode_len();
    let e1 = field_end_exec(s, 0);
    if e1 >= n {
        return None;
    }
    let e2 = field_end_exec(s, e1 + 1);
    let y = parse_number(s, 0, e1);
    let m = parse_number(s, e1 + 1, e2);
    match (y, m) {
        (Some(y), Some(m)) => {
            if y <= MAX_YEAR as u64 && 1 <= m && m <= 12 {
                Some(CalendarDate { year: y as i32, month: m as u32, day: 1 })
            } else {
                None
            }
        },
        _ => None,
    }
}

} // verus!
