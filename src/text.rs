use vstd::prelude::*;
use crate::date::{decimal, digit_char};

verus! {

/// Opening braces minus closing braces.
pub open spec fn brace_balance(s: Seq<char>) -> int
    decreases s.len(),
{
    if s.len() == 0 {
        0
    } else {
        brace_balance(s.drop_last()) + if s.last() == '{' {
            1int
        } else if s.last() == '}' {
            -1int
        } else {
            0int
        }
    }
}

/// Whether `s` has as many opening braces as closing ones.
pub open spec fn balanced(s: Seq<char>) -> bool {
    brace_balance(s) == 0
}

/// The record marker that opens every rendered entry.
pub open spec fn marker() -> Seq<char> {
    "\\cventry"@
}

/// Number of places where the record marker occurs in `s`.
pub open spec fn marker_count(s: Seq<char>) -> nat
    decreases s.len(),
{
    if s.len() < 8 {
        0
    } else {
        marker_count(s.drop_last()) + if s.subrange(s.len() - 8, s.len() as int) == marker() {
            1nat
        } else {
            0nat
        }
    }
}

pub broadcast proof fn lemma_balance_concat(a: Seq<char>, b: Seq<char>)
    ensures
        #[trigger] brace_balance(a + b) == brace_balance(a) + brace_balance(b),
    decreases b.len(),
{
    if b.len() == 0 {
        assert(a + b =~= a);
    } else {
        assert((a + b).drop_last() =~= a + b.drop_last());
        lemma_balance_concat(a, b.drop_last());
    }
}

/// A string without braces is balanced.
pub proof fn lemma_plain(s: Seq<char>)
    requires
        forall|k: int| 0 <= k < s.len() ==> #[trigger] s[k] != '{' && s[k] != '}',
    ensures
        brace_balance(s) == 0,
    decreases s.len(),
{
    if s.len() > 0 {
        lemma_plain(s.drop_last());
    }
}

pub proof fn lemma_balance_char(c: char)
    ensures
        brace_balance(seq![c]) == if c == '{' {
            1int
        } else if c == '}' {
            -1int
        } else {
            0int
        },
{
    assert(seq![c].drop_last() =~= Seq::<char>::empty());
    assert(brace_balance(Seq::<char>::empty()) == 0);
}

/// Occurrences of the marker in two strings are still there once joined.
pub proof fn lemma_marker_concat(a: Seq<char>, b: Seq<char>)
    ensures
        marker_count(a + b) >= marker_count(a) + marker_count(b),
    decreases b.len(),
{
    if b.len() == 0 {
        assert(a + b =~= a);
    } else {
        assert((a + b).drop_last() =~= a + b.drop_last());
        lemma_marker_concat(a, b.drop_last());
        if b.len() >= 8 {
            assert((a + b).subrange((a + b).len() - 8, (a + b).len() as int) =~= b.subrange(
                b.len() - 8,
                b.len() as int,
            ));
        }
    }
}

pub proof fn lemma_marker_count_marker()
    ensures
        marker_count(marker()) == 1,
{
    reveal_strlit("\\cventry");
    assert(marker().subrange(0, 8) =~= marker());
    assert(marker_count(marker().drop_last()) == 0);
}

/// Whitespace as `char::is_whitespace` defines it (Unicode `White_Space`).
pub open spec fn is_space(c: char) -> bool {
    ||| c == '\t' || c == '\n' || c == '\u{B}' || c == '\u{C}' || c == '\r' || c == ' '
    ||| c == '\u{85}' || c == '\u{A0}' || c == '\u{1680}'
    ||| '\u{2000}' <= c <= '\u{200A}'
    ||| c == '\u{2028}' || c == '\u{2029}' || c == '\u{202F}' || c == '\u{205F}' || c == '\u{3000}'
}

/// Index of the first character at or after `i` that is not whitespace.
pub open spec fn trim_start(s: Seq<char>, i: int) -> int
    decreases s.len() - i,
{
    if 0 <= i < s.len() && is_space(s[i]) {
        trim_start(s, i + 1)
    } else {
        i
    }
}

/// End of `s[lo..j]` once trailing whitespace is removed.
pub open spec fn trim_end(s: Seq<char>, lo: int, j: int) -> int
    decreases j - lo,
{
    if lo < j <= s.len() && is_space(s[j - 1]) {
        trim_end(s, lo, j - 1)
    } else {
        j
    }
}

/// `s` without leading and trailing whitespace.
pub open spec fn trimmed(s: Seq<char>) -> Seq<char> {
    let a = trim_start(s, 0);
    s.subrange(a, trim_end(s, a, s.len() as int))
}

pub fn is_space_char(c: char) -> (r: bool)
    ensures
        r == is_space(c),
{
    c == '\t' || c == '\n' || c == '\u{B}' || c == '\u{C}' || c == '\r' || c == ' ' || c == '\u{85}'
        || c == '\u{A0}' || c == '\u{1680}' || ('\u{2000}' <= c && c <= '\u{200A}') || c
        == '\u{2028}' || c == '\u{2029}' || c == '\u{202F}' || c == '\u{205F}' || c == '\u{3000}'
}

/// `s` without leading and trailing whitespace.
pub fn trim(s: &str) -> (r: String)
    ensures
        r@ == trimmed(s@),
{
    let n = s.unicode_len();
    let mut a: usize = 0;
    while a < n && is_space_char(s.get_char(a))
        invariant
            n == s@.len(),
            a <= n,
            trim_start(s@, 0) == trim_start(s@, a as int),
        decreases n - a,
    {
        a = a + 1;
    }
    let mut b: usize = n;
    while b > a && is_space_char(s.get_char(b - 1))
        invariant
            n == s@.len(),
            a <= b <= n,
            trim_end(s@, a as int, n as int) == trim_end(s@, a as int, b as int),
        decreases b - a,
    {
        b = b - 1;
    }
    String::from_str(s.substring_char(a, b))
}

/// Characters outside the trimmed part are whitespace.
pub proof fn lemma_trim_start_spaces(s: Seq<char>, i: int)
    requires
        0 <= i <= s.len(),
    ensures
        i <= trim_start(s, i) <= s.len(),
        forall|k: int| i <= k < trim_start(s, i) ==> is_space(#[trigger] s[k]),
        trim_start(s, i) < s.len() ==> !is_space(s[trim_start(s, i)]),
    decreases s.len() - i,
{
    if i < s.len() && is_space(s[i]) {
        lemma_trim_start_spaces(s, i + 1);
    }
}

pub proof fn lemma_trim_end_spaces(s: Seq<char>, lo: int, j: int)
    requires
        0 <= lo <= j <= s.len(),
    ensures
        lo <= trim_end(s, lo, j) <= j,
        forall|k: int| trim_end(s, lo, j) <= k < j ==> is_space(#[trigger] s[k]),
    decreases j - lo,
{
    if lo < j && is_space(s[j - 1]) {
        lemma_trim_end_spaces(s, lo, j - 1);
    }
}

proof fn lemma_spaces_balance(s: Seq<char>)
    requires
        forall|k: int| 0 <= k < s.len() ==> is_space(#[trigger] s[k]),
    ensures
        brace_balance(s) == 0,
    decreases s.len(),
{
    if s.len() > 0 {
        lemma_spaces_balance(s.drop_last());
    }
}

/// Trimming removes no braces.
pub proof fn lemma_trim_balance(s: Seq<char>)
    ensures
        brace_balance(trimmed(s)) == brace_balance(s),
{
    lemma_trim_start_spaces(s, 0);
    let a = trim_start(s, 0);
    lemma_trim_end_spaces(s, a, s.len() as int);
    let b = trim_end(s, a, s.len() as int);
    let p = s.subrange(0, a);
    let m = s.subrange(a, b);
    let q = s.subrange(b, s.len() as int);
    assert(s =~= p + m + q);
    lemma_balance_concat(p + m, q);
    lemma_balance_concat(p, m);
    lemma_spaces_balance(p);
    lemma_spaces_balance(q);
}

/// Trimming `p + q`, where `q` starts and ends with non-whitespace, keeps all of `q`,
/// and so every marker in it.
pub proof fn lemma_trim_keeps_tail(p: Seq<char>, q: Seq<char>)
    requires
        q.len() > 0,
        !is_space(q[0]),
        !is_space(q.last()),
    ensures
        marker_count(trimmed(p + q)) >= marker_count(q),
{
    let s = p + q;
    lemma_trim_start_spaces(s, 0);
    let a = trim_start(s, 0);
    assert(s[p.len() as int] == q[0]);
    assert(a <= p.len());
    assert(s.last() == q.last());
    assert(trim_end(s, a, s.len() as int) == s.len());
    assert(trimmed(s) =~= p.subrange(a, p.len() as int) + q);
    lemma_marker_concat(p.subrange(a, p.len() as int), q);
}

/// The decimal digit `d` as a string.
fn digit_text(d: u64) -> (r: &'static str)
    requires
        d < 10,
    ensures
        r@ == seq![digit_char(d as nat)],
{
    proof {
        reveal_strlit("0");
        reveal_strlit("1");
        reveal_strlit("2");
        reveal_strlit("3");
        reveal_strlit("4");
        reveal_strlit("5");
        reveal_strlit("6");
        reveal_strlit("7");
        reveal_strlit("8");
        reveal_strlit("9");
    }
    let r = match d {
        0 => "0",
        1 => "1",
        2 => "2",
        3 => "3",
        4 => "4",
        5 => "5",
        6 => "6",
        7 => "7",
        8 => "8",
        _ => "9",
    };
    assert(r@ =~= seq![digit_char(d as nat)]);
    r
}

/// Decimal digits of `n`.
pub fn decimal_text(n: u64) -> (r: String)
    ensures
        r@ == decimal(n as nat),
    decreases n,
{
    if n < 10 {
        String::from_str(digit_text(n))
    } else {
        let mut s = decimal_text(n / 10);
        s.append(digit_text(n % 10));
        s
    }
}

pub proof fn lemma_decimal_no_braces(n: nat)
    ensures
        forall|k: int| 0 <= k < decimal(n).len() ==> {
            &&& #[trigger] decimal(n)[k] != '{'
            &&& decimal(n)[k] != '}'
            &&& !is_space(decimal(n)[k])
        },
        brace_balance(decimal(n)) == 0,
        decimal(n).len() > 0,
    decreases n,
{
    if n >= 10 {
        lemma_decimal_no_braces(n / 10);
        let d = decimal(n / 10);
        assert forall|k: int| 0 <= k < decimal(n).len() implies {
            &&& #[trigger] decimal(n)[k] != '{'
            &&& decimal(n)[k] != '}'
            &&& !is_space(decimal(n)[k])
        } by {
            if k < d.len() {
                assert(decimal(n)[k] == d[k]);
            }
        }
    }
    lemma_plain(decimal(n));
}

} // verus!
