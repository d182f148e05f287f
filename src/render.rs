use vstd::prelude::*;
use crate::date::{decimal, padded4, year_label};
use crate::entry::{texts, CVEntry, EntryDescription};
use crate::skills::{category_order, Category};
use crate::text::{
    balanced, brace_balance, decimal_text, is_space, lemma_balance_char, lemma_balance_concat,
    lemma_decimal_no_braces, lemma_marker_concat, lemma_marker_count_marker, lemma_plain,
    lemma_trim_balance, lemma_trim_keeps_tail, marker, marker_count, trimmed,
};

verus! {

/// The strings of `items`, separated by `sep`.
pub open spec fn join_texts(items: Seq<Seq<char>>, sep: Seq<char>) -> Seq<char>
    decreases items.len(),
{
    if items.len() == 0 {
        seq![]
    } else if items.len() == 1 {
        items[0]
    } else {
        join_texts(items.drop_last(), sep) + sep + items.last()
    }
}

/// Appends the strings of `items` to `out`, separated by `sep`.
pub fn push_joined(out: &mut String, items: &Vec<String>, sep: &str)
    ensures
        final(out)@ == old(out)@ + join_texts(texts(items@), sep@),
{
    let ghost start = out@;
    let mut i: usize = 0;
    while i < items.len()
        invariant
            i <= items@.len(),
            out@ == start + join_texts(texts(items@.take(i as int)), sep@),
        decreases items@.len() - i,
    {
        if i > 0 {
            out.append(sep);
        }
        out.append(items[i].as_str());
        proof {
            let t = texts(items@.take(i + 1));
            assert(t.drop_last() =~= texts(items@.take(i as int)));
            assert(t.last() == items@[i as int]@);
            assert(out@ =~= start + join_texts(t, sep@));
        }
        i = i + 1;
    }
    proof {
        assert(items@.take(items@.len() as int) =~= items@);
    }
}

impl EntryDescription {
    /// Whether any category lists a skill.
    pub open spec fn has_skills(self) -> bool {
        ||| self.programming.len() > 0
        ||| self.version.len() > 0
        ||| self.database.len() > 0
        ||| self.cloud.len() > 0
        ||| self.ci.len() > 0
        ||| self.other.len() > 0
    }

    /// The list item naming category `c` and its skills.
    pub open spec fn item_line(self, c: Category) -> Seq<char> {
        "\n\\item ["@ + c.spec_label() + "] "@ + join_texts(texts(self.spec_list(c)), ", "@)
    }

    /// List items of the non-empty categories among the first `n`, in display order.
    pub open spec fn items_upto(self, n: int) -> Seq<char>
        decreases n,
    {
        if n <= 0 {
            seq![]
        } else {
            let c = category_order()[n - 1];
            if self.spec_list(c).len() > 0 {
                self.items_upto(n - 1) + self.item_line(c)
            } else {
                self.items_upto(n - 1)
            }
        }
    }

    /// LaTeX of the description: the context, then the skills of each
    /// non-empty category as a labelled list, in display order.
    pub open spec fn spec_latex(self) -> Seq<char> {
        let head = "%\n"@ + self.context@;
        if self.has_skills() {
            head + "\n\\begin"@ + "{"@ + "description"@ + "}"@ + self.items_upto(6) + "\n\\end"@
                + "{"@ + "description"@ + "}"@ + "\n"@
        } else {
            head
        }
    }

    /// LaTeX of the description.
    pub fn to_latex(&self) -> (r: String)
        ensures
            r@ == self.spec_latex(),
    {
        let mut out = String::from_str("%\n");
        out.append(self.context.as_str());
        let has = self.programming.len() > 0 || self.version.len() > 0 || self.database.len() > 0
            || self.cloud.len() > 0 || self.ci.len() > 0 || self.other.len() > 0;
        if has {
            out.append("\n\\begin");
            out.append("{");
            out.append("description");
            out.append("}");
            let ghost head = out@;
            let mut n: usize = 0;
            while n < 6
                invariant
                    n <= 6,
                    out@ == head + self.items_upto(n as int),
                decreases 6 - n,
            {
                let c = Category::at(n);
                let list = self.list(c);
                if list.len() > 0 {
                    out.append("\n\\item [");
                    out.append(c.label());
                    out.append("] ");
                    push_joined(&mut out, list, ", ");
                    assert(out@ =~= head + self.items_upto(n + 1));
                }
                n = n + 1;
            }
            out.append("\n\\end");
            out.append("{");
            out.append("description");
            out.append("}");
            out.append("\n");
        }
        out
    }
}

/// Characters of an optional text, empty when absent.
pub open spec fn text_or_empty(s: Option<String>) -> Seq<char> {
    match s {
        Some(t) => t@,
        None => seq![],
    }
}

/// The margin, in ex, that aligns the records under date labels of `m` characters.
pub open spec fn margin_text(m: nat) -> Seq<char> {
    if m <= 21 {
        decimal((21 - m) as nat) + ".5"@
    } else {
        "-"@ + decimal((m - 22) as nat) + ".5"@
    }
}

/// The directive that shifts a subentry left by the margin for labels of `m` characters.
pub open spec fn hspace(m: nat) -> Seq<char> {
    "\\hspace*"@ + "{"@ + "-"@ + margin_text(m) + "ex"@ + "}"@
}

impl CVEntry {
    /// Years of the beginning and of the end, those present, joined by `--`.
    pub open spec fn spec_dates(self) -> Seq<char> {
        match (self.beginning, self.end) {
            (Some(b), Some(e)) => year_label(b.year as int) + "--"@ + year_label(e.year as int),
            (Some(b), None) => year_label(b.year as int),
            (None, Some(e)) => year_label(e.year as int),
            (None, None) => seq![],
        }
    }

    /// Longest date label among the first `n` subentries.
    pub open spec fn max_dates_upto(self, n: int) -> nat
        decreases n,
    {
        if n <= 0 || n > self.subentries.len() {
            0
        } else {
            let l = self.subentries@[n - 1].spec_dates().len();
            let m = self.max_dates_upto(n - 1);
            if l > m { l } else { m }
        }
    }

    /// Longest date label among the subentries.
    pub open spec fn max_dates(self) -> nat {
        self.max_dates_upto(self.subentries.len() as int)
    }

    pub open spec fn desc_text(self) -> Seq<char> {
        match self.description {
            Some(d) => d.spec_latex(),
            None => seq![],
        }
    }

    /// The record for this entry around the content `body`.
    pub open spec fn record(self, body: Seq<char>) -> Seq<char> {
        "\\cventry"@ + "{"@ + self.spec_dates() + "}"@ + "{"@ + self.degree@ + "}"@ + "{"@
            + self.institution@ + "}"@ + "{"@ + text_or_empty(self.city) + "}"@ + "{"@
            + text_or_empty(self.grade) + "}"@ + "{"@ + "%\n"@ + body + "%\n"@ + "}"@
    }

    /// For `n` up to the number of subentries: the description followed by
    /// the first `n` subentries, each shifted by the common margin. Beyond
    /// that: the whole record of the entry.
    pub open spec fn latex_upto(self, n: int) -> Seq<char>
        decreases self, n,
    {
        if n <= 0 {
            self.desc_text()
        } else if n <= self.subentries.len() {
            let child = self.subentries@[n - 1];
            self.latex_upto(n - 1) + "\n"@ + hspace(self.max_dates()) + child.latex_upto(
                child.subentries.len() + 1,
            )
        } else {
            self.record(trimmed(self.latex_upto(self.subentries.len() as int)))
        }
    }

    /// LaTeX of the entry and, nested in it, of its subentries.
    pub open spec fn spec_latex(self) -> Seq<char> {
        self.latex_upto(self.subentries.len() + 1)
    }
}

/// The margin text for date labels of `m` characters.
fn margin(m: usize) -> (r: String)
    ensures
        r@ == margin_text(m as nat),
{
    if m <= 21 {
        let mut s = decimal_text((21 - m) as u64);
        s.append(".5");
        s
    } else {
        let mut s = String::from_str("-");
        let d = decimal_text((m - 22) as u64);
        s.append(d.as_str());
        s.append(".5");
        s
    }
}

/// Appends an optional text to `out`, nothing when absent.
fn push_optional(out: &mut String, s: &Option<String>)
    ensures
        final(out)@ == old(out)@ + text_or_empty(*s),
{
    match s {
        Some(t) => out.append(t.as_str()),
        None => {
            assert(old(out)@ + text_or_empty(*s) =~= old(out)@);
        },
    }
}

impl CVEntry {
    /// Years of the beginning and of the end, those present, joined by `--`.
    pub fn get_dates(&self) -> (r: String)
        requires
            self.wf(),
        ensures
            r@ == self.spec_dates(),
    {
        match (&self.beginning, &self.end) {
            (Some(b), Some(e)) => {
                let mut s = b.year_text();
                s.append("--");
                let t = e.year_text();
                s.append(t.as_str());
                s
            },
            (Some(b), None) => b.year_text(),
            (None, Some(e)) => e.year_text(),
            (None, None) => String::new(),
        }
    }

    /// Longest date label among the subentries.
    fn widest_dates(&self) -> (r: usize)
        requires
            self.wf(),
        ensures
            r == self.max_dates(),
    {
        let mut m: usize = 0;
        let mut i: usize = 0;
        while i < self.subentries.len()
            invariant
                self.wf(),
                i <= self.subentries@.len(),
                m == self.max_dates_upto(i as int),
            decreases self.subentries@.len() - i,
        {
            let child = &self.subentries[i];
            assert(child.wf());
            let l = child.get_dates().unicode_len();
            if l > m {
                m = l;
            }
            i = i + 1;
        }
        m
    }

    /// LaTeX of the entry: one record holding its dates, title, institution,
    /// city and grade, and as content its description followed by its
    /// subentries, each shifted left by a margin that the widest date label
    /// among them sets.
    pub fn to_latex(&self) -> (r: String)
        requires
            self.wf(),
        ensures
            r@ == self.spec_latex(),
        decreases self,
    {
        let mut descr = match &self.description {
            Some(d) => d.to_latex(),
            None => String::new(),
        };
        let ghost len = self.subentries@.len() as int;
        let shift = {
            let m = self.widest_dates();
            let mt = margin(m);
            let mut h = String::from_str("\\hspace*");
            h.append("{");
            h.append("-");
            h.append(mt.as_str());
            h.append("ex");
            h.append("}");
            h
        };
        assert(shift@ == hspace(self.max_dates()));
        let mut i: usize = 0;
        while i < self.subentries.len()
            invariant
                self.wf(),
                len == self.subentries@.len(),
                i <= len,
                shift@ == hspace(self.max_dates()),
                descr@ == self.latex_upto(i as int),
            decreases len - i,
        {
            let child = &self.subentries[i];
            proof {
                assert(decreases_to!(self => self.subentries@[i as int]));
                assert(child.wf());
            }
            let c = child.to_latex();
            descr.append("\n");
            descr.append(shift.as_str());
            descr.append(c.as_str());
            i = i + 1;
        }
        let body = crate::text::trim(descr.as_str());
        let mut out = String::from_str("\\cventry");
        out.append("{");
        let dates = self.get_dates();
        out.append(dates.as_str());
        out.append("}");
        out.append("{");
        out.append(self.degree.as_str());
        out.append("}");
        out.append("{");
        out.append(self.institution.as_str());
        out.append("}");
        out.append("{");
        push_optional(&mut out, &self.city);
        out.append("}");
        out.append("{");
        push_optional(&mut out, &self.grade);
        out.append("}");
        out.append("{");
        out.append("%\n");
        out.append(body.as_str());
        out.append("%\n");
        out.append("}");
        out
    }
}

proof fn lemma_literal_balances()
    ensures
        brace_balance("%\n"@) == 0,
        brace_balance("\n\\begin"@) == 0,
        brace_balance("description"@) == 0,
        brace_balance("\n\\item ["@) == 0,
        brace_balance("] "@) == 0,
        brace_balance(", "@) == 0,
        brace_balance("\n\\end"@) == 0,
        brace_balance("\n"@) == 0,
        brace_balance("\\hspace*"@) == 0,
        brace_balance("-"@) == 0,
        brace_balance(".5"@) == 0,
        brace_balance("ex"@) == 0,
        brace_balance("\\cventry"@) == 0,
        brace_balance("--"@) == 0,
        brace_balance("+"@) == 0,
        brace_balance("{"@) == 1,
        brace_balance("}"@) == -1,
        forall|c: Category| brace_balance(#[trigger] c.spec_label()) == 0,
{
    reveal_strlit("%\n");
    lemma_plain("%\n"@);
    reveal_strlit("\n\\begin");
    lemma_plain("\n\\begin"@);
    reveal_strlit("description");
    lemma_plain("description"@);
    reveal_strlit("\n\\item [");
    lemma_plain("\n\\item ["@);
    reveal_strlit("] ");
    lemma_plain("] "@);
    reveal_strlit(", ");
    lemma_plain(", "@);
    reveal_strlit("\n\\end");
    lemma_plain("\n\\end"@);
    reveal_strlit("\n");
    lemma_plain("\n"@);
    reveal_strlit("\\hspace*");
    lemma_plain("\\hspace*"@);
    reveal_strlit("-");
    lemma_plain("-"@);
    reveal_strlit(".5");
    lemma_plain(".5"@);
    reveal_strlit("ex");
    lemma_plain("ex"@);
    reveal_strlit("\\cventry");
    lemma_plain("\\cventry"@);
    reveal_strlit("--");
    lemma_plain("--"@);
    reveal_strlit("+");
    lemma_plain("+"@);
    reveal_strlit("{");
    assert("{"@ =~= seq!['{']);
    lemma_balance_char('{');
    reveal_strlit("}");
    assert("}"@ =~= seq!['}']);
    lemma_balance_char('}');
    reveal_strlit("programming languages");
    lemma_plain("programming languages"@);
    reveal_strlit("version control");
    lemma_plain("version control"@);
    reveal_strlit("database");
    lemma_plain("database"@);
    reveal_strlit("cloud computing");
    lemma_plain("cloud computing"@);
    reveal_strlit("CI/CD");
    lemma_plain("CI/CD"@);
    reveal_strlit("other");
    lemma_plain("other"@);
    assert forall|c: Category| brace_balance(#[trigger] c.spec_label()) == 0 by {
        match c {
            Category::ProgrammingLanguages => {},
            Category::VersionControl => {},
            Category::Database => {},
            Category::CloudComputing => {},
            Category::CiCd => {},
            Category::Other => {},
        }
    }
}

proof fn lemma_join_balanced(items: Seq<Seq<char>>, sep: Seq<char>)
    requires
        forall|j: int| 0 <= j < items.len() ==> balanced(#[trigger] items[j]),
        balanced(sep),
    ensures
        balanced(join_texts(items, sep)),
    decreases items.len(),
{
    broadcast use lemma_balance_concat;

    if items.len() > 1 {
        lemma_join_balanced(items.drop_last(), sep);
    }
}

proof fn lemma_year_label_balanced(y: int)
    ensures
        balanced(year_label(y)),
{
    broadcast use lemma_balance_concat;

    lemma_literal_balances();
    let n: nat = if y >= 0 { y as nat } else { (-y) as nat };
    lemma_decimal_no_braces(n);
    let d = decimal(n);
    if d.len() < 4 {
        let z = Seq::new((4 - d.len()) as nat, |i: int| '0');
        lemma_plain(z);
        assert(padded4(n) == z + d);
    }
    assert(balanced(padded4(n)));
    reveal_strlit("+");
    reveal_strlit("-");
    assert(seq!['+'] =~= "+"@);
    assert(seq!['-'] =~= "-"@);
}

impl EntryDescription {
    /// The context and every skill name have balanced braces.
    pub open spec fn texts_balanced(self) -> bool {
        &&& balanced(self.context@)
        &&& forall|c: Category, j: int|
            0 <= j < self.spec_list(c).len() ==> balanced(#[trigger] self.spec_list(c)[j]@)
    }

    proof fn lemma_items_balanced(self, n: int)
        requires
            self.texts_balanced(),
        ensures
            balanced(self.items_upto(n)),
        decreases n,
    {
        broadcast use lemma_balance_concat;

        lemma_literal_balances();
        if n > 0 {
            self.lemma_items_balanced(n - 1);
            let c = category_order()[n - 1];
            let t = texts(self.spec_list(c));
            assert forall|j: int| 0 <= j < t.len() implies balanced(#[trigger] t[j]) by {
                assert(t[j] == self.spec_list(c)[j]@);
            }
            lemma_join_balanced(t, ", "@);
        }
    }

    /// Rendering a description with balanced texts gives balanced braces.
    pub proof fn lemma_latex_balanced(self)
        requires
            self.texts_balanced(),
        ensures
            balanced(self.spec_latex()),
    {
        broadcast use lemma_balance_concat;

        lemma_literal_balances();
        self.lemma_items_balanced(6);
    }
}

impl CVEntry {
    /// Every text of the entry and of its subentries has balanced braces.
    pub open spec fn texts_balanced(self) -> bool
        decreases self,
    {
        &&& balanced(self.degree@)
        &&& balanced(self.institution@)
        &&& balanced(text_or_empty(self.city))
        &&& balanced(text_or_empty(self.grade))
        &&& (self.description matches Some(d) ==> d.texts_balanced())
        &&& forall|i: int|
            0 <= i < self.subentries.len() ==> (#[trigger] self.subentries@[i]).texts_balanced()
    }

    proof fn lemma_upto_balanced(self, n: int)
        requires
            self.texts_balanced(),
        ensures
            balanced(self.latex_upto(n)),
        decreases self, n,
    {
        broadcast use lemma_balance_concat;

        lemma_literal_balances();
        if n <= 0 {
            if let Some(d) = self.description {
                d.lemma_latex_balanced();
            }
        } else if n <= self.subentries.len() {
            let child = self.subentries@[n - 1];
            self.lemma_upto_balanced(n - 1);
            assert(child.texts_balanced());
            child.lemma_upto_balanced(child.subentries.len() + 1);
            let m = self.max_dates();
            if m <= 21 {
                lemma_decimal_no_braces((21 - m) as nat);
            } else {
                lemma_decimal_no_braces((m - 22) as nat);
            }
        } else {
            self.lemma_upto_balanced(self.subentries.len() as int);
            lemma_trim_balance(self.latex_upto(self.subentries.len() as int));
            match (self.beginning, self.end) {
                (Some(b), Some(e)) => {
                    lemma_year_label_balanced(b.year as int);
                    lemma_year_label_balanced(e.year as int);
                },
                (Some(b), None) => lemma_year_label_balanced(b.year as int),
                (None, Some(e)) => lemma_year_label_balanced(e.year as int),
                (None, None) => {},
            }
        }
    }

    /// The rendering of an entry whose texts have balanced braces has as
    /// many opening braces as closing ones, at any depth of nesting.
    pub proof fn lemma_latex_balanced(self)
        requires
            self.texts_balanced(),
        ensures
            balanced(self.spec_latex()),
    {
        self.lemma_upto_balanced(self.subentries.len() + 1);
    }
}

impl CVEntry {
    /// The first `n` subentries, each after its margin directive, separated by newlines.
    pub open spec fn child_blocks(self, n: int) -> Seq<char>
        decreases n,
    {
        if n <= 0 || n > self.subentries.len() {
            seq![]
        } else {
            let child = self.subentries@[n - 1];
            let block = hspace(self.max_dates()) + child.spec_latex();
            if n == 1 {
                block
            } else {
                self.child_blocks(n - 1) + "\n"@ + block
            }
        }
    }

    /// A record opens with the marker and closes with a brace.
    proof fn lemma_record_shape(self, body: Seq<char>)
        ensures
            marker_count(self.record(body)) >= 1 + marker_count(body),
            self.record(body).len() > 0,
            self.record(body).last() == '}',
    {
        reveal_strlit("}");
        reveal_strlit("\\cventry");
        let r = self.record(body);
        let a = "{"@ + self.spec_dates() + "}"@ + "{"@ + self.degree@ + "}"@ + "{"@
            + self.institution@ + "}"@ + "{"@ + text_or_empty(self.city) + "}"@ + "{"@
            + text_or_empty(self.grade) + "}"@ + "{"@ + "%\n"@;
        let z = "%\n"@ + "}"@;
        assert(r =~= marker() + a + body + z);
        lemma_marker_concat(marker(), a);
        lemma_marker_concat(marker() + a, body);
        lemma_marker_concat(marker() + a + body, z);
        lemma_marker_count_marker();
    }

    proof fn lemma_child_blocks(self, n: int)
        requires
            1 <= n <= self.subentries.len(),
        ensures
            self.latex_upto(n) == self.desc_text() + "\n"@ + self.child_blocks(n),
            marker_count(self.child_blocks(n)) >= n,
            self.child_blocks(n).len() > 0,
            self.child_blocks(n)[0] == '\\',
            self.child_blocks(n).last() == '}',
        decreases n,
    {
        reveal_strlit("\\hspace*");
        let child = self.subentries@[n - 1];
        let h = hspace(self.max_dates());
        let cl = child.spec_latex();
        child.lemma_record_shape(trimmed(child.latex_upto(child.subentries.len() as int)));
        assert(cl == child.record(trimmed(child.latex_upto(child.subentries.len() as int))));
        lemma_marker_concat(h, cl);
        assert((h + cl).last() == '}');
        assert(h[0] == '\\');
        if n == 1 {
            assert(self.latex_upto(0) == self.desc_text());
            assert(self.latex_upto(1) =~= self.desc_text() + "\n"@ + (h + cl));
        } else {
            self.lemma_child_blocks(n - 1);
            let prev = self.child_blocks(n - 1);
            assert(self.latex_upto(n) =~= self.desc_text() + "\n"@ + (prev + "\n"@ + (h + cl)));
            assert(self.child_blocks(n) == prev + "\n"@ + (h + cl));
            lemma_marker_concat(prev, "\n"@);
            lemma_marker_concat(prev + "\n"@, h + cl);
            assert((prev + "\n"@ + (h + cl))[0] == prev[0]);
        }
    }

    /// An entry with `n` subentries renders at least `n + 1` records: its
    /// own and one for each subentry.
    pub proof fn lemma_latex_records(self)
        ensures
            marker_count(self.spec_latex()) >= 1 + self.subentries.len(),
    {
        let len = self.subentries.len() as int;
        let inner = self.latex_upto(len);
        self.lemma_record_shape(trimmed(inner));
        assert(self.spec_latex() == self.record(trimmed(inner)));
        if len > 0 {
            self.lemma_child_blocks(len);
            let q = self.child_blocks(len);
            assert(!is_space(q[0]));
            assert(!is_space(q.last()));
            lemma_trim_keeps_tail(self.desc_text() + "\n"@, q);
            assert(inner == self.desc_text() + "\n"@ + q);
        }
    }
}

} // verus!
