use vstd::prelude::*;
use crate::date::{today, CalendarDate};
use crate::entry::{capped, texts, CVEntry, MONTHS_CAP};
use crate::skills::{add_skillsets, lemma_merge_bound, merge_skills, months_at_most, SkillKey, SkillSet};
use crate::render::{join_texts, push_joined};

verus! {

/// An email address, optionally with a name shown before it.
#[derive(Debug)]
pub struct CVEmail {
    pub name: Option<String>,
    pub mail: String,
}

impl CVEmail {
    pub open spec fn spec_link(self) -> Seq<char> {
        "\\href{mailto:"@ + self.mail@ + "}{"@ + self.mail@ + "}"@
    }

    pub open spec fn spec_latex(self) -> Seq<char> {
        match self.name {
            Some(n) => n@ + ": "@ + self.spec_link(),
            None => self.spec_link(),
        }
    }

    /// A `mailto:` link to the address, after `name: ` when there is a name.
    pub fn to_latex(&self) -> (r: String)
        ensures
            r@ == self.spec_latex(),
    {
        let mut link = String::from_str("\\href{mailto:");
        link.append(self.mail.as_str());
        link.append("}{");
        link.append(self.mail.as_str());
        link.append("}");
        match &self.name {
            Some(n) => {
                let mut out = n.clone();
                out.append(": ");
                out.append(link.as_str());
                out
            },
            None => link,
        }
    }
}

/// A spoken language, its level and a comment.
#[derive(Debug, Default, PartialEq, Eq)]
pub struct CVLanguage {
    pub language: String,
    pub level: String,
    pub comment: String,
}

impl CVLanguage {
    pub open spec fn spec_latex(self) -> Seq<char> {
        "\\cvlanguage{"@ + self.language@ + "}{"@ + self.level@ + "}{"@ + self.comment@ + "}"@
    }

    /// The language as a `\cvlanguage` record.
    pub fn to_latex(&self) -> (r: String)
        ensures
            r@ == self.spec_latex(),
    {
        let mut out = String::from_str("\\cvlanguage{");
        out.append(self.language.as_str());
        out.append("}{");
        out.append(self.level.as_str());
        out.append("}{");
        out.append(self.comment.as_str());
        out.append("}");
        out
    }
}

/// A list of items, rendered as an itemize environment.
#[derive(Debug)]
pub struct List(pub Vec<String>);

/// Each string of `items` after `pre`, separated by newlines.
pub open spec fn prefixed(items: Seq<Seq<char>>, pre: Seq<char>) -> Seq<Seq<char>> {
    items.map_values(|t: Seq<char>| pre + t)
}

impl List {
    pub open spec fn spec_latex(self) -> Seq<char> {
        "\\begin{itemize}\n                "@ + join_texts(prefixed(texts(self.0@), "\\item "@), "\n"@)
            + "\n            \\end{itemize}"@
    }

    /// The items as an itemize environment, one `\item` per line.
    pub fn to_latex(&self) -> (r: String)
        ensures
            r@ == self.spec_latex(),
    {
        let mut lines: Vec<String> = Vec::new();
        let mut i: usize = 0;
        while i < self.0.len()
            invariant
                i <= self.0@.len(),
                texts(lines@) == prefixed(texts(self.0@.take(i as int)), "\\item "@),
            decreases self.0@.len() - i,
        {
            let mut line = String::from_str("\\item ");
            line.append(self.0[i].as_str());
            let ghost before = lines@;
            lines.push(line);
            proof {
                let want = prefixed(texts(self.0@.take(i + 1)), "\\item "@);
                assert(before.len() == i) by {
                    assert(texts(before).len() == before.len());
                }
                assert(lines@ == before.push(line));
                assert(texts(lines@).len() == i + 1);
                assert(self.0@.take(i + 1) =~= self.0@.take(i as int).push(self.0@[i as int]));
                assert forall|j: int| 0 <= j < i implies #[trigger] texts(lines@)[j] == want[j] by {
                    assert(texts(lines@)[j] == texts(before)[j]);
                }
                assert(texts(lines@)[i as int] == want[i as int]);
                assert(texts(lines@) =~= prefixed(texts(self.0@.take(i + 1)), "\\item "@));
            }
            i = i + 1;
        }
        proof {
            assert(self.0@.take(self.0@.len() as int) =~= self.0@);
        }
        let mut out = String::from_str("\\begin{itemize}\n                ");
        push_joined(&mut out, &lines, "\n");
        out.append("\n            \\end{itemize}");
        out
    }
}

/// Index of the first space at or after `i`, or the length of `s`.
pub open spec fn word_end(s: Seq<char>, i: int) -> int
    decreases s.len() - i,
{
    if 0 <= i < s.len() && s[i] != ' ' {
        word_end(s, i + 1)
    } else {
        i
    }
}

fn find_space(s: &str, from: usize) -> (r: usize)
    requires
        from <= s@.len(),
    ensures
        r == word_end(s@, from as int),
        r <= s@.len(),
        from <= r,
{
    let n = s.unicode_len();
    let mut i = from;
    while i < n && s.get_char(i) != ' '
        invariant
            n == s@.len(),
            from <= i <= n,
            word_end(s@, i as int) == word_end(s@, from as int),
        decreases n - i,
    {
        i = i + 1;
    }
    i
}

/// `pre + t + post` for each `t` of `items`.
pub open spec fn wrapped(items: Seq<Seq<char>>, pre: Seq<char>, post: Seq<char>) -> Seq<Seq<char>> {
    items.map_values(|t: Seq<char>| pre + t + post)
}

/// One line `pre + t + post` when the text `t` is present.
pub open spec fn optional_line(t: Option<String>, pre: Seq<char>, post: Seq<char>) -> Seq<Seq<char>> {
    match t {
        Some(x) => seq![pre + x@ + post],
        None => seq![],
    }
}

fn push_wrapped(lines: &mut Vec<String>, items: &Vec<String>, pre: &str, post: &str)
    ensures
        texts(final(lines)@) == texts(old(lines)@) + wrapped(texts(items@), pre@, post@),
{
    let ghost start = texts(lines@);
    let mut i: usize = 0;
    while i < items.len()
        invariant
            i <= items@.len(),
            texts(lines@) == start + wrapped(texts(items@.take(i as int)), pre@, post@),
        decreases items@.len() - i,
    {
        let mut line = String::from_str(pre);
        line.append(items[i].as_str());
        line.append(post);
        let ghost before = lines@;
        lines.push(line);
        proof {
            assert(items@.take(i + 1) =~= items@.take(i as int).push(items@[i as int]));
            assert(texts(lines@) =~= texts(before).push(line@));
            assert(texts(lines@) =~= start + wrapped(texts(items@.take(i + 1)), pre@, post@));
        }
        i = i + 1;
    }
    proof {
        assert(items@.take(items@.len() as int) =~= items@);
    }
}

fn push_optional_line(lines: &mut Vec<String>, t: &Option<String>, pre: &str, post: &str)
    ensures
        texts(final(lines)@) == texts(old(lines)@) + optional_line(*t, pre@, post@),
{
    match t {
        Some(x) => {
            let mut line = String::from_str(pre);
            line.append(x.as_str());
            line.append(post);
            let ghost before = lines@;
            lines.push(line);
            assert(texts(lines@) =~= texts(before) + optional_line(*t, pre@, post@));
        },
        None => {
            assert(texts(lines@) =~= texts(lines@) + optional_line(*t, pre@, post@));
        },
    }
}

/// Name, contact data and web presence of the person.
#[derive(Debug, Default)]
pub struct PersonalData {
    pub name: String,
    pub title: Option<String>,
    pub mobile: Vec<String>,
    pub email: Vec<CVEmail>,
    pub github: Option<String>,
    pub gitlab: Option<String>,
    pub twitter: Option<String>,
    pub linkedin: Option<String>,
    /// pairs of a name and a url
    pub webpage: Vec<(String, String)>,
}

impl PersonalData {
    /// The first word of the name.
    pub open spec fn first_name(self) -> Seq<char> {
        self.name@.subrange(0, word_end(self.name@, 0))
    }

    /// The line naming the family: the second word of the name, if any.
    pub open spec fn family_line(self) -> Seq<char> {
        let e = word_end(self.name@, 0);
        if e < self.name@.len() {
            "\\familyname{\\LARGE "@ + self.name@.subrange(e + 1, word_end(self.name@, e + 1))
                + "}"@
        } else {
            "\\familyname{{}}"@
        }
    }

    /// Lines of the personal data block, in order.
    pub open spec fn spec_lines(self) -> Seq<Seq<char>> {
        seq![
            "% personal data"@,
            "\\firstname{\\LARGE "@ + self.first_name() + "}"@,
            self.family_line(),
        ] + optional_line(self.title, "\\title{"@, "}"@) + wrapped(
            texts(self.mobile@),
            "\\mobile{"@,
            "}"@,
        ) + wrapped(self.email@.map_values(|e: CVEmail| e.mail@), "\\email{"@, "}"@)
            + optional_line(self.github, "\\social[github]{"@, "}"@) + optional_line(
            self.gitlab,
            "\\social[gitlab]{"@,
            "}"@,
        ) + optional_line(self.linkedin, "\\social[linkedin]{"@, "}"@) + optional_line(
            self.twitter,
            "\\social[twitter]{"@,
            "}"@,
        ) + self.webpage@.map_values(
            |p: (String, String)| "\\extrainfo{\\homepagesymbol "@ + p.0@ + " \\url{"@ + p.1@ + "}}"@,
        )
    }

    /// LaTeX declaring the name, title, phone numbers, emails, social
    /// accounts and web pages, one per line.
    pub fn to_latex(&self) -> (r: String)
        ensures
            r@ == join_texts(self.spec_lines(), "\n"@),
    {
        let mut lines: Vec<String> = Vec::new();
        lines.push(String::from_str("% personal data"));
        let name = self.name.as_str();
        let e = find_space(name, 0);
        let mut first = String::from_str("\\firstname{\\LARGE ");
        first.append(name.substring_char(0, e));
        first.append("}");
        lines.push(first);
        if e < name.unicode_len() {
            let e2 = find_space(name, e + 1);
            let mut family = String::from_str("\\familyname{\\LARGE ");
            family.append(name.substring_char(e + 1, e2));
            family.append("}");
            lines.push(family);
        } else {
            lines.push(String::from_str("\\familyname{{}}"));
        }
        assert(texts(lines@) =~= seq![
            "% personal data"@,
            "\\firstname{\\LARGE "@ + self.first_name() + "}"@,
            self.family_line(),
        ]);
        push_optional_line(&mut lines, &self.title, "\\title{", "}");
        push_wrapped(&mut lines, &self.mobile, "\\mobile{", "}");
        let ghost before_mail = texts(lines@);
        let mut i: usize = 0;
        while i < self.email.len()
            invariant
                i <= self.email@.len(),
                texts(lines@) == before_mail + wrapped(
                    self.email@.take(i as int).map_values(|e: CVEmail| e.mail@),
                    "\\email{"@,
                    "}"@,
                ),
            decreases self.email@.len() - i,
        {
            let mut line = String::from_str("\\email{");
            line.append(self.email[i].mail.as_str());
            line.append("}");
            let ghost before = lines@;
            lines.push(line);
            proof {
                assert(self.email@.take(i + 1) =~= self.email@.take(i as int).push(self.email@[i as int]));
                assert(texts(lines@) =~= texts(before).push(line@));
                assert(texts(lines@) =~= before_mail + wrapped(
                    self.email@.take(i + 1).map_values(|e: CVEmail| e.mail@),
                    "\\email{"@,
                    "}"@,
                ));
            }
            i = i + 1;
        }
        proof {
            assert(self.email@.take(self.email@.len() as int) =~= self.email@);
        }
        push_optional_line(&mut lines, &self.github, "\\social[github]{", "}");
        push_optional_line(&mut lines, &self.gitlab, "\\social[gitlab]{", "}");
        push_optional_line(&mut lines, &self.linkedin, "\\social[linkedin]{", "}");
        push_optional_line(&mut lines, &self.twitter, "\\social[twitter]{", "}");
        let ghost before_web = texts(lines@);
        let mut j: usize = 0;
        while j < self.webpage.len()
            invariant
                j <= self.webpage@.len(),
                texts(lines@) == before_web + self.webpage@.take(j as int).map_values(
                    |p: (String, String)| "\\extrainfo{\\homepagesymbol "@ + p.0@ + " \\url{"@ + p.1@ + "}}"@,
                ),
            decreases self.webpage@.len() - j,
        {
            let mut line = String::from_str("\\extrainfo{\\homepagesymbol ");
            line.append(self.webpage[j].0.as_str());
            line.append(" \\url{");
            line.append(self.webpage[j].1.as_str());
            line.append("}}");
            let ghost before = lines@;
            lines.push(line);
            proof {
                assert(self.webpage@.take(j + 1) =~= self.webpage@.take(j as int).push(self.webpage@[j as int]));
                assert(texts(lines@) =~= texts(before).push(line@));
                assert(texts(lines@) =~= before_web + self.webpage@.take(j + 1).map_values(
                    |p: (String, String)| "\\extrainfo{\\homepagesymbol "@ + p.0@ + " \\url{"@ + p.1@ + "}}"@,
                ));
            }
            j = j + 1;
        }
        proof {
            assert(self.webpage@.take(self.webpage@.len() as int) =~= self.webpage@);
            assert(texts(lines@) =~= self.spec_lines());
        }
        let mut out = String::new();
        push_joined(&mut out, &lines, "\n");
        assert(out@ =~= join_texts(self.spec_lines(), "\n"@));
        out
    }
}

/// Each entry's LaTeX followed by an empty part.
pub open spec fn entry_parts(es: Seq<CVEntry>) -> Seq<Seq<char>>
    decreases es.len(),
{
    if es.len() == 0 {
        seq![]
    } else {
        entry_parts(es.drop_last()) + seq![es.last().spec_latex(), "\n"@]
    }
}

/// Each language's LaTeX followed by an empty part.
pub open spec fn language_parts(ls: Seq<CVLanguage>) -> Seq<Seq<char>>
    decreases ls.len(),
{
    if ls.len() == 0 {
        seq![]
    } else {
        language_parts(ls.drop_last()) + seq![ls.last().spec_latex(), "\n"@]
    }
}

/// Skills of the subtrees of the first `n` entries, merged in order.
pub open spec fn entries_skills(es: Seq<CVEntry>, n: int, today: CalendarDate) -> Map<SkillKey, (nat, nat)>
    decreases n,
{
    if n <= 0 || n > es.len() {
        Map::empty()
    } else {
        merge_skills(entries_skills(es, n - 1, today), es[n - 1].subtree_skills(today))
    }
}

/// Months of the subtrees of the first `n` entries, added up.
pub open spec fn entries_months(es: Seq<CVEntry>, n: int, today: CalendarDate) -> nat
    decreases n,
{
    if n <= 0 || n > es.len() {
        0
    } else {
        entries_months(es, n - 1, today) + es[n - 1].tree_months(today)
    }
}

proof fn lemma_entries_months_monotone(es: Seq<CVEntry>, n: int, m: int, today: CalendarDate)
    requires
        0 <= n <= m <= es.len(),
    ensures
        entries_months(es, n, today) <= entries_months(es, m, today),
    decreases m,
{
    if n < m {
        lemma_entries_months_monotone(es, n, m - 1, today);
    }
}

/// The text that `bytes` hold as UTF-8, none when they are not valid UTF-8.
pub uninterp spec fn utf8_text(bytes: Seq<u8>) -> Option<Seq<char>>;

/// Relies on std's `String::from_utf8`: the bytes decoded as UTF-8, or an
/// error when they are not valid UTF-8.
#[verifier::external_body]
fn decode_utf8(bytes: &[u8]) -> (r: Option<String>)
    ensures
        r matches Some(s) ==> utf8_text(bytes@) == Some(s@),
        r is None ==> utf8_text(bytes@) is None,
{
    match String::from_utf8(bytes.to_vec()) {
        Ok(s) => Some(s),
        Err(_) => None,
    }
}

/// Why a document could not be produced.
#[derive(Debug, PartialEq, Eq)]
pub enum DocumentError {
    /// The preamble is not valid UTF-8.
    InvalidPreamble,
}

/// A whole résumé.
#[derive(Debug, Default)]
pub struct Curriculum {
    pub personal_data: PersonalData,
    pub education: Vec<CVEntry>,
    pub experiences: Vec<CVEntry>,
    pub languages: Vec<CVLanguage>,
}

impl Curriculum {
    /// Every date of every entry is a valid calendar date.
    pub open spec fn wf(self) -> bool {
        &&& forall|i: int| 0 <= i < self.education.len() ==> (#[trigger] self.education@[i]).wf()
        &&& forall|i: int| 0 <= i < self.experiences.len() ==> (#[trigger] self.experiences@[i]).wf()
    }

    /// Parts of the document, joined by newlines in the document.
    pub open spec fn spec_parts(self, preamble: Seq<char>) -> Seq<Seq<char>> {
        seq![
            preamble,
            join_texts(self.personal_data.spec_lines(), "\n"@),
            "\n\\begin{document}\n"@,
            "\\maketitle"@,
            "\\section{Education}"@,
        ] + entry_parts(self.education@) + seq!["\\section{Proffesional experience}"@]
            + entry_parts(self.experiences@) + seq!["\\section{Languages}"@] + language_parts(
            self.languages@,
        ) + seq!["\\end{document}"@]
    }

    /// The document: preamble, personal data, then education, experience
    /// and languages sections.
    pub open spec fn spec_document(self, preamble: Seq<char>) -> Seq<char> {
        join_texts(self.spec_parts(preamble), "\n"@)
    }

    /// Skills of every experience and of its subentries, merged.
    pub open spec fn spec_skills(self, today: CalendarDate) -> Map<SkillKey, (nat, nat)> {
        entries_skills(self.experiences@, self.experiences@.len() as int, today)
    }

    /// Months of every experience and of its subentries, added up.
    pub open spec fn skill_months(self, today: CalendarDate) -> nat {
        entries_months(self.experiences@, self.experiences@.len() as int, today)
    }

    /// The LaTeX document with the given preamble.
    pub fn render(&self, preamble: &str) -> (r: String)
        requires
            self.wf(),
        ensures
            r@ == self.spec_document(preamble@),
    {
        let mut parts: Vec<String> = Vec::new();
        parts.push(String::from_str(preamble));
        parts.push(self.personal_data.to_latex());
        parts.push(String::from_str("\n\\begin{document}\n"));
        parts.push(String::from_str("\\maketitle"));
        parts.push(String::from_str("\\section{Education}"));
        let ghost head = seq![
            preamble@,
            join_texts(self.personal_data.spec_lines(), "\n"@),
            "\n\\begin{document}\n"@,
            "\\maketitle"@,
            "\\section{Education}"@,
        ];
        assert(texts(parts@) =~= head);
        push_entries(&mut parts, &self.education);
        let ghost b1 = texts(parts@);
        parts.push(String::from_str("\\section{Proffesional experience}"));
        assert(texts(parts@) =~= b1 + seq!["\\section{Proffesional experience}"@]);
        push_entries(&mut parts, &self.experiences);
        let ghost b2 = texts(parts@);
        parts.push(String::from_str("\\section{Languages}"));
        assert(texts(parts@) =~= b2 + seq!["\\section{Languages}"@]);
        let ghost before = texts(parts@);
        let mut i: usize = 0;
        while i < self.languages.len()
            invariant
                i <= self.languages@.len(),
                texts(parts@) == before + language_parts(self.languages@.take(i as int)),
            decreases self.languages@.len() - i,
        {
            let ghost b = parts@;
            let l = self.languages[i].to_latex();
            parts.push(l);
            parts.push(String::from_str("\n"));
            proof {
                let t = self.languages@.take(i + 1);
                assert(t.drop_last() =~= self.languages@.take(i as int));
                assert(texts(parts@) =~= texts(b) + seq![l@, "\n"@]);
                assert(texts(parts@) =~= before + language_parts(t));
            }
            i = i + 1;
        }
        proof {
            assert(self.languages@.take(self.languages@.len() as int) =~= self.languages@);
        }
        let ghost b3 = texts(parts@);
        parts.push(String::from_str("\\end{document}"));
        assert(texts(parts@) =~= b3 + seq!["\\end{document}"@]);
        assert(texts(parts@) =~= self.spec_parts(preamble@));
        let mut out = String::new();
        push_joined(&mut out, &parts, "\n");
        assert(out@ =~= self.spec_document(preamble@));
        out
    }

    /// The LaTeX document, with a preamble given as UTF-8 bytes; an error
    /// when the preamble is not valid UTF-8.
    pub fn to_latex(&self, preamble: &[u8]) -> (r: Result<String, DocumentError>)
        requires
            self.wf(),
        ensures
            utf8_text(preamble@) is None ==> r == Err::<String, DocumentError>(
                DocumentError::InvalidPreamble,
            ),
            utf8_text(preamble@) matches Some(p) ==> r matches Ok(s) && s@ == self.spec_document(p),
    {
        match decode_utf8(preamble) {
            Some(p) => Ok(self.render(p.as_str())),
            None => Err(DocumentError::InvalidPreamble),
        }
    }

    /// Skills of every experience and of its subentries, with durations up
    /// to `today` added up per skill.
    pub fn get_skills_at(&self, today: &CalendarDate) -> (r: SkillSet)
        requires
            self.wf(),
            today.wf(),
            self.skill_months(*today) <= u32::MAX,
        ensures
            r.wf(),
            r@ == self.spec_skills(*today),
    {
        let es = &self.experiences;
        let ghost len = es@.len() as int;
        let mut acc = SkillSet::new();
        let mut i: usize = 0;
        assert(acc@ =~= entries_skills(es@, 0, *today));
        while i < es.len()
            invariant
                self.wf(),
                today.wf(),
                es == &self.experiences,
                len == es@.len(),
                i <= len,
                entries_months(es@, len, *today) <= u32::MAX,
                acc.wf(),
                acc@ == entries_skills(es@, i as int, *today),
                months_at_most(acc@, entries_months(es@, i as int, *today)),
            decreases len - i,
        {
            let e = &es[i];
            proof {
                lemma_entries_months_monotone(es@, i + 1, len, *today);
                assert(e.wf());
            }
            let s = e.extract_subentries_skills_at(today);
            proof {
                lemma_merge_bound(acc@, s@, entries_months(es@, i as int, *today), e.tree_months(*today));
            }
            add_skillsets(&mut acc, &s);
            i = i + 1;
        }
        acc
    }

    /// Months of every experience and of its subentries up to `today`,
    /// added up and capped at `MONTHS_CAP`.
    pub fn capped_skill_months_at(&self, today: &CalendarDate) -> (r: u64)
        requires
            self.wf(),
            today.wf(),
        ensures
            r == capped(self.skill_months(*today)),
    {
        let es = &self.experiences;
        let mut acc: u64 = 0;
        let mut i: usize = 0;
        while i < es.len()
            invariant
                self.wf(),
                today.wf(),
                es == &self.experiences,
                i <= es@.len(),
                acc == capped(entries_months(es@, i as int, *today)),
            decreases es@.len() - i,
        {
            assert(es@[i as int].wf());
            let c = es[i].capped_months_at(today);
            acc = acc + c;
            if acc > MONTHS_CAP {
                acc = MONTHS_CAP;
            }
            i = i + 1;
        }
        acc
    }

    /// Skills of every experience and of its subentries, with durations up
    /// to the current date added up per skill; none when a duration would
    /// not fit.
    pub fn get_skills(&self) -> (r: Option<SkillSet>)
        requires
            self.wf(),
        ensures
            r matches Some(s) ==> s.wf() && exists|t: CalendarDate| t.wf() && s@ == self.spec_skills(t),
            r is None ==> exists|t: CalendarDate| t.wf() && self.skill_months(t) > u32::MAX,
    {
        let t = today();
        if self.capped_skill_months_at(&t) <= 4294967295 {
            Some(self.get_skills_at(&t))
        } else {
            None
        }
    }
}

fn push_entries(parts: &mut Vec<String>, es: &Vec<CVEntry>)
    requires
        forall|i: int| 0 <= i < es.len() ==> (#[trigger] es@[i]).wf(),
    ensures
        texts(final(parts)@) == texts(old(parts)@) + entry_parts(es@),
{
    let ghost before = texts(parts@);
    let mut i: usize = 0;
    while i < es.len()
        invariant
            forall|i: int| 0 <= i < es.len() ==> (#[trigger] es@[i]).wf(),
            i <= es@.len(),
            texts(parts@) == before + entry_parts(es@.take(i as int)),
        decreases es@.len() - i,
    {
        let ghost b = parts@;
        assert(es@[i as int].wf());
        let l = es[i].to_latex();
        parts.push(l);
        parts.push(String::from_str("\n"));
        proof {
            let t = es@.take(i + 1);
            assert(t.drop_last() =~= es@.take(i as int));
            assert(texts(parts@) =~= texts(b) + seq![l@, "\n"@]);
            assert(texts(parts@) =~= before + entry_parts(t));
        }
        i = i + 1;
    }
    proof {
        assert(es@.take(es@.len() as int) =~= es@);
    }
}

} // verus!
