use vstd::prelude::*;
use crate::date::{today, CalendarDate};
use crate::duration::{span_months, span_of_days, CVDuration};
use crate::skills::{
    add_skillsets, category_order, lemma_merge_associative, lemma_merge_bound,
    lemma_merge_commutative, merge_skills, months_at_most, Category, SkillKey, SkillSet,
};

verus! {

/// Free-text context of an entry and the skills it involved, by category.
#[derive(Debug, Default)]
pub struct EntryDescription {
    pub context: String,
    pub programming: Vec<String>,
    pub version: Vec<String>,
    pub database: Vec<String>,
    pub cloud: Vec<String>,
    pub ci: Vec<String>,
    pub other: Vec<String>,
}

/// The characters of each string of `v`.
pub open spec fn texts(v: Seq<String>) -> Seq<Seq<char>> {
    v.map_values(|s: String| s@)
}

impl EntryDescription {
    /// Skills listed under category `c`.
    pub open spec fn spec_list(self, c: Category) -> Seq<String> {
        match c {
            Category::ProgrammingLanguages => self.programming@,
            Category::VersionControl => self.version@,
            Category::Database => self.database@,
            Category::CloudComputing => self.cloud@,
            Category::CiCd => self.ci@,
            Category::Other => self.other@,
        }
    }

    /// Whether `skill` is listed under category `c`.
    pub open spec fn lists(self, c: Category, skill: Seq<char>) -> bool {
        texts(self.spec_list(c)).contains(skill)
    }

    /// The non-empty skill lists among the first `n` categories, in display order.
    pub open spec fn extracted_upto(self, n: int) -> Seq<(Category, Seq<Seq<char>>)>
        decreases n,
    {
        if n <= 0 {
            seq![]
        } else {
            let c = category_order()[n - 1];
            let rest = self.extracted_upto(n - 1);
            if self.spec_list(c).len() > 0 {
                rest.push((c, texts(self.spec_list(c))))
            } else {
                rest
            }
        }
    }

    /// The non-empty skill lists, in display order.
    pub open spec fn extracted(self) -> Seq<(Category, Seq<Seq<char>>)> {
        self.extracted_upto(6)
    }

    /// Skills listed under category `c`.
    pub fn list(&self, c: Category) -> (r: &Vec<String>)
        ensures
            r@ == self.spec_list(c),
    {
        match c {
            Category::ProgrammingLanguages => &self.programming,
            Category::VersionControl => &self.version,
            Category::Database => &self.database,
            Category::CloudComputing => &self.cloud,
            Category::CiCd => &self.ci,
            Category::Other => &self.other,
        }
    }

    /// Each category that lists at least one skill, with its skills, in display order.
    pub fn extract_skills(&self) -> (r: Vec<(Category, Vec<String>)>)
        ensures
            r@.len() == self.extracted().len(),
            forall|i: int|
                0 <= i < r@.len() ==> (#[trigger] r@[i]).0 == self.extracted()[i].0 && texts(
                    r@[i].1@,
                ) == self.extracted()[i].1,
    {
        let mut r: Vec<(Category, Vec<String>)> = Vec::new();
        let mut n: usize = 0;
        while n < 6
            invariant
                n <= 6,
                r@.len() == self.extracted_upto(n as int).len(),
                forall|i: int|
                    0 <= i < r@.len() ==> (#[trigger] r@[i]).0 == self.extracted_upto(
                        n as int,
                    )[i].0 && texts(r@[i].1@) == self.extracted_upto(n as int)[i].1,
            decreases 6 - n,
        {
            let c = Category::at(n);
            let list = self.list(c);
            if list.len() > 0 {
                let copy = copy_strings(list);
                r.push((c, copy));
            }
            n = n + 1;
        }
        r
    }
}

/// A copy of every string of `v`.
pub fn copy_strings(v: &Vec<String>) -> (r: Vec<String>)
    ensures
        r@ == v@,
        texts(r@) == texts(v@),
{
    let mut r: Vec<String> = Vec::new();
    let mut i: usize = 0;
    while i < v.len()
        invariant
            i <= v@.len(),
            r@ == v@.take(i as int),
        decreases v@.len() - i,
    {
        r.push(v[i].clone());
        proof {
            assert(v@.take(i + 1) =~= v@.take(i as int).push(v@[i as int]));
        }
        i = i + 1;
    }
    proof {
        assert(v@.take(v@.len() as int) =~= v@);
    }
    r
}

/// One timeline entry (a degree, a position), possibly holding nested entries.
#[derive(Debug, Default)]
pub struct CVEntry {
    pub beginning: Option<CalendarDate>,
    pub end: Option<CalendarDate>,
    /// degree, title or name
    pub degree: String,
    /// institution or company
    pub institution: String,
    pub city: Option<String>,
    pub grade: Option<String>,
    pub description: Option<EntryDescription>,
    pub subentries: Vec<CVEntry>,
}

pub open spec fn date_ok(d: Option<CalendarDate>) -> bool {
    d matches Some(x) ==> x.wf()
}

impl CVEntry {
    /// Every date in the tree is a valid calendar date.
    pub open spec fn wf(self) -> bool
        decreases self,
    {
        &&& date_ok(self.beginning)
        &&& date_ok(self.end)
        &&& forall|i: int|
            0 <= i < self.subentries.len() ==> (#[trigger] self.subentries@[i]).wf()
    }

    /// Days from the beginning to the end, or to `today` for an ongoing entry;
    /// none without a beginning.
    pub open spec fn elapsed_days(self, today: CalendarDate) -> Option<int> {
        match self.beginning {
            None => None,
            Some(b) => Some(
                match self.end {
                    Some(e) => e.spec_day_number(),
                    None => today.spec_day_number(),
                } - b.spec_day_number(),
            ),
        }
    }

    /// Duration of the entry; an end before the beginning counts as no time.
    pub open spec fn spec_cv_duration(self, today: CalendarDate) -> Option<(nat, nat)> {
        match self.elapsed_days(today) {
            None => None,
            Some(d) => Some(span_of_days(if d < 0 { 0 } else { d as nat })),
        }
    }

    /// Duration credited to each skill of the entry: zero without a beginning.
    pub open spec fn skill_span(self, today: CalendarDate) -> (nat, nat) {
        match self.spec_cv_duration(today) {
            None => (0, 0),
            Some(s) => s,
        }
    }

    /// Whether the entry's own description lists `k`.
    pub open spec fn has_skill(self, k: SkillKey) -> bool {
        self.description matches Some(d) && d.lists(k.0, k.1)
    }

    /// The entry's own skills, each with the entry's duration.
    pub open spec fn own_skills(self, today: CalendarDate) -> Map<SkillKey, (nat, nat)> {
        Map::new(|k: SkillKey| self.has_skill(k), |k: SkillKey| self.skill_span(today))
    }

    /// Own skills merged with those of the first `n` subentries' subtrees, in order.
    pub open spec fn skills_upto(self, n: int, today: CalendarDate) -> Map<SkillKey, (nat, nat)>
        decreases self, n,
    {
        if n <= 0 || n > self.subentries.len() {
            self.own_skills(today)
        } else {
            let child = self.subentries@[n - 1];
            merge_skills(
                self.skills_upto(n - 1, today),
                child.skills_upto(child.subentries.len() as int, today),
            )
        }
    }

    /// Skills of the whole subtree rooted at this entry.
    pub open spec fn subtree_skills(self, today: CalendarDate) -> Map<SkillKey, (nat, nat)> {
        self.skills_upto(self.subentries.len() as int, today)
    }

    /// Months of the entry plus those of the first `n` subentries' subtrees.
    pub open spec fn months_upto(self, n: int, today: CalendarDate) -> nat
        decreases self, n,
    {
        if n <= 0 || n > self.subentries.len() {
            span_months(self.skill_span(today))
        } else {
            let child = self.subentries@[n - 1];
            self.months_upto(n - 1, today) + child.months_upto(child.subentries.len() as int, today)
        }
    }

    /// Months of all entries of the subtree, added up.
    pub open spec fn tree_months(self, today: CalendarDate) -> nat {
        self.months_upto(self.subentries.len() as int, today)
    }

    /// Days elapsed from the beginning to the end, or to `today` when the
    /// entry has no end; none without a beginning.
    pub fn duration_at(&self, today: &CalendarDate) -> (r: Option<i64>)
        requires
            self.wf(),
            today.wf(),
        ensures
            r matches Some(d) ==> self.elapsed_days(*today) == Some(d as int) && d <= u32::MAX,
            r is None ==> self.elapsed_days(*today) is None,
    {
        match &self.beginning {
            None => None,
            Some(b) => {
                let e: i64 = match &self.end {
                    Some(e) => e.day_number() as i64,
                    None => today.day_number() as i64,
                };
                Some(e - b.day_number() as i64)
            },
        }
    }

    /// Days elapsed from the beginning to the end, or to the current date when
    /// the entry has no end; none without a beginning.
    pub fn duration(&self) -> (r: Option<i64>)
        requires
            self.wf(),
        ensures
            r is Some <==> self.beginning is Some,
            self.end is Some && r is Some ==> self.elapsed_days(self.end.unwrap()) == Some(
                r.unwrap() as int,
            ),
            r matches Some(d) ==> exists|t: CalendarDate| t.wf() && self.elapsed_days(t) == Some(d as int),
    {
        let t = today();
        self.duration_at(&t)
    }

    /// Duration of the entry as years and months, measured up to `today` when
    /// the entry has no end. An end before the beginning gives zero.
    pub fn cv_duration_at(&self, today: &CalendarDate) -> (r: Option<CVDuration>)
        requires
            self.wf(),
            today.wf(),
        ensures
            r matches Some(d) ==> self.spec_cv_duration(*today) == Some(d@),
            r is None ==> self.spec_cv_duration(*today) is None,
    {
        match self.duration_at(today) {
            None => None,
            Some(days) => {
                let clamped: u32 = if days < 0 { 0 } else { days as u32 };
                Some(CVDuration::from_days(clamped))
            },
        }
    }

    /// Duration of the entry as years and months, measured up to the current
    /// date when the entry has no end.
    pub fn cv_duration(&self) -> (r: Option<CVDuration>)
        requires
            self.wf(),
        ensures
            r is Some <==> self.beginning is Some,
            self.end is Some && r is Some ==> self.spec_cv_duration(self.end.unwrap()) == Some(
                r.unwrap()@,
            ),
            r matches Some(d) ==> exists|t: CalendarDate| t.wf() && self.spec_cv_duration(t) == Some(d@),
    {
        let t = today();
        self.cv_duration_at(&t)
    }

    /// Each category that the description lists skills under, with its
    /// skills, in display order; empty without a description.
    pub fn extract_skills(&self) -> (r: Vec<(Category, Vec<String>)>)
        ensures
            self.description is None ==> r@.len() == 0,
            self.description matches Some(d) ==> {
                &&& r@.len() == d.extracted().len()
                &&& forall|i: int|
                    0 <= i < r@.len() ==> (#[trigger] r@[i]).0 == d.extracted()[i].0 && texts(
                        r@[i].1@,
                    ) == d.extracted()[i].1
            },
    {
        match &self.description {
            Some(d) => d.extract_skills(),
            None => Vec::new(),
        }
    }
}


proof fn lemma_push_contains(s: Seq<Seq<char>>, x: Seq<char>, y: Seq<char>)
    ensures
        s.push(x).contains(y) == (s.contains(y) || x == y),
{
    if s.contains(y) {
        let i = choose|i: int| 0 <= i < s.len() && s[i] == y;
        assert(s.push(x)[i] == y);
    }
    if x == y {
        assert(s.push(x)[s.len() as int] == y);
    }
    if s.push(x).contains(y) && x != y {
        let i = choose|i: int| 0 <= i < s.len() + 1 && s.push(x)[i] == y;
        assert(s[i] == y);
    }
}

/// Position of `c` in the display order.
pub open spec fn category_index(c: Category) -> int {
    match c {
        Category::ProgrammingLanguages => 0,
        Category::VersionControl => 1,
        Category::Database => 2,
        Category::CloudComputing => 3,
        Category::CiCd => 4,
        Category::Other => 5,
    }
}

/// Whether `k` is among the skills of `d` visited before skill `j` of category `n`.
pub open spec fn visited(d: EntryDescription, n: int, j: int, k: SkillKey) -> bool {
    ||| category_index(k.0) < n && d.lists(k.0, k.1)
    ||| category_index(k.0) == n && texts(d.spec_list(k.0)).take(j).contains(k.1)
}

impl CVEntry {
    /// The entry's own skills, each credited with the entry's duration up to
    /// `today` (zero when the entry has no beginning).
    pub fn extract_skills_duration_at(&self, today: &CalendarDate) -> (r: SkillSet)
        requires
            self.wf(),
            today.wf(),
        ensures
            r.wf(),
            r@ == self.own_skills(*today),
            self.description is None ==> r@ == Map::<SkillKey, (nat, nat)>::empty(),
            self.beginning is None ==> forall|k: SkillKey| #[trigger] r@.contains_key(k) ==> r@[k] == (0nat, 0nat),
    {
        let span = match self.cv_duration_at(today) {
            Some(d) => d,
            None => CVDuration { year: 0, month: 0 },
        };
        assert(span@ == self.skill_span(*today));
        let mut r = SkillSet::new();
        match &self.description {
            None => {
                assert(r@ =~= self.own_skills(*today));
                r
            },
            Some(d) => {
                let ghost own = self.own_skills(*today);
                assert(Map::new(|k: SkillKey| visited(*d, 0, 0, k), |k: SkillKey| span@) =~= r@);
                let mut n: usize = 0;
                while n < 6
                    invariant
                        n <= 6,
                        r.wf(),
                        r@ == Map::new(|k: SkillKey| visited(*d, n as int, 0, k), |k: SkillKey| span@),
                    decreases 6 - n,
                {
                    let c = Category::at(n);
                    assert(category_index(c) == n);
                    let list = d.list(c);
                    let mut j: usize = 0;
                    while j < list.len()
                        invariant
                            n < 6,
                            category_index(c) == n,
                            list@ == d.spec_list(c),
                            j <= list@.len(),
                            r.wf(),
                            r@ == Map::new(|k: SkillKey| visited(*d, n as int, j as int, k), |k: SkillKey| span@),
                        decreases list@.len() - j,
                    {
                        let ghost before = r@;
                        let name = list[j].clone();
                        r.set(c, name, span);
                        proof {
                            let t = texts(d.spec_list(c));
                            assert(r@ == before.insert((c, list@[j as int]@), span@));
                            assert(t.take(j + 1) =~= t.take(j as int).push(t[j as int]));
                            assert forall|k: SkillKey| visited(*d, n as int, j + 1, k) == (visited(*d, n as int, j as int, k) || k == (c, list@[j as int]@)) by {
                                if category_index(k.0) == n {
                                    assert(k.0 == c);
                                    lemma_push_contains(t.take(j as int), t[j as int], k.1);
                                    assert(t[j as int] == list@[j as int]@);
                                }
                            }
                            let target = Map::new(|k: SkillKey| visited(*d, n as int, j + 1, k), |k: SkillKey| span@);
                            assert forall|k: SkillKey| #[trigger] r@.contains_key(k) == target.contains_key(k) by {
                                assert(before.contains_key(k) == visited(*d, n as int, j as int, k));
                                assert(visited(*d, n as int, j + 1, k) == (visited(*d, n as int, j as int, k) || k == (c, list@[j as int]@)));
                            }
                            assert(r@ =~= target);
                        }
                        j = j + 1;
                    }
                    proof {
                        let t = texts(d.spec_list(c));
                        assert(t.take(t.len() as int) =~= t);
                        assert forall|k: SkillKey| visited(*d, n + 1, 0, k) == visited(*d, n as int, list@.len() as int, k) by {
                            assert(texts(d.spec_list(k.0)).take(0) =~= Seq::<Seq<char>>::empty());
                        }
                        assert(r@ =~= Map::new(|k: SkillKey| visited(*d, n + 1, 0, k), |k: SkillKey| span@));
                    }
                    n = n + 1;
                }
                proof {
                    assert forall|k: SkillKey| visited(*d, 6, 0, k) == self.has_skill(k) by {
                        assert(texts(d.spec_list(k.0)).take(0) =~= Seq::<Seq<char>>::empty());
                    }
                    assert(r@ =~= own);
                }
                r
            },
        }
    }

    proof fn lemma_months_monotone(self, n: int, m: int, today: CalendarDate)
        requires
            0 <= n <= m <= self.subentries.len(),
        ensures
            self.months_upto(n, today) <= self.months_upto(m, today),
        decreases m,
    {
        if n < m {
            self.lemma_months_monotone(n, m - 1, today);
        }
    }

    /// Skills of the entry and of all its subentries, recursively: each entry
    /// credits its own skills with its own duration, and the durations that a
    /// skill collects across entries are added up.
    pub fn extract_subentries_skills_at(&self, today: &CalendarDate) -> (r: SkillSet)
        requires
            self.wf(),
            today.wf(),
            self.tree_months(*today) <= u32::MAX,
        ensures
            r.wf(),
            r@ == self.subtree_skills(*today),
            months_at_most(r@, self.tree_months(*today)),
        decreases self,
    {
        let mut acc = self.extract_skills_duration_at(today);
        let ghost len = self.subentries@.len() as int;
        let mut i: usize = 0;
        while i < self.subentries.len()
            invariant
                self.wf(),
                today.wf(),
                len == self.subentries@.len(),
                i <= len,
                self.months_upto(len, *today) <= u32::MAX,
                acc.wf(),
                acc@ == self.skills_upto(i as int, *today),
                months_at_most(acc@, self.months_upto(i as int, *today)),
            decreases len - i,
        {
            let child = &self.subentries[i];
            proof {
                self.lemma_months_monotone(i + 1, len, *today);
                assert(decreases_to!(self => self.subentries@[i as int]));
                assert(child.wf());
            }
            let cs = child.extract_subentries_skills_at(today);
            proof {
                lemma_merge_bound(
                    acc@,
                    cs@,
                    self.months_upto(i as int, *today),
                    child.tree_months(*today),
                );
            }
            add_skillsets(&mut acc, &cs);
            i = i + 1;
        }
        acc
    }
}

/// Months beyond which skill durations no longer fit.
pub const MONTHS_CAP: u64 = 4294967296;

pub open spec fn capped(n: nat) -> nat {
    if n < MONTHS_CAP { n } else { MONTHS_CAP as nat }
}

impl CVEntry {
    /// Months of all entries of the subtree, up to `today`, added up and
    /// capped at `MONTHS_CAP`.
    pub fn capped_months_at(&self, today: &CalendarDate) -> (r: u64)
        requires
            self.wf(),
            today.wf(),
        ensures
            r == capped(self.tree_months(*today)),
        decreases self,
    {
        let d = match self.cv_duration_at(today) {
            Some(d) => d,
            None => CVDuration { year: 0, month: 0 },
        };
        let mut acc: u64 = 12 * (d.year as u64) + d.month as u64;
        if acc > MONTHS_CAP {
            acc = MONTHS_CAP;
        }
        let ghost len = self.subentries@.len() as int;
        let mut i: usize = 0;
        while i < self.subentries.len()
            invariant
                self.wf(),
                today.wf(),
                len == self.subentries@.len(),
                i <= len,
                acc == capped(self.months_upto(i as int, *today)),
            decreases len - i,
        {
            let child = &self.subentries[i];
            proof {
                assert(decreases_to!(self => self.subentries@[i as int]));
                assert(child.wf());
            }
            let c = child.capped_months_at(today);
            acc = acc + c;
            if acc > MONTHS_CAP {
                acc = MONTHS_CAP;
            }
            i = i + 1;
        }
        acc
    }

    /// The entry's own skills, each credited with the entry's duration up to
    /// the current date (zero when the entry has no beginning).
    pub fn extract_skills_duration(&self) -> (r: SkillSet)
        requires
            self.wf(),
        ensures
            r.wf(),
            exists|t: CalendarDate| t.wf() && r@ == self.own_skills(t),
    {
        let t = today();
        self.extract_skills_duration_at(&t)
    }

    /// Skills of the entry and of all its subentries up to the current date,
    /// durations added up; none when a duration would not fit.
    pub fn extract_subentries_skills(&self) -> (r: Option<SkillSet>)
        requires
            self.wf(),
        ensures
            r matches Some(s) ==> s.wf() && exists|t: CalendarDate| t.wf() && s@ == self.subtree_skills(t),
            r is None ==> exists|t: CalendarDate| t.wf() && self.tree_months(t) > u32::MAX,
    {
        let t = today();
        if self.capped_months_at(&t) <= 4294967295 {
            Some(self.extract_subentries_skills_at(&t))
        } else {
            None
        }
    }
}

/// `acc` merged, in order, with the subtree skills of each entry of `s`.
pub open spec fn fold_subtrees(
    acc: Map<SkillKey, (nat, nat)>,
    s: Seq<CVEntry>,
    today: CalendarDate,
) -> Map<SkillKey, (nat, nat)>
    decreases s.len(),
{
    if s.len() == 0 {
        acc
    } else {
        merge_skills(fold_subtrees(acc, s.drop_last(), today), s.last().subtree_skills(today))
    }
}

proof fn lemma_fold_append(
    acc: Map<SkillKey, (nat, nat)>,
    a: Seq<CVEntry>,
    b: Seq<CVEntry>,
    today: CalendarDate,
)
    ensures
        fold_subtrees(acc, a + b, today) == fold_subtrees(fold_subtrees(acc, a, today), b, today),
    decreases b.len(),
{
    if b.len() == 0 {
        assert(a + b =~= a);
    } else {
        assert((a + b).drop_last() =~= a + b.drop_last());
        lemma_fold_append(acc, a, b.drop_last(), today);
    }
}

proof fn lemma_fold_pull(
    acc: Map<SkillKey, (nat, nat)>,
    x: Map<SkillKey, (nat, nat)>,
    w: Seq<CVEntry>,
    today: CalendarDate,
)
    ensures
        fold_subtrees(merge_skills(acc, x), w, today) == merge_skills(fold_subtrees(acc, w, today), x),
    decreases w.len(),
{
    if w.len() > 0 {
        lemma_fold_pull(acc, x, w.drop_last(), today);
        let f = fold_subtrees(acc, w.drop_last(), today);
        let y = w.last().subtree_skills(today);
        lemma_merge_associative(f, x, y);
        lemma_merge_commutative(x, y);
        lemma_merge_associative(f, y, x);
    }
}

proof fn lemma_fold_permutation(
    acc: Map<SkillKey, (nat, nat)>,
    s1: Seq<CVEntry>,
    s2: Seq<CVEntry>,
    today: CalendarDate,
)
    requires
        s1.to_multiset() == s2.to_multiset(),
    ensures
        fold_subtrees(acc, s1, today) == fold_subtrees(acc, s2, today),
    decreases s1.len(),
{
    broadcast use vstd::seq_lib::group_to_multiset_ensures, vstd::multiset::group_multiset_axioms;

    vstd::seq_lib::to_multiset_len(s1);
    vstd::seq_lib::to_multiset_len(s2);
    if s1.len() == 0 {
        assert(s2.len() == 0);
    } else {
        let x = s1.last();
        let r1 = s1.drop_last();
        assert(s1 =~= r1.push(x));
        assert(s1.to_multiset() == r1.to_multiset().insert(x));
        assert(s2.to_multiset().count(x) > 0);
        assert(s2.contains(x));
        let j = choose|j: int| 0 <= j < s2.len() && s2[j] == x;
        let r2 = s2.remove(j);
        assert(r2.to_multiset() == s2.to_multiset().remove(x));
        assert(r1.to_multiset() =~= r2.to_multiset());
        lemma_fold_permutation(acc, r1, r2, today);
        let u = s2.subrange(0, j);
        let v = s2.subrange(j + 1, s2.len() as int);
        assert(s2 =~= u.push(x) + v);
        assert(r2 =~= u + v);
        lemma_fold_append(acc, u.push(x), v, today);
        assert(u.push(x).drop_last() =~= u);
        lemma_fold_pull(fold_subtrees(acc, u, today), x.subtree_skills(today), v, today);
        lemma_fold_append(acc, u, v, today);
    }
}

impl CVEntry {
    proof fn lemma_skills_upto_fold(self, n: int, today: CalendarDate)
        requires
            0 <= n <= self.subentries.len(),
        ensures
            self.skills_upto(n, today) == fold_subtrees(
                self.own_skills(today),
                self.subentries@.take(n),
                today,
            ),
        decreases n,
    {
        if n > 0 {
            self.lemma_skills_upto_fold(n - 1, today);
            assert(self.subentries@.take(n).drop_last() =~= self.subentries@.take(n - 1));
        } else {
            assert(self.subentries@.take(0) =~= Seq::<CVEntry>::empty());
        }
    }
}

/// Aggregating the skills of a subtree does not depend on the order of the
/// subentries: entries that differ only in that order have the same skills.
pub proof fn lemma_subtree_skills_order(e1: CVEntry, e2: CVEntry, today: CalendarDate)
    requires
        e1.beginning == e2.beginning,
        e1.end == e2.end,
        e1.description == e2.description,
        e1.subentries@.to_multiset() == e2.subentries@.to_multiset(),
    ensures
        e1.subtree_skills(today) == e2.subtree_skills(today),
{
    broadcast use vstd::seq_lib::group_to_multiset_ensures;

    vstd::seq_lib::to_multiset_len(e1.subentries@);
    vstd::seq_lib::to_multiset_len(e2.subentries@);
    e1.lemma_skills_upto_fold(e1.subentries.len() as int, today);
    e2.lemma_skills_upto_fold(e2.subentries.len() as int, today);
    assert(e1.subentries@.take(e1.subentries.len() as int) =~= e1.subentries@);
    assert(e2.subentries@.take(e2.subentries.len() as int) =~= e2.subentries@);
    assert(e1.own_skills(today) =~= e2.own_skills(today));
    lemma_fold_permutation(e1.own_skills(today), e1.subentries@, e2.subentries@, today);
}

} // verus!
