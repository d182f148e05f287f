use vstd::prelude::*;
use crate::duration::{span_add, span_months, CVDuration};

verus! {

/// The fixed categories under which skills are grouped.
#[derive(Debug, Clone, Copy, PartialEq, Eq, Structural, Hash)]
pub enum Category {
    ProgrammingLanguages,
    VersionControl,
    Database,
    CloudComputing,
    CiCd,
    Other,
}

/// Categories in display order.
pub open spec fn category_order() -> Seq<Category> {
    seq![
        Category::ProgrammingLanguages,
        Category::VersionControl,
        Category::Database,
        Category::CloudComputing,
        Category::CiCd,
        Category::Other,
    ]
}

impl Category {
    pub open spec fn spec_label(self) -> Seq<char> {
        match self {
            Category::ProgrammingLanguages => "programming languages"@,
            Category::VersionControl => "version control"@,
            Category::Database => "database"@,
            Category::CloudComputing => "cloud computing"@,
            Category::CiCd => "CI/CD"@,
            Category::Other => "other"@,
        }
    }

    /// Human-readable name of the category.
    pub fn label(&self) -> (r: &'static str)
        ensures
            r@ == self.spec_label(),
    {
        match self {
            Category::ProgrammingLanguages => "programming languages",
            Category::VersionControl => "version control",
            Category::Database => "database",
            Category::CloudComputing => "cloud computing",
            Category::CiCd => "CI/CD",
            Category::Other => "other",
        }
    }

    /// The category at position `i` of the display order.
    pub fn at(i: usize) -> (r: Category)
        requires
            i < 6,
        ensures
            r == category_order()[i as int],
    {
        match i {
            0 => Category::ProgrammingLanguages,
            1 => Category::VersionControl,
            2 => Category::Database,
            3 => Category::CloudComputing,
            4 => Category::CiCd,
            _ => Category::Other,
        }
    }
}

/// A skill and the time it was practised.
#[derive(Debug)]
pub struct SkillTotal {
    pub category: Category,
    pub skill: String,
    pub duration: CVDuration,
}

/// Key of a skill: its category and its name.
pub type SkillKey = (Category, Seq<char>);

pub open spec fn key_of(e: SkillTotal) -> SkillKey {
    (e.category, e.skill@)
}

/// The map that a sequence of skill totals describes.
pub open spec fn map_of(s: Seq<SkillTotal>) -> Map<SkillKey, (nat, nat)>
    decreases s.len(),
{
    if s.len() == 0 {
        Map::empty()
    } else {
        map_of(s.drop_last()).insert(key_of(s.last()), s.last().duration@)
    }
}

pub open spec fn keys_unique(s: Seq<SkillTotal>) -> bool {
    forall|i: int, j: int| 0 <= i < j < s.len() ==> key_of(s[i]) != key_of(s[j])
}

/// Merge of two skill maps: durations of a skill present in both are added.
pub open spec fn merge_skills(
    a: Map<SkillKey, (nat, nat)>,
    b: Map<SkillKey, (nat, nat)>,
) -> Map<SkillKey, (nat, nat)> {
    Map::new(
        |k: SkillKey| a.contains_key(k) || b.contains_key(k),
        |k: SkillKey|
            if a.contains_key(k) && b.contains_key(k) {
                span_add(a[k], b[k])
            } else if a.contains_key(k) {
                a[k]
            } else {
                b[k]
            },
    )
}

/// Every duration of `m` is at most `bound` months long.
pub open spec fn months_at_most(m: Map<SkillKey, (nat, nat)>, bound: nat) -> bool {
    forall|k: SkillKey| m.contains_key(k) ==> span_months(#[trigger] m[k]) <= bound
}

/// Whether merging `b` into `a` keeps every duration within `u32`.
pub open spec fn merge_fits(a: Map<SkillKey, (nat, nat)>, b: Map<SkillKey, (nat, nat)>) -> bool {
    forall|k: SkillKey|
        a.contains_key(k) && b.contains_key(k) ==> {
            &&& span_add(#[trigger] a[k], b[k]).0 <= u32::MAX
            &&& a[k].1 + b[k].1 <= u32::MAX
        }
}

proof fn lemma_map_of_domain(s: Seq<SkillTotal>, k: SkillKey)
    ensures
        map_of(s).contains_key(k) <==> exists|i: int| 0 <= i < s.len() && key_of(s[i]) == k,
    decreases s.len(),
{
    if s.len() > 0 {
        lemma_map_of_domain(s.drop_last(), k);
        if map_of(s).contains_key(k) && key_of(s.last()) != k {
            let i = choose|i: int| 0 <= i < s.len() - 1 && key_of(s.drop_last()[i]) == k;
            assert(key_of(s[i]) == k);
        }
        if exists|i: int| 0 <= i < s.len() && key_of(s[i]) == k {
            let i = choose|i: int| 0 <= i < s.len() && key_of(s[i]) == k;
            if i < s.len() - 1 {
                assert(key_of(s.drop_last()[i]) == k);
            }
        }
    }
}

proof fn lemma_map_of_lookup(s: Seq<SkillTotal>, i: int)
    requires
        keys_unique(s),
        0 <= i < s.len(),
    ensures
        map_of(s).contains_key(key_of(s[i])),
        map_of(s)[key_of(s[i])] == s[i].duration@,
    decreases s.len(),
{
    if i < s.len() - 1 {
        lemma_map_of_lookup(s.drop_last(), i);
    }
}

proof fn lemma_map_of_update(s: Seq<SkillTotal>, i: int, e: SkillTotal)
    requires
        keys_unique(s),
        0 <= i < s.len(),
        key_of(e) == key_of(s[i]),
    ensures
        map_of(s.update(i, e)) == map_of(s).insert(key_of(e), e.duration@),
    decreases s.len(),
{
    let t = s.update(i, e);
    if i == s.len() - 1 {
        assert(t.drop_last() == s.drop_last());
        lemma_map_of_domain(s.drop_last(), key_of(e));
        assert(map_of(t) =~= map_of(s).insert(key_of(e), e.duration@));
    } else {
        assert(t.drop_last() == s.drop_last().update(i, e));
        lemma_map_of_update(s.drop_last(), i, e);
        assert(map_of(t) =~= map_of(s).insert(key_of(e), e.duration@));
    }
}

/// Merging `b` into `a` after one more key `k` of `b`.
proof fn lemma_merge_insert(
    a: Map<SkillKey, (nat, nat)>,
    b: Map<SkillKey, (nat, nat)>,
    k: SkillKey,
    d: (nat, nat),
)
    requires
        !b.contains_key(k),
    ensures
        merge_skills(a, b.insert(k, d)) == merge_skills(a, b).insert(
            k,
            if a.contains_key(k) { span_add(a[k], d) } else { d },
        ),
{
    assert(merge_skills(a, b.insert(k, d)) =~= merge_skills(a, b).insert(
        k,
        if a.contains_key(k) { span_add(a[k], d) } else { d },
    ));
}

/// Bounds on two maps give a bound on their merge, and show that it fits.
pub proof fn lemma_merge_bound(
    a: Map<SkillKey, (nat, nat)>,
    b: Map<SkillKey, (nat, nat)>,
    ba: nat,
    bb: nat,
)
    requires
        months_at_most(a, ba),
        months_at_most(b, bb),
        ba + bb <= u32::MAX,
    ensures
        merge_fits(a, b),
        months_at_most(merge_skills(a, b), ba + bb),
{
    assert forall|k: SkillKey| a.contains_key(k) && b.contains_key(k) implies {
        &&& span_add(#[trigger] a[k], b[k]).0 <= u32::MAX
        &&& a[k].1 + b[k].1 <= u32::MAX
    } by {
        crate::duration::lemma_span_add_months(a[k], b[k]);
        assert(span_months(a[k]) <= ba);
        assert(span_months(b[k]) <= bb);
        assert(span_add(a[k], b[k]).0 <= span_months(span_add(a[k], b[k])));
    }
    let m = merge_skills(a, b);
    assert forall|k: SkillKey| m.contains_key(k) implies span_months(#[trigger] m[k]) <= ba + bb by {
        if a.contains_key(k) && b.contains_key(k) {
            crate::duration::lemma_span_add_months(a[k], b[k]);
        } else if a.contains_key(k) {
            assert(span_months(a[k]) <= ba);
        } else {
            assert(span_months(b[k]) <= bb);
        }
    }
}

/// Skills grouped by category, each with the time it was practised.
#[derive(Debug)]
pub struct SkillSet {
    entries: Vec<SkillTotal>,
}

impl View for SkillSet {
    type V = Map<SkillKey, (nat, nat)>;

    closed spec fn view(&self) -> Map<SkillKey, (nat, nat)> {
        map_of(self.entries@)
    }
}

impl SkillSet {
    pub closed spec fn wf(&self) -> bool {
        keys_unique(self.entries@)
    }

    /// An empty set of skills.
    pub fn new() -> (r: Self)
        ensures
            r.wf(),
            r@ == Map::<SkillKey, (nat, nat)>::empty(),
    {
        SkillSet { entries: Vec::new() }
    }

    /// Number of skills held.
    pub fn len(&self) -> (r: usize)
        requires
            self.wf(),
        ensures
            r == self@.len(),
    {
        proof {
            self.lemma_len();
        }
        self.entries.len()
    }

    proof fn lemma_len(&self)
        requires
            self.wf(),
        ensures
            self@.len() == self.entries@.len(),
            self@.dom().finite(),
    {
        lemma_unique_len(self.entries@);
    }

    /// The skill totals held, each once, in the order they were first added.
    pub fn totals(&self) -> (r: &Vec<SkillTotal>)
        requires
            self.wf(),
        ensures
            map_of(r@) == self@,
            keys_unique(r@),
    {
        &self.entries
    }

    fn position(&self, category: Category, skill: &str) -> (r: Option<usize>)
        requires
            self.wf(),
        ensures
            r matches Some(i) ==> i < self.entries@.len() && key_of(self.entries@[i as int]) == (
            category, skill@),
            r is None ==> !self@.contains_key((category, skill@)),
    {
        let mut i: usize = 0;
        while i < self.entries.len()
            invariant
                i <= self.entries@.len(),
                forall|j: int| 0 <= j < i ==> key_of(self.entries@[j]) != (category, skill@),
            decreases self.entries@.len() - i,
        {
            let e = &self.entries[i];
            if e.category == category && str_eq(e.skill.as_str(), skill) {
                return Some(i);
            }
            i = i + 1;
        }
        proof {
            lemma_map_of_domain(self.entries@, (category, skill@));
        }
        None
    }

    /// Time practised on `skill` of `category`, if the skill is present.
    pub fn get(&self, category: Category, skill: &str) -> (r: Option<CVDuration>)
        requires
            self.wf(),
        ensures
            r matches Some(d) ==> self@.contains_key((category, skill@)) && d@ == self@[(
            category, skill@)],
            r is None ==> !self@.contains_key((category, skill@)),
    {
        match self.position(category, skill) {
            Some(i) => {
                proof {
                    lemma_map_of_lookup(self.entries@, i as int);
                }
                Some(self.entries[i].duration)
            },
            None => None,
        }
    }

    /// Records `skill` with `duration`, replacing any duration it had.
    pub fn set(&mut self, category: Category, skill: String, duration: CVDuration)
        requires
            old(self).wf(),
        ensures
            final(self).wf(),
            final(self)@ == old(self)@.insert((category, skill@), duration@),
    {
        let ghost k = (category, skill@);
        match self.position(category, skill.as_str()) {
            Some(i) => {
                let e = SkillTotal { category, skill, duration };
                proof {
                    lemma_map_of_update(self.entries@, i as int, e);
                }
                self.entries.set(i, e);
            },
            None => {
                let e = SkillTotal { category, skill, duration };
                proof {
                    lemma_map_of_domain(self.entries@, k);
                }
                self.entries.push(e);
                proof {
                    assert(self.entries@.drop_last() == old(self).entries@);
                }
            },
        }
    }

    /// Adds `duration` to the time of `skill`, or records it if absent.
    pub fn accumulate(&mut self, category: Category, skill: String, duration: CVDuration)
        requires
            old(self).wf(),
            old(self)@.contains_key((category, skill@)) ==> {
                &&& span_add(old(self)@[(category, skill@)], duration@).0 <= u32::MAX
                &&& old(self)@[(category, skill@)].1 + duration.month <= u32::MAX
            },
        ensures
            final(self).wf(),
            final(self)@ == old(self)@.insert(
                (category, skill@),
                if old(self)@.contains_key((category, skill@)) {
                    span_add(old(self)@[(category, skill@)], duration@)
                } else {
                    duration@
                },
            ),
    {
        match self.get(category, skill.as_str()) {
            Some(d) => {
                let sum = d.add(duration);
                self.set(category, skill, sum);
            },
            None => {
                self.set(category, skill, duration);
            },
        }
    }
}

proof fn lemma_unique_len(s: Seq<SkillTotal>)
    requires
        keys_unique(s),
    ensures
        map_of(s).len() == s.len(),
        map_of(s).dom().finite(),
    decreases s.len(),
{
    if s.len() > 0 {
        lemma_unique_len(s.drop_last());
        lemma_map_of_domain(s.drop_last(), key_of(s.last()));
    }
}

/// Character-wise equality of two strings.
pub fn str_eq(a: &str, b: &str) -> (r: bool)
    ensures
        r == (a@ == b@),
{
    let n = a.unicode_len();
    if n != b.unicode_len() {
        return false;
    }
    let mut i: usize = 0;
    while i < n
        invariant
            n == a@.len(),
            n == b@.len(),
            i <= n,
            a@.subrange(0, i as int) == b@.subrange(0, i as int),
        decreases n - i,
    {
        if a.get_char(i) != b.get_char(i) {
            return false;
        }
        assert(a@.subrange(0, i + 1) =~= a@.subrange(0, i as int).push(a@[i as int]));
        assert(b@.subrange(0, i + 1) =~= b@.subrange(0, i as int).push(b@[i as int]));
        i = i + 1;
    }
    assert(a@ =~= a@.subrange(0, n as int));
    assert(b@ =~= b@.subrange(0, n as int));
    true
}

/// Adds every skill of `other` to `acc`: durations of a skill present in both
/// are summed, the others are carried over unchanged.
pub fn add_skillsets(acc: &mut SkillSet, other: &SkillSet)
    requires
        old(acc).wf(),
        other.wf(),
        merge_fits(old(acc)@, other@),
    ensures
        final(acc).wf(),
        final(acc)@ == merge_skills(old(acc)@, other@),
{
    let ghost a0 = acc@;
    let ghost s = other.entries@;
    let mut i: usize = 0;
    proof {
        assert(map_of(s.take(0)) =~= Map::<SkillKey, (nat, nat)>::empty());
        assert(merge_skills(a0, Map::empty()) =~= a0);
    }
    while i < other.entries.len()
        invariant
            i <= s.len(),
            s == other.entries@,
            keys_unique(s),
            acc.wf(),
            merge_fits(a0, map_of(s)),
            acc@ == merge_skills(a0, map_of(s.take(i as int))),
        decreases s.len() - i,
    {
        let e = &other.entries[i];
        let ghost k = key_of(s[i as int]);
        proof {
            assert(s.take(i + 1).drop_last() == s.take(i as int));
            assert(map_of(s.take(i + 1)) == map_of(s.take(i as int)).insert(k, s[i as int].duration@));
            lemma_map_of_domain(s.take(i as int), k);
            if map_of(s.take(i as int)).contains_key(k) {
                let j = choose|j: int| 0 <= j < i && key_of(s.take(i as int)[j]) == k;
                assert(key_of(s[j]) == k);
            }
            lemma_merge_insert(a0, map_of(s.take(i as int)), k, s[i as int].duration@);
            lemma_map_of_lookup(s, i as int);
        }
        acc.accumulate(e.category, e.skill.clone(), e.duration);
        i = i + 1;
    }
    proof {
        assert(s.take(s.len() as int) == s);
    }
}

/// Merging a skill set with itself doubles every duration.
pub proof fn lemma_merge_self_doubles(a: Map<SkillKey, (nat, nat)>)
    ensures
        merge_skills(a, a).dom() == a.dom(),
        forall|k: SkillKey| a.contains_key(k) ==> #[trigger] merge_skills(a, a)[k] == span_add(a[k], a[k]),
{
    assert(merge_skills(a, a).dom() =~= a.dom());
}

/// Merging skill sets does not depend on their order.
pub proof fn lemma_merge_commutative(a: Map<SkillKey, (nat, nat)>, b: Map<SkillKey, (nat, nat)>)
    ensures
        merge_skills(a, b) == merge_skills(b, a),
{
    assert forall|k: SkillKey| a.contains_key(k) && b.contains_key(k) implies span_add(a[k], b[k]) == span_add(b[k], a[k]) by {}
    assert(merge_skills(a, b) =~= merge_skills(b, a));
}

/// Merging skill sets is associative.
pub proof fn lemma_merge_associative(
    a: Map<SkillKey, (nat, nat)>,
    b: Map<SkillKey, (nat, nat)>,
    c: Map<SkillKey, (nat, nat)>,
)
    ensures
        merge_skills(merge_skills(a, b), c) == merge_skills(a, merge_skills(b, c)),
{
    assert forall|k: SkillKey| #[trigger] a.contains_key(k) && b.contains_key(k) && c.contains_key(k) implies
        span_add(span_add(a[k], b[k]), c[k]) == span_add(a[k], span_add(b[k], c[k])) by {
        crate::duration::lemma_span_assoc(a[k], b[k], c[k]);
    }
    assert(merge_skills(merge_skills(a, b), c) =~= merge_skills(a, merge_skills(b, c)));
}

} // verus!
