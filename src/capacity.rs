use vstd::prelude::*;
use crate::name::Name;
use crate::prefix::{Prefix, prefix_matches};

verus! {

/// Level at or above which an adult counts as full (nine tenths of its space used).
pub const MIN_LEVEL_WHEN_FULL: u8 = 9;

/// Highest storage level: all space used.
pub const MAX_LEVEL: u8 = 10;

/// The number of separate copies of a chunk that the larger placement policy keeps.
pub const CHUNK_COPY_COUNT: usize = 4;

/// What an adult last reported of its used storage, in tenths.
#[derive(Clone, Copy, Debug, PartialEq, Eq, Structural)]
pub struct AdultLevel {
    pub name: Name,
    pub level: u8,
}

/// The levels of a list of entries, as a map; a later entry wins over an earlier one.
pub open spec fn level_map(s: Seq<AdultLevel>) -> Map<Name, u8>
    decreases s.len(),
{
    if s.len() == 0 {
        Map::empty()
    } else {
        level_map(s.drop_last()).insert(s.last().name, s.last().level)
    }
}

/// The levels after `e` was reported: it replaces a lower (or missing) level only.
pub open spec fn record_level(m: Map<Name, u8>, e: AdultLevel) -> Map<Name, u8> {
    if !m.contains_key(e.name) || e.level > m[e.name] {
        m.insert(e.name, e.level)
    } else {
        m
    }
}

/// The levels after each of `s` was reported in turn.
pub open spec fn record_levels(m: Map<Name, u8>, s: Seq<AdultLevel>) -> Map<Name, u8>
    decreases s.len(),
{
    if s.len() == 0 {
        m
    } else {
        record_level(record_levels(m, s.drop_last()), s.last())
    }
}

/// The highest of `cur` (if any) and the levels `s` gives for adult `a`.
pub open spec fn max_level_for(cur: Option<u8>, s: Seq<AdultLevel>, a: Name) -> Option<u8>
    decreases s.len(),
{
    if s.len() == 0 {
        cur
    } else {
        let before = max_level_for(cur, s.drop_last(), a);
        if s.last().name != a {
            before
        } else {
            match before {
                Some(v) => Some(if v >= s.last().level { v } else { s.last().level }),
                None => Some(s.last().level),
            }
        }
    }
}

/// Each adult ends with the highest of its stored level and the levels reported for it;
/// adults not reported keep theirs.
pub proof fn lemma_record_levels_max(m: Map<Name, u8>, s: Seq<AdultLevel>, a: Name)
    ensures
        record_levels(m, s).contains_key(a) == max_level_for(if m.contains_key(a) { Some(m[a]) } else { None }, s, a).is_some(),
        record_levels(m, s).contains_key(a) ==> Some(record_levels(m, s)[a]) == max_level_for(
            if m.contains_key(a) { Some(m[a]) } else { None },
            s,
            a,
        ),
    decreases s.len(),
{
    if s.len() > 0 {
        lemma_record_levels_max(m, s.drop_last(), a);
    }
}

/// The map holds a level for the entry's adult that is at least the entry's level.
pub open spec fn at_least(m: Map<Name, u8>, e: AdultLevel) -> bool {
    m.contains_key(e.name) && m[e.name] >= e.level
}

pub open spec fn unique_names(s: Seq<AdultLevel>) -> bool {
    forall|i: int, j: int| 0 <= i < s.len() && 0 <= j < s.len() && i != j ==> s[i].name != s[j].name
}

pub open spec fn sum_levels(s: Seq<AdultLevel>) -> int
    decreases s.len(),
{
    if s.len() == 0 {
        0
    } else {
        sum_levels(s.drop_last()) + s.last().level
    }
}

proof fn lemma_level_map_index(s: Seq<AdultLevel>)
    requires
        unique_names(s),
    ensures
        forall|n: Name| #[trigger]
            level_map(s).contains_key(n) <==> exists|i: int| 0 <= i < s.len() && s[i].name == n,
        forall|i: int| 0 <= i < s.len() ==> #[trigger] level_map(s)[s[i].name] == s[i].level,
    decreases s.len(),
{
    if s.len() > 0 {
        let t = s.drop_last();
        let last = s.len() - 1;
        assert(unique_names(t)) by {
            assert forall|i: int, j: int|
                0 <= i < t.len() && 0 <= j < t.len() && i != j implies t[i].name != t[j].name by {
                assert(t[i] == s[i] && t[j] == s[j]);
            }
        }
        lemma_level_map_index(t);
        assert forall|n: Name| #[trigger]
            level_map(s).contains_key(n) <==> exists|i: int| 0 <= i < s.len() && s[i].name
                == n by {
            if n == s[last].name {
            } else {
                if level_map(s).contains_key(n) {
                    assert(level_map(t).contains_key(n));
                    let i = choose|i: int| 0 <= i < t.len() && t[i].name == n;
                    assert(s[i].name == n);
                }
                if exists|i: int| 0 <= i < s.len() && s[i].name == n {
                    let i = choose|i: int| 0 <= i < s.len() && s[i].name == n;
                    assert(i < t.len());
                    assert(t[i].name == n);
                    assert(level_map(t).contains_key(n));
                }
            }
        }
        assert forall|i: int| 0 <= i < s.len() implies #[trigger] level_map(s)[s[i].name]
            == s[i].level by {
            if i < last {
                assert(s[i].name != s[last].name);
                assert(t[i] == s[i]);
                assert(level_map(t)[t[i].name] == t[i].level);
            }
        }
    }
}

proof fn lemma_level_map_update(s: Seq<AdultLevel>, i: int, level: u8)
    requires
        unique_names(s),
        0 <= i < s.len(),
    ensures
        level_map(s.update(i, AdultLevel { name: s[i].name, level })) == level_map(s).insert(
            s[i].name,
            level,
        ),
    decreases s.len(),
{
    let u = s.update(i, AdultLevel { name: s[i].name, level });
    if i == s.len() - 1 {
        assert(u.drop_last() =~= s.drop_last());
        assert(level_map(u) =~= level_map(s).insert(s[i].name, level));
    } else {
        lemma_level_map_update(s.drop_last(), i, level);
        assert(u.drop_last() =~= s.drop_last().update(i, AdultLevel { name: s[i].name, level }));
        assert(s.last().name != s[i].name);
        assert(level_map(u) =~= level_map(s).insert(s[i].name, level));
    }
}

proof fn lemma_level_map_remove(s: Seq<AdultLevel>, i: int)
    requires
        unique_names(s),
        0 <= i < s.len(),
    ensures
        level_map(s.remove(i)) == level_map(s).remove(s[i].name),
    decreases s.len(),
{
    let r = s.remove(i);
    if i == s.len() - 1 {
        assert(r =~= s.drop_last());
        lemma_level_map_index(s.drop_last());
        assert(level_map(r) =~= level_map(s).remove(s[i].name));
    } else {
        lemma_level_map_remove(s.drop_last(), i);
        assert(r.drop_last() =~= s.drop_last().remove(i));
        assert(r.last() == s.last());
        assert(s.last().name != s[i].name);
        assert(level_map(r) =~= level_map(s).remove(s[i].name));
    }
}

/// Per-adult storage levels of a section. A level only ever goes up.
pub struct Capacity {
    entries: Vec<AdultLevel>,
}

impl View for Capacity {
    type V = Map<Name, u8>;

    closed spec fn view(&self) -> Map<Name, u8> {
        level_map(self.entries@)
    }
}

impl Capacity {
    pub closed spec fn wf(&self) -> bool {
        unique_names(self.entries@)
    }

    /// The stored entries, one per adult; the view is `level_map` of them.
    pub closed spec fn entries_seq(&self) -> Seq<AdultLevel> {
        self.entries@
    }

    /// A tracker that knows no adult.
    pub fn new() -> (r: Capacity)
        ensures
            r.wf(),
            r@ == Map::<Name, u8>::empty(),
    {
        Capacity { entries: Vec::new() }
    }

    fn find(&self, adult: &Name) -> (r: Option<usize>)
        requires
            self.wf(),
        ensures
            match r {
                Some(i) => i < self.entries@.len() && self.entries@[i as int].name == *adult,
                None => !self@.contains_key(*adult),
            },
    {
        proof {
            lemma_level_map_index(self.entries@);
        }
        let mut i: usize = 0;
        while i < self.entries.len()
            invariant
                i <= self.entries@.len(),
                forall|j: int| 0 <= j < i ==> self.entries@[j].name != *adult,
            decreases self.entries@.len() - i,
        {
            if self.entries[i].name == *adult {
                return Some(i);
            }
            i = i + 1;
        }
        None
    }

    /// The level stored for `adult`, if any.
    pub fn level(&self, adult: &Name) -> (r: Option<u8>)
        requires
            self.wf(),
        ensures
            r == (if self@.contains_key(*adult) {
                Some(self@[*adult])
            } else {
                None
            }),
    {
        proof {
            lemma_level_map_index(self.entries@);
        }
        match self.find(adult) {
            Some(i) => Some(self.entries[i].level),
            None => None,
        }
    }

    /// Whether the adult has reported at least `MIN_LEVEL_WHEN_FULL`.
    pub fn is_full(&self, adult: &Name) -> (r: bool)
        requires
            self.wf(),
        ensures
            r == (self@.contains_key(*adult) && self@[*adult] >= MIN_LEVEL_WHEN_FULL),
    {
        match self.level(adult) {
            Some(l) => l >= MIN_LEVEL_WHEN_FULL,
            None => false,
        }
    }

    /// Records a level reported by `adult`. A level that is not higher than the stored one is
    /// ignored. Returns whether the stored level changed.
    pub fn set_adult_level(&mut self, adult: Name, new_level: u8) -> (r: bool)
        requires
            old(self).wf(),
            new_level <= MAX_LEVEL,
        ensures
            final(self)@ == record_level(old(self)@, AdultLevel { name: adult, level: new_level }),
            final(self).wf(),
            r == (!old(self)@.contains_key(adult) || new_level > old(self)@[adult]),
            r ==> final(self)@ == old(self)@.insert(adult, new_level),
            !r ==> final(self)@ == old(self)@,
            forall|a: Name|
                old(self)@.contains_key(a) ==> #[trigger] final(self)@.contains_key(a)
                    && final(self)@[a] >= old(self)@[a],
    {
        proof {
            lemma_level_map_index(self.entries@);
        }
        match self.find(&adult) {
            Some(i) => {
                if new_level > self.entries[i].level {
                    proof {
                        lemma_level_map_update(self.entries@, i as int, new_level);
                    }
                    self.entries.set(i, AdultLevel { name: adult, level: new_level });
                    assert(self@ =~= old(self)@.insert(adult, new_level));
                    true
                } else {
                    false
                }
            },
            None => {
                let ghost before = self.entries@;
                self.entries.push(AdultLevel { name: adult, level: new_level });
                proof {
                    assert(self.entries@.drop_last() =~= before);
                    assert forall|i: int, j: int|
                        0 <= i < self.entries@.len() && 0 <= j < self.entries@.len() && i
                            != j implies self.entries@[i].name != self.entries@[j].name by {
                        if i < before.len() && j < before.len() {
                            assert(self.entries@[i] == before[i]);
                        } else if i < before.len() {
                            assert(self.entries@[i] == before[i]);
                            assert(level_map(before).contains_key(before[i].name));
                        } else if j < before.len() {
                            assert(self.entries@[j] == before[j]);
                            assert(level_map(before).contains_key(before[j].name));
                        }
                    }
                }
                true
            },
        }
    }

    /// Records each of the given levels in turn, as `set_adult_level` does: each adult ends
    /// with the highest of its stored level and those given for it, others keep theirs.
    pub fn set_adult_levels(&mut self, levels: Vec<AdultLevel>)
        requires
            old(self).wf(),
            forall|i: int| 0 <= i < levels@.len() ==> (#[trigger] levels@[i]).level <= MAX_LEVEL,
        ensures
            final(self).wf(),
            final(self)@ == record_levels(old(self)@, levels@),
            forall|a: Name| #[trigger] final(self)@.contains_key(a) == max_level_for(
                if old(self)@.contains_key(a) { Some(old(self)@[a]) } else { None }, levels@, a).is_some(),
            forall|a: Name| #[trigger] final(self)@.contains_key(a) ==> Some(final(self)@[a]) == max_level_for(
                if old(self)@.contains_key(a) { Some(old(self)@[a]) } else { None }, levels@, a),
            forall|a: Name|
                old(self)@.contains_key(a) ==> #[trigger] final(self)@.contains_key(a)
                    && final(self)@[a] >= old(self)@[a],
            forall|i: int| 0 <= i < levels@.len() ==> at_least(final(self)@, #[trigger] levels@[i]),
    {
        let mut k: usize = 0;
        while k < levels.len()
            invariant
                self.wf(),
                k <= levels@.len(),
                forall|i: int| 0 <= i < levels@.len() ==> (#[trigger] levels@[i]).level <= MAX_LEVEL,
                self@ == record_levels(old(self)@, levels@.subrange(0, k as int)),
                forall|a: Name|
                    old(self)@.contains_key(a) ==> #[trigger] self@.contains_key(a) && self@[a]
                        >= old(self)@[a],
                forall|i: int| 0 <= i < k ==> at_least(self@, #[trigger] levels@[i]),
            decreases levels@.len() - k,
        {
            let e = levels[k];
            let ghost prev = self@;
            self.set_adult_level(e.name, e.level);
            assert(levels@.subrange(0, k as int + 1).drop_last() =~= levels@.subrange(0, k as int));
            assert forall|a: Name| old(self)@.contains_key(a) implies #[trigger] self@.contains_key(
                a,
            ) && self@[a] >= old(self)@[a] by {
                assert(prev.contains_key(a));
            }
            assert forall|i: int| 0 <= i < k + 1 implies at_least(self@, #[trigger] levels@[i]) by {
                if i < k {
                    assert(at_least(prev, levels@[i]));
                    assert(prev.contains_key(levels@[i].name));
                } else {
                    assert(levels@[i] == e);
                }
            }
            k = k + 1;
        }
        assert(levels@.subrange(0, levels@.len() as int) =~= levels@);
        assert forall|a: Name| #[trigger] self@.contains_key(a) == max_level_for(
            if old(self)@.contains_key(a) { Some(old(self)@[a]) } else { None }, levels@, a).is_some() by {
            lemma_record_levels_max(old(self)@, levels@, a);
        }
        assert forall|a: Name| #[trigger] self@.contains_key(a) implies Some(self@[a]) == max_level_for(
            if old(self)@.contains_key(a) { Some(old(self)@[a]) } else { None }, levels@, a) by {
            lemma_record_levels_max(old(self)@, levels@, a);
        }
    }

    /// Average stored level, rounded down; 0 when no adult is known.
    pub fn avg_usage(&self) -> (r: u8)
        requires
            self.wf(),
        ensures
            self.entries_seq().len() == 0 ==> r == 0,
            self.entries_seq().len() > 0 ==> r as int == sum_levels(self.entries_seq())
                / (self.entries_seq().len() as int),
            r as int <= 255,
    {
        let n = self.entries.len();
        if n == 0 {
            return 0;
        }
        let mut total: u128 = 0;
        let mut i: usize = 0;
        while i < n
            invariant
                n == self.entries@.len(),
                i <= n,
                total == sum_levels(self.entries@.subrange(0, i as int)),
                total <= 255 * i,
            decreases n - i,
        {
            proof {
                let s = self.entries@.subrange(0, i as int + 1);
                assert(s.drop_last() =~= self.entries@.subrange(0, i as int));
            }
            total = total + self.entries[i].level as u128;
            i = i + 1;
        }
        assert(self.entries@.subrange(0, n as int) =~= self.entries@);
        let avg = total / (n as u128);
        assert(avg <= 255) by (nonlinear_arith)
            requires
                total <= 255 * n,
                n > 0,
                avg == total / (n as u128),
        ;
        avg as u8
    }

    /// All stored levels.
    pub fn levels(&self) -> (r: Vec<AdultLevel>)
        requires
            self.wf(),
        ensures
            unique_names(r@),
            level_map(r@) == self@,
    {
        self.entries.clone()
    }

    /// Stored levels of the adults whose names lie under `prefix`.
    pub fn levels_matching(&self, prefix: &Prefix) -> (r: Vec<AdultLevel>)
        requires
            self.wf(),
            prefix.wf(),
        ensures
            unique_names(r@),
            level_map(r@) == self@.restrict(self@.dom().filter(|n: Name| prefix_matches(prefix@, n))),
    {
        let mut out: Vec<AdultLevel> = Vec::new();
        let mut i: usize = 0;
        proof {
            lemma_level_map_index(self.entries@);
        }
        while i < self.entries.len()
            invariant
                self.wf(),
                prefix.wf(),
                i <= self.entries@.len(),
                unique_names(out@),
                forall|k: int| 0 <= k < out@.len() ==> exists|j: int| 0 <= j < i && self.entries@[j] == #[trigger] out@[k],
                forall|j: int| 0 <= j < i && prefix_matches(prefix@, self.entries@[j].name) ==> exists|k: int| 0 <= k < out@.len() && out@[k] == #[trigger] self.entries@[j],
                forall|k: int| 0 <= k < out@.len() ==> prefix_matches(prefix@, #[trigger] out@[k].name),
            decreases self.entries@.len() - i,
        {
            let e = self.entries[i];
            if prefix.matches(&e.name) {
                let ghost before = out@;
                out.push(e);
                proof {
                    assert forall|a: int, b: int| 0 <= a < out@.len() && 0 <= b < out@.len() && a != b implies out@[a].name != out@[b].name by {
                        if a < before.len() && b < before.len() {
                            assert(out@[a] == before[a] && out@[b] == before[b]);
                        } else if a < before.len() {
                            assert(out@[a] == before[a]);
                            let j = choose|j: int| 0 <= j < i && self.entries@[j] == before[a];
                        } else if b < before.len() {
                            assert(out@[b] == before[b]);
                            let j = choose|j: int| 0 <= j < i && self.entries@[j] == before[b];
                        }
                    }
                    assert forall|k: int| 0 <= k < out@.len() implies exists|j: int| 0 <= j < i + 1 && self.entries@[j] == #[trigger] out@[k] by {
                        if k < before.len() {
                            assert(out@[k] == before[k]);
                        } else {
                            assert(self.entries@[i as int] == out@[k]);
                        }
                    }
                    assert forall|j: int| 0 <= j < i + 1 && prefix_matches(prefix@, self.entries@[j].name) implies exists|k: int| 0 <= k < out@.len() && out@[k] == #[trigger] self.entries@[j] by {
                        if j < i {
                            let k = choose|k: int| 0 <= k < before.len() && before[k] == self.entries@[j];
                            assert(out@[k] == before[k]);
                        } else {
                            assert(out@[before.len() as int] == self.entries@[j]);
                        }
                    }
                }
            }
            i = i + 1;
        }
        proof {
            lemma_level_map_index(out@);
            let m = self@.restrict(self@.dom().filter(|n: Name| prefix_matches(prefix@, n)));
            assert forall|n: Name| #[trigger] level_map(out@).contains_key(n) <==> m.contains_key(n) by {
                if level_map(out@).contains_key(n) {
                    let k = choose|k: int| 0 <= k < out@.len() && out@[k].name == n;
                    let j = choose|j: int| 0 <= j < i && self.entries@[j] == out@[k];
                    assert(self@.contains_key(self.entries@[j].name));
                }
                if m.contains_key(n) {
                    let j = choose|j: int| 0 <= j < self.entries@.len() && self.entries@[j].name == n;
                    let k = choose|k: int| 0 <= k < out@.len() && out@[k] == self.entries@[j];
                }
            }
            assert forall|n: Name| #[trigger] level_map(out@).contains_key(n) implies level_map(out@)[n] == m[n] by {
                let k = choose|k: int| 0 <= k < out@.len() && out@[k].name == n;
                let j = choose|j: int| 0 <= j < i && self.entries@[j] == out@[k];
            }
            assert(level_map(out@) =~= m);
        }
        out
    }

    /// Names of the adults that count as full.
    pub fn full_adults(&self) -> (r: Vec<Name>)
        requires
            self.wf(),
        ensures
            forall|n: Name|
                r@.contains(n) <==> (self@.contains_key(n) && self@[n] >= MIN_LEVEL_WHEN_FULL),
    {
        proof {
            lemma_level_map_index(self.entries@);
        }
        let mut out: Vec<Name> = Vec::new();
        let mut i: usize = 0;
        while i < self.entries.len()
            invariant
                self.wf(),
                i <= self.entries@.len(),
                forall|n: Name|
                    out@.contains(n) <==> exists|j: int|
                        0 <= j < i && self.entries@[j].name == n && self.entries@[j].level
                            >= MIN_LEVEL_WHEN_FULL,
            decreases self.entries@.len() - i,
        {
            let e = self.entries[i];
            let ghost before = out@;
            if e.level >= MIN_LEVEL_WHEN_FULL {
                out.push(e.name);
            }
            proof {
                assert forall|n: Name|
                    out@.contains(n) <==> exists|j: int|
                        0 <= j < i + 1 && self.entries@[j].name == n && self.entries@[j].level
                            >= MIN_LEVEL_WHEN_FULL by {
                    if out@.contains(n) && !before.contains(n) {
                        assert(self.entries@[i as int].name == n);
                    }
                    if before.contains(n) {
                        assert(out@.contains(n)) by {
                            let k = choose|k: int| 0 <= k < before.len() && before[k] == n;
                            assert(out@[k] == n);
                        }
                    }
                    if exists|j: int|
                        0 <= j < i + 1 && self.entries@[j].name == n && self.entries@[j].level
                            >= MIN_LEVEL_WHEN_FULL {
                        let j = choose|j: int|
                            0 <= j < i + 1 && self.entries@[j].name == n && self.entries@[j].level
                                >= MIN_LEVEL_WHEN_FULL;
                        if j == i {
                            assert(out@.last() == n);
                        }
                    }
                }
            }
            i = i + 1;
        }
        out
    }

    /// Stops tracking every adult that is not among `members`.
    pub fn retain_members_only(&mut self, members: &Vec<Name>)
        requires
            old(self).wf(),
        ensures
            final(self).wf(),
            final(self)@ == old(self)@.restrict(old(self)@.dom().filter(|n: Name| members@.contains(n))),
    {
        let mut i: usize = 0;
        while i < self.entries.len()
            invariant
                self.wf(),
                i <= self.entries@.len(),
                forall|j: int| 0 <= j < i ==> members@.contains(#[trigger] self.entries@[j].name),
                self@ == old(self)@.restrict(old(self)@.dom().filter(|n: Name| members@.contains(n) || !self@.contains_key(n) ==> members@.contains(n))).restrict(self@.dom()),
                self@.dom().subset_of(old(self)@.dom()),
                forall|n: Name| #[trigger] self@.contains_key(n) ==> self@[n] == old(self)@[n],
                forall|n: Name| old(self)@.contains_key(n) && members@.contains(n) ==> #[trigger] self@.contains_key(n),
            decreases self.entries@.len() - i,
        {
            let name = self.entries[i].name;
            if contains_name(members, &name) {
                i = i + 1;
            } else {
                proof {
                    lemma_level_map_remove(self.entries@, i as int);
                }
                let ghost before = self.entries@;
                self.entries.remove(i);
                proof {
                    assert(self.entries@ =~= before.remove(i as int));
                    assert forall|a: int, b: int| 0 <= a < self.entries@.len() && 0 <= b < self.entries@.len() && a != b implies self.entries@[a].name != self.entries@[b].name by {
                        let a2 = if a < i { a } else { a + 1 };
                        let b2 = if b < i { b } else { b + 1 };
                        assert(self.entries@[a] == before[a2]);
                        assert(self.entries@[b] == before[b2]);
                    }
                    assert forall|j: int| 0 <= j < i implies members@.contains(#[trigger] self.entries@[j].name) by {
                        assert(self.entries@[j] == before[j]);
                    }
                }
                assert(self@ =~= old(self)@.restrict(old(self)@.dom().filter(|n: Name| members@.contains(n) || !self@.contains_key(n) ==> members@.contains(n))).restrict(self@.dom()));
            }
        }
        proof {
            lemma_level_map_index(self.entries@);
            assert(self@ =~= old(self)@.restrict(old(self)@.dom().filter(|n: Name| members@.contains(n))));
        }
    }
}

/// Whether `names` holds `n`.
pub fn contains_name(names: &Vec<Name>, n: &Name) -> (r: bool)
    ensures
        r == names@.contains(*n),
{
    let mut i: usize = 0;
    while i < names.len()
        invariant
            i <= names@.len(),
            forall|j: int| 0 <= j < i ==> names@[j] != *n,
        decreases names@.len() - i,
    {
        if names[i] == *n {
            return true;
        }
        i = i + 1;
    }
    false
}

} // verus!
