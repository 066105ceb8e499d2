use vstd::prelude::*;
use crate::name::{Name, Peer, name_bit};
use crate::prefix::{Prefix, compatible};
use crate::elders::{EldersInfo, peer_names, peer_named};

verus! {

/// No two of the sections' prefixes overlap.
pub open spec fn antichain(ss: Seq<EldersInfo>) -> bool {
    forall|i: int, j: int|
        0 <= i < ss.len() && 0 <= j < ss.len() && i != j ==> !compatible(
            ss[i].prefix@,
            ss[j].prefix@,
        )
}

/// Number of leading bits of `p`, from position `i` on, that agree with `n`.
pub open spec fn common_from(p: Seq<bool>, n: Name, i: int) -> int
    decreases p.len() - i,
{
    if 0 <= i < p.len() && p[i] == name_bit(n, i) {
        common_from(p, n, i + 1)
    } else {
        i
    }
}

/// Length of the longest common prefix of `p` and the name.
pub open spec fn common_len(p: Seq<bool>, n: Name) -> int {
    common_from(p, n, 0)
}

/// Lexicographic order on bit strings from position `i`, `false` before `true`, a string
/// before its extensions.
pub open spec fn bits_lt_from(a: Seq<bool>, b: Seq<bool>, i: int) -> bool
    decreases a.len() - i,
{
    if i < 0 || i >= a.len() || i >= b.len() {
        a.len() < b.len()
    } else if a[i] != b[i] {
        !a[i]
    } else {
        bits_lt_from(a, b, i + 1)
    }
}

pub open spec fn bits_lt(a: Seq<bool>, b: Seq<bool>) -> bool {
    bits_lt_from(a, b, 0)
}

/// `a` is closer to `n` than `b`: it matches more leading bits, or as many and is lower.
pub open spec fn better(a: Seq<bool>, b: Seq<bool>, n: Name) -> bool {
    common_len(a, n) > common_len(b, n) || (common_len(a, n) == common_len(b, n) && bits_lt(a, b))
}

proof fn lemma_bits_lt_trans(a: Seq<bool>, b: Seq<bool>, c: Seq<bool>, i: int)
    requires
        0 <= i,
        bits_lt_from(a, b, i),
        bits_lt_from(b, c, i),
    ensures
        bits_lt_from(a, c, i),
    decreases a.len() - i,
{
    if i < a.len() && i < b.len() && i < c.len() && a[i] == b[i] && b[i] == c[i] {
        lemma_bits_lt_trans(a, b, c, i + 1);
    }
}

proof fn lemma_bits_lt_irrefl(a: Seq<bool>, i: int)
    requires
        0 <= i,
    ensures
        !bits_lt_from(a, a, i),
    decreases a.len() - i,
{
    if i < a.len() {
        lemma_bits_lt_irrefl(a, i + 1);
    }
}

fn common_len_of(p: &Prefix, n: &Name) -> (r: usize)
    requires
        p.wf(),
    ensures
        r == common_len(p@, *n),
        r <= p@.len(),
{
    let mut i: usize = 0;
    while i < p.bits.len() && p.bits[i] == n.bit(i)
        invariant
            p.wf(),
            i <= p@.len(),
            common_len(p@, *n) == common_from(p@, *n, i as int),
        decreases p@.len() - i,
    {
        i = i + 1;
    }
    i
}

fn bits_less(a: &Prefix, b: &Prefix) -> (r: bool)
    ensures
        r == bits_lt(a@, b@),
{
    let mut i: usize = 0;
    while i < a.bits.len() && i < b.bits.len() && a.bits[i] == b.bits[i]
        invariant
            i <= a@.len(),
            i <= b@.len(),
            bits_lt(a@, b@) == bits_lt_from(a@, b@, i as int),
        decreases a@.len() - i,
    {
        i = i + 1;
    }
    if i < a.bits.len() && i < b.bits.len() {
        !a.bits[i]
    } else {
        a.bits.len() < b.bits.len()
    }
}

/// The first elder named `n` in the sections from position `j` on.
pub open spec fn elder_in_sections(ss: Seq<EldersInfo>, n: Name, j: int) -> Option<Peer>
    decreases ss.len() - j,
{
    if j < 0 || j >= ss.len() {
        None
    } else {
        match peer_named(ss[j].members@, n, 0) {
            Some(p) => Some(p),
            None => elder_in_sections(ss, n, j + 1),
        }
    }
}

/// Our section's elders and those of the sections we know of beside it.
pub struct SectionMap {
    our: EldersInfo,
    neighbours: Vec<EldersInfo>,
    their_keys: Vec<KeyRecord>,
    knowledge: Vec<KnowledgeRecord>,
}

/// The latest key we know of another section's, under its prefix.
#[derive(Clone, Debug)]
pub struct KeyRecord {
    pub prefix: Prefix,
    pub key: Vec<u8>,
}

/// The latest version of our section another section acknowledged.
#[derive(Clone, Debug)]
pub struct KnowledgeRecord {
    pub prefix: Prefix,
    pub version: u64,
}

/// The key recorded for prefix `p`, the latest record winning.
pub open spec fn key_of(ks: Seq<KeyRecord>, p: Seq<bool>) -> Option<Seq<u8>>
    decreases ks.len(),
{
    if ks.len() == 0 {
        None
    } else if ks.last().prefix@ == p {
        Some(ks.last().key@)
    } else {
        key_of(ks.drop_last(), p)
    }
}

/// The version recorded for prefix `p`, the latest record winning.
pub open spec fn knowledge_of(ks: Seq<KnowledgeRecord>, p: Seq<bool>) -> Option<u64>
    decreases ks.len(),
{
    if ks.len() == 0 {
        None
    } else if ks.last().prefix@ == p {
        Some(ks.last().version)
    } else {
        knowledge_of(ks.drop_last(), p)
    }
}

impl SectionMap {
    pub closed spec fn our_spec(&self) -> EldersInfo {
        self.our
    }

    pub closed spec fn neighbours_spec(&self) -> Seq<EldersInfo> {
        self.neighbours@
    }

    pub closed spec fn key_records(&self) -> Seq<KeyRecord> {
        self.their_keys@
    }

    pub closed spec fn knowledge_records(&self) -> Seq<KnowledgeRecord> {
        self.knowledge@
    }

    /// The key we know for the section at prefix `p`.
    pub open spec fn their_key(&self, p: Seq<bool>) -> Option<Seq<u8>> {
        key_of(self.key_records(), p)
    }

    /// The version of ours that the section at prefix `p` acknowledged.
    pub open spec fn their_knowledge(&self, p: Seq<bool>) -> Option<u64> {
        knowledge_of(self.knowledge_records(), p)
    }

    /// Records `key` as the key of the section at `prefix`.
    pub fn update_keys(&mut self, prefix: &Prefix, key: &Vec<u8>)
        requires
            old(self).wf(),
        ensures
            final(self).wf(),
            final(self).our_spec() == old(self).our_spec(),
            final(self).neighbours_spec() == old(self).neighbours_spec(),
            final(self).knowledge_records() == old(self).knowledge_records(),
            forall|q: Seq<bool>| #[trigger] final(self).their_key(q) == if q == prefix@ {
                Some(key@)
            } else {
                old(self).their_key(q)
            },
    {
        let rec = KeyRecord { prefix: Prefix { bits: prefix.bits.clone() }, key: key.clone() };
        let ghost before = self.their_keys@;
        self.their_keys.push(rec);
        assert(self.their_keys@.drop_last() =~= before);
    }

    /// The version of ours that the section at `prefix` acknowledged, if any.
    pub fn knowledge_for(&self, prefix: &Prefix) -> (r: Option<u64>)
        ensures
            r == self.their_knowledge(prefix@),
    {
        let mut i: usize = self.knowledge.len();
        let mut current: Option<u64> = None;
        let mut done = false;
        assert(self.knowledge@.subrange(0, i as int) =~= self.knowledge@);
        while i > 0 && !done
            invariant
                i <= self.knowledge@.len(),
                !done ==> current.is_none() && knowledge_of(self.knowledge@, prefix@) == knowledge_of(self.knowledge@.subrange(0, i as int), prefix@),
                done ==> current == knowledge_of(self.knowledge@, prefix@),
            decreases i + if done { 0int } else { 1int },
        {
            assert(self.knowledge@.subrange(0, i as int).drop_last() =~= self.knowledge@.subrange(0, i - 1));
            if self.knowledge[i - 1].prefix == *prefix {
                current = Some(self.knowledge[i - 1].version);
                done = true;
            } else {
                i = i - 1;
            }
        }
        if !done {
            assert(self.knowledge@.subrange(0, 0) =~= Seq::<KnowledgeRecord>::empty());
        }
        current
    }

    /// Records that the section at `prefix` acknowledged version `version` of ours; an older
    /// acknowledgement than the recorded one changes nothing.
    pub fn update_knowledge(&mut self, prefix: &Prefix, version: u64)
        requires
            old(self).wf(),
        ensures
            final(self).wf(),
            final(self).our_spec() == old(self).our_spec(),
            final(self).neighbours_spec() == old(self).neighbours_spec(),
            final(self).key_records() == old(self).key_records(),
            forall|q: Seq<bool>| #[trigger] final(self).their_knowledge(q) == if q == prefix@ {
                match old(self).their_knowledge(q) {
                    Some(v) => Some(if v > version { v } else { version }),
                    None => Some(version),
                }
            } else {
                old(self).their_knowledge(q)
            },
    {
        let current = self.knowledge_for(prefix);
        assert(current == knowledge_of(self.knowledge@, prefix@));
        let v = match current {
            Some(c) => if c > version { c } else { version },
            None => version,
        };
        let rec = KnowledgeRecord { prefix: Prefix { bits: prefix.bits.clone() }, version: v };
        let ghost before = self.knowledge@;
        self.knowledge.push(rec);
        assert(self.knowledge@.drop_last() =~= before);
    }

    /// All known sections, ours first.
    pub open spec fn known(&self) -> Seq<EldersInfo> {
        seq![self.our_spec()] + self.neighbours_spec()
    }

    /// Every elder set is well formed and the known prefixes do not overlap.
    pub open spec fn wf(&self) -> bool {
        &&& forall|i: int| 0 <= i < self.known().len() ==> (#[trigger] self.known()[i]).wf()
        &&& antichain(self.known())
    }

    pub fn new(our: EldersInfo) -> (r: SectionMap)
        requires
            our.wf(),
        ensures
            r.wf(),
            r.our_spec() == our,
            r.neighbours_spec().len() == 0,
    {
        let r = SectionMap { our, neighbours: Vec::new(), their_keys: Vec::new(), knowledge: Vec::new() };
        assert(r.known() =~= seq![our]);
        r
    }

    pub fn our_info(&self) -> (r: &EldersInfo)
        ensures
            *r == self.our_spec(),
    {
        &self.our
    }

    pub fn our_prefix(&self) -> (r: &Prefix)
        ensures
            *r == self.our_spec().prefix,
    {
        &self.our.prefix
    }

    pub fn neighbours(&self) -> (r: &Vec<EldersInfo>)
        ensures
            r@ == self.neighbours_spec(),
    {
        &self.neighbours
    }

    /// The known section at position `i`, ours being at 0.
    pub fn known_at(&self, i: usize) -> (r: &EldersInfo)
        requires
            i < self.known().len(),
        ensures
            *r == self.known()[i as int],
    {
        if i == 0 {
            &self.our
        } else {
            &self.neighbours[i - 1]
        }
    }

    /// Drops the neighbours whose prefix overlaps `p`.
    fn remove_compatible(&mut self, p: &Prefix)
        requires
            old(self).wf(),
        ensures
            final(self).wf(),
            final(self).our_spec() == old(self).our_spec(),
            forall|x: EldersInfo| #[trigger] final(self).neighbours_spec().contains(x) <==> (
                old(self).neighbours_spec().contains(x) && !compatible(x.prefix@, p@)),
    {
        let ghost orig = self.neighbours@;
        let mut i: usize = 0;
        while i < self.neighbours.len()
            invariant
                self.wf(),
                self.our == old(self).our,
                orig == old(self).neighbours@,
                i <= self.neighbours@.len(),
                forall|j: int| 0 <= j < i ==> !compatible(#[trigger] self.neighbours@[j].prefix@, p@),
                forall|x: EldersInfo| #[trigger] self.neighbours@.contains(x) ==> orig.contains(x),
                forall|x: EldersInfo| #[trigger] orig.contains(x) && !compatible(x.prefix@, p@) ==> self.neighbours@.contains(x),
            decreases self.neighbours@.len() - i,
        {
            if self.neighbours[i].prefix.is_compatible(p) {
                let ghost before = self.neighbours@;
                let ghost kb = self.known();
                self.neighbours.remove(i);
                proof {
                    let k = self.known();
                    assert forall|a: int| 0 <= a < k.len() implies #[trigger] k[a] == kb[if a <= i { a } else { a + 1 }] by {
                        if a > 0 {
                            assert(k[a] == self.neighbours@[a - 1]);
                        }
                    }
                    assert forall|a: int| 0 <= a < k.len() implies (#[trigger] k[a]).wf() by {
                        assert(k[a] == kb[if a <= i { a } else { a + 1 }]);
                    }
                    assert forall|a: int, c: int| 0 <= a < k.len() && 0 <= c < k.len() && a != c implies !compatible(k[a].prefix@, k[c].prefix@) by {
                        assert(k[a] == kb[if a <= i { a } else { a + 1 }]);
                        assert(k[c] == kb[if c <= i { c } else { c + 1 }]);
                    }
                    assert forall|x: EldersInfo| #[trigger] self.neighbours@.contains(x) implies orig.contains(x) by {
                        let q = choose|q: int| 0 <= q < self.neighbours@.len() && self.neighbours@[q] == x;
                        assert(before[if q < i { q } else { q + 1 }] == x);
                        assert(before.contains(x));
                    }
                    assert forall|x: EldersInfo| #[trigger] orig.contains(x) && !compatible(x.prefix@, p@) implies self.neighbours@.contains(x) by {
                        let q = choose|q: int| 0 <= q < before.len() && before[q] == x;
                        assert(q != i);
                        let q2 = if q < i { q } else { q - 1 };
                        assert(self.neighbours@[q2] == x);
                    }
                }
            } else {
                i = i + 1;
            }
        }
    }

    /// Learns the elders of another section. Accepted when its prefix does not overlap ours
    /// and every known neighbour whose prefix overlaps it has an older version; those are then
    /// dropped. Returns whether it was accepted; otherwise nothing changes.
    pub fn add_neighbour(&mut self, info: EldersInfo) -> (r: bool)
        requires
            old(self).wf(),
        ensures
            final(self).wf(),
            final(self).our_spec() == old(self).our_spec(),
            r == (info.wf() && !compatible(info.prefix@, old(self).our_spec().prefix@) && forall|x: EldersInfo|
                #[trigger] old(self).neighbours_spec().contains(x) && compatible(x.prefix@, info.prefix@)
                    ==> x.version < info.version),
            r ==> forall|x: EldersInfo| #[trigger] final(self).neighbours_spec().contains(x) <==> (x
                == info || (old(self).neighbours_spec().contains(x) && !compatible(
                x.prefix@,
                info.prefix@,
            ))),
            !r ==> final(self).neighbours_spec() == old(self).neighbours_spec(),
    {
        let wf = info.prefix.bits.len() <= crate::prefix::MAX_PREFIX_LEN && check_wf(&info);
        if !wf || info.prefix.is_compatible(&self.our.prefix) {
            return false;
        }
        let mut j: usize = 0;
        while j < self.neighbours.len()
            invariant
                self.wf(),
                self.our == old(self).our,
                self.neighbours@ == old(self).neighbours@,
                forall|k: int| 0 <= k < j && compatible(#[trigger] self.neighbours@[k].prefix@, info.prefix@) ==> self.neighbours@[k].version < info.version,
                j <= self.neighbours@.len(),
            decreases self.neighbours@.len() - j,
        {
            if self.neighbours[j].prefix.is_compatible(&info.prefix) && self.neighbours[j].version >= info.version {
                assert(self.neighbours_spec().contains(self.neighbours@[j as int]));
                return false;
            }
            j = j + 1;
        }
        assert forall|x: EldersInfo| #[trigger] old(self).neighbours_spec().contains(x) && compatible(x.prefix@, info.prefix@)
            implies x.version < info.version by {
            let k = choose|k: int| 0 <= k < self.neighbours@.len() && self.neighbours@[k] == x;
        }
        self.remove_compatible(&info.prefix);
        let ghost before = self.neighbours@;
        let ghost kb = self.known();
        self.neighbours.push(info);
        proof {
            let k = self.known();
            assert(k =~= kb.push(info));
            assert forall|a: int| 0 <= a < k.len() implies (#[trigger] k[a]).wf() by {
                if a < kb.len() {
                    assert(k[a] == kb[a]);
                }
            }
            assert forall|a: int, c: int| 0 <= a < k.len() && 0 <= c < k.len() && a != c implies !compatible(k[a].prefix@, k[c].prefix@) by {
                if a < kb.len() && c < kb.len() {
                    assert(k[a] == kb[a] && k[c] == kb[c]);
                } else if a < kb.len() {
                    assert(k[a] == kb[a]);
                    if a > 0 {
                        assert(before.contains(kb[a])) by { assert(before[a - 1] == kb[a]); }
                    }
                } else if c < kb.len() {
                    assert(k[c] == kb[c]);
                    if c > 0 {
                        assert(before.contains(kb[c])) by { assert(before[c - 1] == kb[c]); }
                    }
                }
            }
            assert forall|x: EldersInfo| #[trigger] self.neighbours@.contains(x) <==> (x == info || (old(self).neighbours@.contains(x) && !compatible(x.prefix@, info.prefix@))) by {
                if self.neighbours@.contains(x) && x != info {
                    let q = choose|q: int| 0 <= q < self.neighbours@.len() && self.neighbours@[q] == x;
                    assert(before[q] == x);
                    assert(before.contains(x));
                }
                if old(self).neighbours@.contains(x) && !compatible(x.prefix@, info.prefix@) {
                    assert(before.contains(x));
                    let q = choose|q: int| 0 <= q < before.len() && before[q] == x;
                    assert(self.neighbours@[q] == x);
                }
                if x == info {
                    assert(self.neighbours@[before.len() as int] == x);
                }
            }
        }
        true
    }

    /// Makes `info` our section's elders and drops the neighbours that overlap its prefix.
    pub fn set_our_info(&mut self, info: EldersInfo)
        requires
            old(self).wf(),
            info.wf(),
        ensures
            final(self).wf(),
            final(self).our_spec() == info,
            forall|x: EldersInfo| #[trigger] final(self).neighbours_spec().contains(x) <==> (
                old(self).neighbours_spec().contains(x) && !compatible(x.prefix@, info.prefix@)),
    {
        self.remove_compatible(&info.prefix);
        let ghost kb = self.known();
        self.our = info;
        proof {
            let k = self.known();
            assert forall|a: int| 0 <= a < k.len() implies (#[trigger] k[a]).wf() by {
                if a > 0 {
                    assert(k[a] == kb[a]);
                }
            }
            assert forall|a: int, c: int| 0 <= a < k.len() && 0 <= c < k.len() && a != c implies !compatible(k[a].prefix@, k[c].prefix@) by {
                if a > 0 {
                    assert(k[a] == kb[a]);
                    assert(self.neighbours@.contains(k[a])) by { assert(self.neighbours@[a - 1] == k[a]); }
                }
                if c > 0 {
                    assert(k[c] == kb[c]);
                    assert(self.neighbours@.contains(k[c])) by { assert(self.neighbours@[c - 1] == k[c]); }
                }
            }
        }
    }

    /// The index, in `known()`, of the section closest to `target`: the one whose prefix
    /// shares the most leading bits with it, the lower prefix on a tie.
    pub fn closest(&self, target: &Name) -> (r: usize)
        requires
            self.wf(),
        ensures
            r < self.known().len(),
            forall|j: int| 0 <= j < self.known().len() ==> !better(
                #[trigger] self.known()[j].prefix@,
                self.known()[r as int].prefix@,
                *target,
            ),
    {
        proof {
            assert(self.known()[0] == self.our);
        }
        let mut best: usize = 0;
        let mut best_common = common_len_of(&self.our.prefix, target);
        proof {
            lemma_bits_lt_irrefl(self.our.prefix@, 0);
        }
        let mut i: usize = 0;
        while i < self.neighbours.len()
            invariant
                self.wf(),
                i <= self.neighbours@.len(),
                best <= i,
                best_common == common_len(self.known()[best as int].prefix@, *target),
                forall|j: int| 0 <= j <= i ==> !better(
                    #[trigger] self.known()[j].prefix@,
                    self.known()[best as int].prefix@,
                    *target,
                ),
            decreases self.neighbours@.len() - i,
        {
            let n = &self.neighbours[i];
            assert(self.known()[i + 1] == *n);
            assert((self.known()[i + 1]).wf());
            let c = common_len_of(&n.prefix, target);
            let cand_better = c > best_common || (c == best_common && bits_less(&n.prefix, &self.known_at(best).prefix));
            if cand_better {
                proof {
                    let bp = self.known()[best as int].prefix@;
                    assert forall|j: int| 0 <= j <= i + 1 implies !better(
                        #[trigger] self.known()[j].prefix@,
                        n.prefix@,
                        *target,
                    ) by {
                        let jp = self.known()[j].prefix@;
                        if j <= i && better(jp, n.prefix@, *target) {
                            if common_len(jp, *target) == common_len(n.prefix@, *target) && common_len(n.prefix@, *target) == common_len(bp, *target) {
                                lemma_bits_lt_trans(jp, n.prefix@, bp, 0);
                            }
                            assert(better(jp, bp, *target));
                        }
                        if j == i + 1 {
                            lemma_bits_lt_irrefl(n.prefix@, 0);
                        }
                    }
                }
                best = i + 1;
                best_common = c;
            }
            i = i + 1;
        }
        best
    }

    /// The elder with the given name in one of the neighbouring sections, if any.
    pub fn get_elder(&self, name: &Name) -> (r: Option<Peer>)
        ensures
            r.is_some() <==> exists|j: int| 0 <= j < self.neighbours_spec().len() && peer_names(#[trigger] self.neighbours_spec()[j].members@).contains(*name),
            r matches Some(p) ==> p.name == *name && exists|j: int| 0 <= j < self.neighbours_spec().len()
                && (#[trigger] self.neighbours_spec()[j]).members@.contains(p),
            r == elder_in_sections(self.neighbours_spec(), *name, 0),
    {
        let mut i: usize = 0;
        while i < self.neighbours.len()
            invariant
                i <= self.neighbours@.len(),
                elder_in_sections(self.neighbours_spec(), *name, 0) == elder_in_sections(self.neighbours_spec(), *name, i as int),
                forall|j: int| 0 <= j < i ==> !peer_names(#[trigger] self.neighbours_spec()[j].members@).contains(*name),
            decreases self.neighbours@.len() - i,
        {
            match self.neighbours[i].member(name) {
                Some(p) => {
                    assert(peer_names(self.neighbours_spec()[i as int].members@).contains(*name));
                    return Some(p);
                },
                None => {},
            }
            i = i + 1;
        }
        None
    }

    /// The prefixes of all known sections, ours first.
    pub fn known_prefixes(&self) -> (r: Vec<Prefix>)
        ensures
            r@.len() == self.known().len(),
            forall|j: int| 0 <= j < r@.len() ==> (#[trigger] r@[j])@ == self.known()[j].prefix@,
    {
        let mut out: Vec<Prefix> = Vec::new();
        out.push(Prefix { bits: self.our.prefix.bits.clone() });
        let mut i: usize = 0;
        while i < self.neighbours.len()
            invariant
                i <= self.neighbours@.len(),
                out@.len() == i + 1,
                forall|j: int| 0 <= j < out@.len() ==> (#[trigger] out@[j])@ == self.known()[j].prefix@,
            decreases self.neighbours@.len() - i,
        {
            out.push(Prefix { bits: self.neighbours[i].prefix.bits.clone() });
            assert(self.known()[i + 1] == self.neighbours@[i as int]);
            i = i + 1;
        }
        out
    }
}

/// Whether the elder set is well formed.
pub fn info_is_wf(info: &EldersInfo) -> (r: bool)
    ensures
        r == info.wf(),
{
    info.prefix.bits.len() <= crate::prefix::MAX_PREFIX_LEN && check_wf(info)
}

fn check_wf(info: &EldersInfo) -> (r: bool)
    requires
        info.prefix.wf(),
    ensures
        r == info.wf(),
{
    match EldersInfo::new(info.members.clone(), Prefix { bits: info.prefix.bits.clone() }, None) {
        Some(_) => true,
        None => false,
    }
}

/// The known sections never overlap: no known prefix is a prefix of another.
pub proof fn lemma_known_prefixes_antichain(m: SectionMap, i: int, j: int)
    requires
        m.wf(),
        0 <= i < m.known().len(),
        0 <= j < m.known().len(),
        i != j,
    ensures
        !compatible(m.known()[i].prefix@, m.known()[j].prefix@),
{
}

/// Once the known prefixes cover the whole name space, every name lies under one of them.
pub proof fn lemma_complete_cover(m: SectionMap, n: Name)
    requires
        m.wf(),
        crate::prefix::covered(
            Seq::<bool>::empty(),
            m.known().map_values(|s: EldersInfo| s.prefix@),
            crate::prefix::max_len(m.known().map_values(|s: EldersInfo| s.prefix@)),
        ),
    ensures
        exists|k: int| 0 <= k < m.known().len() && crate::prefix::prefix_matches(#[trigger] m.known()[k].prefix@, n),
{
    let ps = m.known().map_values(|s: EldersInfo| s.prefix@);
    lemma_max_len_bound(ps);
    crate::prefix::lemma_covered_names(Seq::<bool>::empty(), ps, crate::prefix::max_len(ps), n);
    let k = choose|k: int| 0 <= k < ps.len() && crate::prefix::prefix_matches(#[trigger] ps[k], n);
    assert(ps[k] == m.known()[k].prefix@);
}

proof fn lemma_max_len_bound(ps: Seq<Seq<bool>>)
    requires
        forall|i: int| 0 <= i < ps.len() ==> (#[trigger] ps[i]).len() <= crate::prefix::MAX_PREFIX_LEN,
    ensures
        crate::prefix::max_len(ps) <= 256,
    decreases ps.len(),
{
    if ps.len() > 0 {
        assert forall|i: int| 0 <= i < ps.drop_last().len() implies (#[trigger] ps.drop_last()[i]).len() <= crate::prefix::MAX_PREFIX_LEN by {
            assert(ps.drop_last()[i] == ps[i]);
        }
        lemma_max_len_bound(ps.drop_last());
    }
}

} // verus!
