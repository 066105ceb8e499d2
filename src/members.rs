use vstd::prelude::*;
use crate::name::{Name, Peer, name_lt};
use crate::prefix::{Prefix, prefix_matches};
use crate::elders::sorted_by_name;

verus! {

/// Age from which a member counts as an adult.
pub const MIN_ADULT_AGE: u8 = 4;

/// Largest age of a node in the first section.
pub const FIRST_SECTION_MAX_AGE: u8 = 90;

#[derive(Clone, Copy, Debug, PartialEq, Eq, Structural)]
pub enum MemberState {
    Joined,
    Relocating,
    Left,
}

/// A member of our section.
#[derive(Clone, Copy, Debug, PartialEq, Eq, Structural)]
pub struct MemberInfo {
    pub peer: Peer,
    pub age: u8,
    pub state: MemberState,
}

pub open spec fn member_peers(ms: Seq<MemberInfo>) -> Seq<Peer> {
    ms.map_values(|m: MemberInfo| m.peer)
}

/// Strictly ascending by name.
pub open spec fn members_sorted(ms: Seq<MemberInfo>) -> bool {
    forall|i: int, j: int| 0 <= i < j < ms.len() ==> name_lt(ms[i].peer.name, ms[j].peer.name)
}

/// A joined member older than an adult's first age.
pub open spec fn is_mature(m: MemberInfo) -> bool {
    m.state == MemberState::Joined && m.age > MIN_ADULT_AGE
}

/// `m` may be chosen as an elder: it is joined, or it is relocating and one of the current
/// elders, who stay while no one else can take their place.
pub open spec fn in_pool(m: MemberInfo, elders: Seq<Name>) -> bool {
    m.state == MemberState::Joined || (m.state == MemberState::Relocating && elders.contains(
        m.peer.name,
    ))
}

/// `a` is a better elder candidate than `b`: joined before relocating, then older, then the
/// lower name.
pub open spec fn elder_before(a: MemberInfo, b: MemberInfo) -> bool {
    let ja = a.state == MemberState::Joined;
    let jb = b.state == MemberState::Joined;
    (ja && !jb) || (ja == jb && (a.age > b.age || (a.age == b.age && name_lt(
        a.peer.name,
        b.peer.name,
    ))))
}

/// `m` is a candidate: in the pool and, if a prefix is given, under it.
pub open spec fn candidate(m: MemberInfo, elders: Seq<Name>, p: Option<Seq<bool>>) -> bool {
    in_pool(m, elders) && match p {
        Some(bits) => prefix_matches(bits, m.peer.name),
        None => true,
    }
}

/// Number of candidates among `ms` that are better than `m`.
pub open spec fn rank(ms: Seq<MemberInfo>, m: MemberInfo, elders: Seq<Name>, p: Option<Seq<bool>>) -> nat
    decreases ms.len(),
{
    if ms.len() == 0 {
        0
    } else {
        rank(ms.drop_last(), m, elders, p) + if candidate(ms.last(), elders, p) && elder_before(
            ms.last(),
            m,
        ) {
            1nat
        } else {
            0nat
        }
    }
}

/// The `k` best candidates, in the members' (name) order.
pub open spec fn elder_candidates(ms: Seq<MemberInfo>, elders: Seq<Name>, p: Option<Seq<bool>>, k: nat) -> Seq<Peer> {
    member_peers(ms.filter(|m: MemberInfo| candidate(m, elders, p) && rank(ms, m, elders, p) < k))
}

/// Number of mature members under `p` whose name has, right after `p`, the bit `bit`.
pub open spec fn mature_count(ms: Seq<MemberInfo>, p: Seq<bool>, bit: bool) -> nat
    decreases ms.len(),
{
    if ms.len() == 0 {
        0
    } else {
        mature_count(ms.drop_last(), p, bit) + if is_mature(ms.last()) && prefix_matches(p.push(bit), ms.last().peer.name) {
            1nat
        } else {
            0nat
        }
    }
}

/// Every member's name lies under the prefix.
pub open spec fn members_under(ms: Seq<MemberInfo>, p: Seq<bool>) -> bool {
    forall|i: int| 0 <= i < ms.len() ==> prefix_matches(p, #[trigger] ms[i].peer.name)
}

/// Elder candidates are members, so they lie under any prefix all members lie under.
pub proof fn lemma_candidates_under(ms: Seq<MemberInfo>, elders: Seq<Name>, pv: Option<Seq<bool>>, k: nat, p: Seq<bool>)
    requires
        members_under(ms, p),
    ensures
        crate::elders::all_under(elder_candidates(ms, elders, pv, k), p),
{
    let pred = |m: MemberInfo| candidate(m, elders, pv) && rank(ms, m, elders, pv) < k;
    let f = ms.filter(pred);
    assert forall|i: int| 0 <= i < f.len() implies prefix_matches(p, #[trigger] f[i].peer.name) by {
        assert(f.contains(f[i]));
        ms.lemma_filter_contains_rev(pred, f[i]);
    }
    assert forall|i: int| 0 <= i < elder_candidates(ms, elders, pv, k).len() implies prefix_matches(p,
        #[trigger] elder_candidates(ms, elders, pv, k)[i].name) by {
        assert(elder_candidates(ms, elders, pv, k)[i] == f[i].peer);
    }
}

/// The peer of the first member named `n` from position `i` on.
pub open spec fn member_named(ms: Seq<MemberInfo>, n: Name, i: int) -> Option<Peer>
    decreases ms.len() - i,
{
    if i < 0 || i >= ms.len() {
        None
    } else if ms[i].peer.name == n {
        Some(ms[i].peer)
    } else {
        member_named(ms, n, i + 1)
    }
}

/// The section's members, sorted by name.
pub struct MembersTable {
    members: Vec<MemberInfo>,
}

impl View for MembersTable {
    type V = Seq<MemberInfo>;

    closed spec fn view(&self) -> Seq<MemberInfo> {
        self.members@
    }
}

/// `x` is one of the first `n` entries of `s`.
pub open spec fn occurs_before(s: Seq<MemberInfo>, x: MemberInfo, n: int) -> bool {
    exists|j: int| 0 <= j < n && x == #[trigger] s[j]
}

/// `x` is the peer of one of the first `n` entries of `s`.
pub open spec fn peer_occurs_before(s: Seq<MemberInfo>, x: Peer, n: int) -> bool {
    exists|j: int| 0 <= j < n && x == #[trigger] s[j].peer
}

pub open spec fn names_of_members(ms: Seq<MemberInfo>) -> Seq<Name> {
    ms.map_values(|m: MemberInfo| m.peer.name)
}

impl MembersTable {
    pub open spec fn wf(&self) -> bool {
        members_sorted(self@)
    }

    pub fn new() -> (r: MembersTable)
        ensures
            r.wf(),
            r@.len() == 0,
    {
        MembersTable { members: Vec::new() }
    }

    pub fn len(&self) -> (r: usize)
        ensures
            r == self@.len(),
    {
        self.members.len()
    }

    pub fn get(&self, i: usize) -> (r: MemberInfo)
        requires
            i < self@.len(),
        ensures
            r == self@[i as int],
    {
        self.members[i]
    }

    /// Position of the member with name `n`, if any.
    pub fn find(&self, n: &Name) -> (r: Option<usize>)
        ensures
            match r {
                Some(i) => i < self@.len() && self@[i as int].peer.name == *n
                    && member_named(self@, *n, 0) == Some(self@[i as int].peer),
                None => !names_of_members(self@).contains(*n) && member_named(self@, *n, 0).is_none(),
            },
    {
        let mut i: usize = 0;
        while i < self.members.len()
            invariant
                i <= self@.len(),
                forall|j: int| 0 <= j < i ==> self@[j].peer.name != *n,
                member_named(self@, *n, 0) == member_named(self@, *n, i as int),
            decreases self@.len() - i,
        {
            if self.members[i].peer.name == *n {
                return Some(i);
            }
            i = i + 1;
        }
        None
    }

    /// Adds a joined member, keeping the table sorted. A name already present is left alone.
    /// Returns whether it was added.
    pub fn add(&mut self, peer: Peer, age: u8) -> (r: bool)
        requires
            old(self).wf(),
        ensures
            final(self).wf(),
            r == !names_of_members(old(self)@).contains(peer.name),
            r ==> exists|i: int| 0 <= i <= old(self)@.len() && final(self)@ == old(self)@.insert(i, MemberInfo { peer, age, state: MemberState::Joined }),
            !r ==> final(self)@ == old(self)@,
            forall|p: Seq<bool>| #[trigger] members_under(old(self)@, p) && prefix_matches(p, peer.name) ==> members_under(final(self)@, p),
    {
        match self.find(&peer.name) {
            Some(k) => {
                assert(names_of_members(self@)[k as int] == peer.name);
                return false;
            },
            None => {},
        }
        let mut i: usize = 0;
        while i < self.members.len() && self.members[i].peer.name.less_than(&peer.name)
            invariant
                i <= self@.len(),
                forall|j: int| 0 <= j < i ==> name_lt(self@[j].peer.name, peer.name),
            decreases self@.len() - i,
        {
            i = i + 1;
        }
        let m = MemberInfo { peer, age, state: MemberState::Joined };
        let ghost before = self@;
        proof {
            if i < before.len() {
                assert(names_of_members(before)[i as int] == before[i as int].peer.name);
                assert(before[i as int].peer.name != peer.name);
                assert(!name_lt(before[i as int].peer.name, peer.name));
            }
        }
        self.members.insert(i, m);
        proof {
            assert forall|p: Seq<bool>| #[trigger] members_under(before, p) && prefix_matches(p, peer.name) implies members_under(self@, p) by {
                assert forall|a: int| 0 <= a < self@.len() implies prefix_matches(p, #[trigger] self@[a].peer.name) by {
                    if a < i {
                        assert(self@[a] == before[a]);
                    } else if a > i {
                        assert(self@[a] == before[a - 1]);
                    }
                }
            }
            assert(self@ == before.insert(i as int, m));
            assert forall|a: int, b: int| 0 <= a < b < self@.len() implies name_lt(self@[a].peer.name, self@[b].peer.name) by {
                if b < i {
                } else if b == i {
                    assert(self@[a] == before[a]);
                } else if a == i {
                    assert(self@[b] == before[b - 1]);
                    if b - 1 > i {
                        assert(name_lt(before[i as int].peer.name, before[b - 1].peer.name));
                    }
                } else if a < i {
                    assert(self@[a] == before[a]);
                    assert(self@[b] == before[b - 1]);
                } else {
                    assert(self@[a] == before[a - 1]);
                    assert(self@[b] == before[b - 1]);
                }
            }
        }
        true
    }

    /// Sets the state of member `i`.
    pub fn set_state(&mut self, i: usize, state: MemberState)
        requires
            old(self).wf(),
            i < old(self)@.len(),
        ensures
            final(self).wf(),
            final(self)@ == old(self)@.update(i as int, MemberInfo { state, ..old(self)@[i as int] }),
            forall|p: Seq<bool>| #[trigger] members_under(old(self)@, p) ==> members_under(final(self)@, p),
    {
        let mut m = self.members[i];
        m.state = state;
        self.members.set(i, m);
        assert forall|p: Seq<bool>| #[trigger] members_under(old(self)@, p) implies members_under(self@, p) by {
            assert forall|a: int| 0 <= a < self@.len() implies prefix_matches(p, #[trigger] self@[a].peer.name) by {
                assert(self@[a].peer.name == old(self)@[a].peer.name);
            }
        }
    }

    /// Removes the members whose names are not under `p`.
    pub fn retain_matching(&mut self, p: &Prefix)
        requires
            old(self).wf(),
            p.wf(),
        ensures
            final(self).wf(),
            final(self)@ == old(self)@.filter(|m: MemberInfo| prefix_matches(p@, m.peer.name)),
            members_under(final(self)@, p@),
    {
        let ghost orig = self@;
        let ghost keep = |m: MemberInfo| prefix_matches(p@, m.peer.name);
        let mut out: Vec<MemberInfo> = Vec::new();
        let mut i: usize = 0;
        while i < self.members.len()
            invariant
                self@ == orig,
                keep == |m: MemberInfo| prefix_matches(p@, m.peer.name),
                p.wf(),
                members_sorted(orig),
                i <= orig.len(),
                out@ == orig.subrange(0, i as int).filter(keep),
                members_sorted(out@),
                forall|k: int| 0 <= k < out@.len() ==> occurs_before(orig, #[trigger] out@[k], i as int),
            decreases orig.len() - i,
        {
            let m = self.members[i];
            proof {
                reveal(Seq::filter);
                assert(orig.subrange(0, i as int + 1).drop_last() =~= orig.subrange(0, i as int));
            }
            if p.matches(&m.peer.name) {
                let ghost before = out@;
                out.push(m);
                proof {
                    assert forall|a: int, b: int| 0 <= a < b < out@.len() implies name_lt(out@[a].peer.name, out@[b].peer.name) by {
                        if b == before.len() {
                            assert(out@[a] == before[a]);
                            assert(occurs_before(orig, before[a], i as int));
                            let j = choose|j: int| 0 <= j < i && before[a] == #[trigger] orig[j];
                        } else {
                            assert(out@[a] == before[a] && out@[b] == before[b]);
                        }
                    }
                    assert forall|k: int| 0 <= k < out@.len() implies occurs_before(orig, #[trigger] out@[k], i + 1) by {
                        if k < before.len() {
                            assert(out@[k] == before[k]);
                            assert(occurs_before(orig, before[k], i as int));
                            let j = choose|j: int| 0 <= j < i && before[k] == #[trigger] orig[j];
                            assert(out@[k] == orig[j]);
                        } else {
                            assert(out@[k] == orig[i as int]);
                            assert(occurs_before(orig, out@[k], i + 1));
                        }
                    }
                }
            }
            i = i + 1;
            assert(out@ =~= orig.subrange(0, i as int).filter(keep));
        }
        assert(orig.subrange(0, orig.len() as int) =~= orig);
        self.members = out;
        assert forall|a: int| 0 <= a < self@.len() implies prefix_matches(p@, #[trigger] self@[a].peer.name) by {
            orig.lemma_filter_pred(keep, a);
        }
    }

    /// Counts the mature members under `p` extended by `bit`.
    pub fn count_mature(&self, p: &Prefix, bit: bool) -> (r: usize)
        requires
            p.wf(),
            p@.len() < 256,
        ensures
            r == mature_count(self@, p@, bit),
    {
        let child = p.pushed(bit);
        let mut c: usize = 0;
        let mut i: usize = 0;
        while i < self.members.len()
            invariant
                i <= self@.len(),
                child@ == p@.push(bit),
                child.wf(),
                c == mature_count(self@.subrange(0, i as int), p@, bit),
                c <= i,
            decreases self@.len() - i,
        {
            let m = self.members[i];
            assert(self@.subrange(0, i as int + 1).drop_last() =~= self@.subrange(0, i as int));
            if m.state == MemberState::Joined && m.age > MIN_ADULT_AGE && child.matches(&m.peer.name) {
                c = c + 1;
            }
            i = i + 1;
        }
        assert(self@.subrange(0, self@.len() as int) =~= self@);
        c
    }

    /// The `k` best elder candidates under `p` (anywhere without one), sorted by name. A
    /// relocating member is a candidate only while it is one of `elders`.
    pub fn elder_candidates(&self, elders: &Vec<Name>, p: Option<&Prefix>, k: usize) -> (r: Vec<Peer>)
        requires
            self.wf(),
            p matches Some(q) ==> q.wf(),
        ensures
            r@ == elder_candidates(self@, elders@, match p { Some(q) => Some(q@), None => None }, k as nat),
            sorted_by_name(r@),
    {
        let ghost pv = match p { Some(q) => Some(q@), None => None::<Seq<bool>> };
        let ghost sel = |m: MemberInfo| candidate(m, elders@, pv) && rank(self@, m, elders@, pv) < k;
        let mut out: Vec<Peer> = Vec::new();
        let mut i: usize = 0;
        while i < self.members.len()
            invariant
                self.wf(),
                p matches Some(q) ==> q.wf(),
                pv == match p { Some(q) => Some(q@), None => None::<Seq<bool>> },
                sel == |m: MemberInfo| candidate(m, elders@, pv) && rank(self@, m, elders@, pv) < k,
                i <= self@.len(),
                out@ == member_peers(self@.subrange(0, i as int).filter(sel)),
                sorted_by_name(out@),
                forall|a: int| 0 <= a < out@.len() ==> peer_occurs_before(self@, #[trigger] out@[a], i as int),
            decreases self@.len() - i,
        {
            let m = self.members[i];
            proof {
                reveal(Seq::filter);
                assert(self@.subrange(0, i as int + 1).drop_last() =~= self@.subrange(0, i as int));
            }
            let c = self.is_candidate(&m, elders, p);
            let take = c && self.rank_of(&m, elders, p) < k;
            if take {
                let ghost before = out@;
                out.push(m.peer);
                proof {
                    assert forall|a: int, b: int| 0 <= a < b < out@.len() implies name_lt(out@[a].name, out@[b].name) by {
                        if b == before.len() {
                            assert(out@[a] == before[a]);
                            assert(peer_occurs_before(self@, before[a], i as int));
                            let j = choose|j: int| 0 <= j < i && before[a] == #[trigger] self@[j].peer;
                        } else {
                            assert(out@[a] == before[a] && out@[b] == before[b]);
                        }
                    }
                    assert forall|a: int| 0 <= a < out@.len() implies peer_occurs_before(self@, #[trigger] out@[a], i + 1) by {
                        if a < before.len() {
                            assert(out@[a] == before[a]);
                            assert(peer_occurs_before(self@, before[a], i as int));
                            let j = choose|j: int| 0 <= j < i && before[a] == #[trigger] self@[j].peer;
                            assert(out@[a] == self@[j].peer);
                        } else {
                            assert(out@[a] == self@[i as int].peer);
                            assert(peer_occurs_before(self@, out@[a], i + 1));
                        }
                    }
                }
            }
            i = i + 1;
            assert(out@ =~= member_peers(self@.subrange(0, i as int).filter(sel)));
        }
        assert(self@.subrange(0, self@.len() as int) =~= self@);
        out
    }

    fn is_candidate(&self, m: &MemberInfo, elders: &Vec<Name>, p: Option<&Prefix>) -> (r: bool)
        requires
            p matches Some(q) ==> q.wf(),
        ensures
            r == candidate(*m, elders@, match p { Some(q) => Some(q@), None => None }),
    {
        let pool = match m.state {
            MemberState::Joined => true,
            MemberState::Relocating => crate::capacity::contains_name(elders, &m.peer.name),
            MemberState::Left => false,
        };
        pool && match p {
            Some(q) => q.matches(&m.peer.name),
            None => true,
        }
    }

    fn rank_of(&self, m: &MemberInfo, elders: &Vec<Name>, p: Option<&Prefix>) -> (r: usize)
        requires
            p matches Some(q) ==> q.wf(),
        ensures
            r == rank(self@, *m, elders@, match p { Some(q) => Some(q@), None => None }),
    {
        let mut c: usize = 0;
        let mut i: usize = 0;
        while i < self.members.len()
            invariant
                p matches Some(q) ==> q.wf(),
                i <= self@.len(),
                c == rank(self@.subrange(0, i as int), *m, elders@, match p { Some(q) => Some(q@), None => None }),
                c <= i,
            decreases self@.len() - i,
        {
            let o = self.members[i];
            assert(self@.subrange(0, i as int + 1).drop_last() =~= self@.subrange(0, i as int));
            let oj = o.state == MemberState::Joined;
            let mj = m.state == MemberState::Joined;
            let before = (oj && !mj) || (oj == mj && (o.age > m.age || (o.age == m.age && o.peer.name.less_than(&m.peer.name))));
            if self.is_candidate(&o, elders, p) && before {
                c = c + 1;
            }
            i = i + 1;
        }
        assert(self@.subrange(0, self@.len() as int) =~= self@);
        c
    }
}

} // verus!
