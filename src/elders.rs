use vstd::prelude::*;
use crate::name::{Name, Peer, name_lt};
use crate::prefix::{Prefix, extends, compatible, prefix_matches};
use crate::capacity::contains_name;

verus! {

/// Number of elders of a section.
pub const ELDER_COUNT: usize = 7;

/// Number of mature members each half of a section needs before it splits.
pub const SAFE_SECTION_SIZE: usize = 8;

/// The elders of a section at one version.
#[derive(Clone, Debug)]
pub struct EldersInfo {
    pub prefix: Prefix,
    pub members: Vec<Peer>,
    pub version: u64,
}

pub open spec fn peer_names(ps: Seq<Peer>) -> Seq<Name> {
    ps.map_values(|p: Peer| p.name)
}

/// Strictly ascending by name.
pub open spec fn sorted_by_name(ps: Seq<Peer>) -> bool {
    forall|i: int, j: int| 0 <= i < j < ps.len() ==> name_lt(ps[i].name, ps[j].name)
}

/// Every peer's name lies under the prefix.
pub open spec fn all_under(ps: Seq<Peer>, p: Seq<bool>) -> bool {
    forall|i: int| 0 <= i < ps.len() ==> prefix_matches(p, #[trigger] ps[i].name)
}

/// The first peer named `n` from position `i` on.
pub open spec fn peer_named(ps: Seq<Peer>, n: Name, i: int) -> Option<Peer>
    decreases ps.len() - i,
{
    if i < 0 || i >= ps.len() {
        None
    } else if ps[i].name == n {
        Some(ps[i])
    } else {
        peer_named(ps, n, i + 1)
    }
}

/// Same prefix, members and version.
pub open spec fn same_info(a: EldersInfo, b: EldersInfo) -> bool {
    a.prefix@ == b.prefix@ && a.members@ == b.members@ && a.version == b.version
}

/// Number of members that voted.
pub open spec fn votes_of(ps: Seq<Peer>, voters: Seq<Name>) -> nat
    decreases ps.len(),
{
    if ps.len() == 0 {
        0
    } else {
        votes_of(ps.drop_last(), voters) + if voters.contains(ps.last().name) {
            1nat
        } else {
            0nat
        }
    }
}

/// More than two thirds of the elders voted.
pub open spec fn quorum(ps: Seq<Peer>, voters: Seq<Name>) -> bool {
    3 * votes_of(ps, voters) > 2 * ps.len()
}

/// `new` follows `old`: the next version, for the same prefix or one of its two halves.
pub open spec fn successor(new: EldersInfo, old: EldersInfo) -> bool {
    new.version == old.version + 1 && (new.prefix@ == old.prefix@ || (extends(new.prefix@, old.prefix@)
        && new.prefix@.len() == old.prefix@.len() + 1))
}

impl EldersInfo {
    /// Members are sorted by name, at most `ELDER_COUNT` of them, under a valid prefix.
    pub open spec fn wf(&self) -> bool {
        self.prefix.wf() && sorted_by_name(self.members@) && self.members@.len() <= ELDER_COUNT
            && all_under(self.members@, self.prefix@)
    }

    /// Elders for `prefix`: version 0 without a predecessor, else the one after it.
    /// Refused when the members are not sorted by name or too many, or the version would
    /// overflow.
    pub fn new(members: Vec<Peer>, prefix: Prefix, prev: Option<&EldersInfo>) -> (r: Option<
        EldersInfo,
    >)
        requires
            prefix.wf(),
        ensures
            r.is_some() <==> (sorted_by_name(members@) && members@.len() <= ELDER_COUNT && all_under(members@, prefix@) && match prev {
                Some(p) => p.version < u64::MAX,
                None => true,
            }),
            r matches Some(info) ==> info.wf() && info.members@ == members@ && info.prefix@
                == prefix@ && info.version == match prev {
                Some(p) => p.version + 1,
                None => 0,
            },
    {
        if members.len() > ELDER_COUNT {
            return None;
        }
        let mut i: usize = 1;
        while i < members.len()
            invariant
                members@.len() <= ELDER_COUNT,
                1 <= i,
                forall|a: int, b: int| 0 <= a < b < i && b < members@.len() ==> name_lt(members@[a].name, members@[b].name),
            decreases members@.len() - i,
        {
            if !members[i - 1].name.less_than(&members[i].name) {
                return None;
            }
            assert forall|a: int, b: int| 0 <= a < b < i + 1 && b < members@.len() implies name_lt(
                members@[a].name,
                members@[b].name,
            ) by {
                if b == i && a < i - 1 {
                    assert(name_lt(members@[a].name, members@[i - 1].name));
                }
            }
            i = i + 1;
        }
        let mut j: usize = 0;
        while j < members.len()
            invariant
                prefix.wf(),
                j <= members@.len(),
                forall|a: int| 0 <= a < j ==> prefix_matches(prefix@, #[trigger] members@[a].name),
            decreases members@.len() - j,
        {
            if !prefix.matches(&members[j].name) {
                return None;
            }
            j = j + 1;
        }
        let version = match prev {
            Some(p) => {
                if p.version == u64::MAX {
                    return None;
                }
                p.version + 1
            },
            None => 0,
        };
        Some(EldersInfo { prefix, members, version })
    }

    /// A copy with the same prefix, members and version.
    pub fn duplicate(&self) -> (r: EldersInfo)
        ensures
            same_info(r, *self),
    {
        EldersInfo {
            prefix: Prefix { bits: self.prefix.bits.clone() },
            members: self.members.clone(),
            version: self.version,
        }
    }

    pub fn len(&self) -> (r: usize)
        ensures
            r == self.members@.len(),
    {
        self.members.len()
    }

    pub fn member_names(&self) -> (r: Vec<Name>)
        ensures
            r@ == peer_names(self.members@),
    {
        let mut out: Vec<Name> = Vec::new();
        let mut i: usize = 0;
        while i < self.members.len()
            invariant
                i <= self.members@.len(),
                out@ == peer_names(self.members@.subrange(0, i as int)),
            decreases self.members@.len() - i,
        {
            out.push(self.members[i].name);
            i = i + 1;
            assert(out@ =~= peer_names(self.members@.subrange(0, i as int)));
        }
        assert(self.members@.subrange(0, self.members@.len() as int) =~= self.members@);
        out
    }

    /// The member with the given name, if any.
    pub fn member(&self, name: &Name) -> (r: Option<Peer>)
        ensures
            r.is_some() <==> peer_names(self.members@).contains(*name),
            r matches Some(p) ==> self.members@.contains(p) && p.name == *name,
            r == peer_named(self.members@, *name, 0),
    {
        let mut i: usize = 0;
        while i < self.members.len()
            invariant
                i <= self.members@.len(),
                forall|j: int| 0 <= j < i ==> self.members@[j].name != *name,
                peer_named(self.members@, *name, 0) == peer_named(self.members@, *name, i as int),
            decreases self.members@.len() - i,
        {
            if self.members[i].name == *name {
                assert(peer_names(self.members@)[i as int] == *name);
                return Some(self.members[i]);
            }
            i = i + 1;
        }
        None
    }

    pub fn is_member(&self, name: &Name) -> (r: bool)
        ensures
            r == peer_names(self.members@).contains(*name),
    {
        self.member(name).is_some()
    }

    /// Whether more than two thirds of the elders are among `voters`.
    pub fn is_quorum(&self, voters: &Vec<Name>) -> (r: bool)
        ensures
            r == quorum(self.members@, voters@),
    {
        let c = self.count_votes(voters);
        3 * (c as u128) > 2 * (self.members.len() as u128)
    }

    /// Whether every elder is among `voters`.
    pub fn is_total_consensus(&self, voters: &Vec<Name>) -> (r: bool)
        ensures
            r == (votes_of(self.members@, voters@) == self.members@.len()),
    {
        self.count_votes(voters) == self.members.len()
    }

    fn count_votes(&self, voters: &Vec<Name>) -> (r: usize)
        ensures
            r == votes_of(self.members@, voters@),
            r <= self.members@.len(),
    {
        let mut c: usize = 0;
        let mut i: usize = 0;
        while i < self.members.len()
            invariant
                i <= self.members@.len(),
                c == votes_of(self.members@.subrange(0, i as int), voters@),
                c <= i,
            decreases self.members@.len() - i,
        {
            assert(self.members@.subrange(0, i as int + 1).drop_last() =~= self.members@.subrange(0, i as int));
            if contains_name(voters, &self.members[i].name) {
                c = c + 1;
            }
            i = i + 1;
        }
        assert(self.members@.subrange(0, self.members@.len() as int) =~= self.members@);
        c
    }

    /// Whether this is the next version after `prev`, for the same prefix or one of its halves.
    pub fn is_successor_of(&self, prev: &EldersInfo) -> (r: bool)
        ensures
            r == successor(*self, *prev),
    {
        prev.version < u64::MAX && self.version == prev.version + 1 && (self.prefix == prev.prefix
            || (self.prefix.is_extension_of(&prev.prefix) && self.prefix.bit_count()
            == prev.prefix.bit_count() + 1))
    }
}

/// Two consecutive elder sets of one section: the version goes up by one.
pub proof fn lemma_successor_version(new: EldersInfo, old: EldersInfo)
    requires
        successor(new, old),
    ensures
        new.version == old.version + 1,
        compatible(new.prefix@, old.prefix@),
{
}

} // verus!
