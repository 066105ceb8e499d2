use vstd::prelude::*;
use crate::name::{Name, Peer};
use crate::prefix::{Prefix, prefix_matches, compatible, covered, prefix_views, max_len};
use crate::elders::{EldersInfo, peer_names};
use crate::sections::better;
use crate::closest::{closest_names, is_closest_selection, lemma_cover_len};
use crate::chain::{Chain, RoutingError, all_elders};
use crate::members::names_of_members;
use crate::delivery_group_size;

verus! {

/// Where a message goes.
#[derive(Clone, Debug)]
pub enum DstLocation {
    /// One node.
    Node(Name),
    /// The section closest to a name.
    Section(Name),
    /// Every section under a prefix.
    Prefix(Prefix),
    /// The peer at the other end of the connection.
    Direct,
}

/// Where a message comes from.
#[derive(Clone, Debug)]
pub enum SrcLocation {
    Node(Name),
    Section(Prefix),
}

/// `ps` are the peers of `info` with these names, in this order.
pub open spec fn peers_with_names(ps: Seq<Peer>, info: EldersInfo, names: Seq<Name>) -> bool {
    peer_names(ps) == names && forall|i: int| 0 <= i < ps.len() ==> info.members@.contains(#[trigger] ps[i])
}

/// The members of `info` other than `n`, in order.
pub open spec fn members_except(info: EldersInfo, n: Name) -> Seq<Peer> {
    info.members@.filter(|p: Peer| p.name != n)
}

/// Known section `k` is one closest to `target`.
pub open spec fn is_closest_section(c: Chain, k: int, target: Name) -> bool {
    0 <= k < c.sections.known().len() && forall|j: int| 0 <= j < c.sections.known().len() ==> !better(
        #[trigger] c.sections.known()[j].prefix@,
        c.sections.known()[k].prefix@,
        target,
    )
}

/// What `candidates` answers when known section `k` is the closest to `target`: all our other
/// elders, closest to the target first, when it is ours; else the `N/3` elders of that section
/// closest to the target.
pub open spec fn candidates_from(c: Chain, k: int, target: Name, r: Result<(Vec<Peer>, usize), RoutingError>) -> bool {
    let info = c.sections.known()[k];
    if k == 0 {
        match r {
            Ok((ps, dg)) => peers_with_names(ps@, info, peer_names(ps@)) && is_closest_selection(
                peer_names(ps@),
                peer_names(info.members@),
                seq![c.our_name],
                target,
                info.members@.len() as int,
            ) && dg == ps@.len() && dg > 0,
            Err(e) => e == RoutingError::CannotRoute && forall|i: int|
                0 <= i < info.members@.len() ==> (#[trigger] info.members@[i]).name == c.our_name,
        }
    } else {
        let dg: int = (info.members@.len() as int + 2) / 3;
        match r {
            Ok((ps, d)) => d == dg && dg > 0 && peers_with_names(ps@, info, peer_names(ps@))
                && is_closest_selection(peer_names(ps@), peer_names(info.members@), Seq::empty(), target, dg)
                && ps@.len() == dg,
            Err(e) => e == RoutingError::CannotRoute && info.members@.len() == 0,
        }
    }
}

/// Some peer is known by this name: a member of our section, or an elder of ours or of a
/// neighbour.
pub open spec fn knows_node(c: Chain, n: Name) -> bool {
    names_of_members(c.members@).contains(n) || c.our_elder_names().contains(n) || exists|j: int|
        0 <= j < c.sections.neighbours_spec().len() && peer_names(
            #[trigger] c.sections.neighbours_spec()[j].members@,
        ).contains(n)
}

/// The peer record held for `n`: the member of our section with that name, else our elder,
/// else the first neighbouring elder with that name.
pub open spec fn p2p_node(c: Chain, n: Name) -> Option<Peer> {
    match crate::members::member_named(c.members@, n, 0) {
        Some(p) => Some(p),
        None => match crate::elders::peer_named(c.sections.our_spec().members@, n, 0) {
            Some(p) => Some(p),
            None => crate::sections::elder_in_sections(c.sections.neighbours_spec(), n, 0),
        },
    }
}

/// `p` is a peer record we hold: a member of our section, or an elder of ours or of a
/// neighbour.
pub open spec fn known_peer(c: Chain, p: Peer) -> bool {
    crate::members::member_peers(c.members@).contains(p) || c.sections.our_spec().members@.contains(p)
        || exists|j: int| 0 <= j < c.sections.neighbours_spec().len()
            && (#[trigger] c.sections.neighbours_spec()[j]).members@.contains(p)
}

/// The prefixes of the known sections.
pub open spec fn known_prefix_views(c: Chain) -> Seq<Seq<bool>> {
    c.sections.known().map_values(|s: EldersInfo| s.prefix@)
}

/// Every elder of the known sections under `p`, other than us.
pub open spec fn prefix_targets(c: Chain, p: Seq<bool>) -> Seq<Peer> {
    all_elders(c.sections.known().filter(|s: EldersInfo| compatible(s.prefix@, p))).filter(
        |x: Peer| x.name != c.our_name,
    )
}

/// The peers of `info` named in `names`, in that order.
fn peers_named(info: &EldersInfo, names: &Vec<Name>) -> (r: Vec<Peer>)
    requires
        forall|i: int| 0 <= i < names@.len() ==> peer_names(info.members@).contains(#[trigger] names@[i]),
    ensures
        peers_with_names(r@, *info, names@),
{
    let mut out: Vec<Peer> = Vec::new();
    let mut i: usize = 0;
    while i < names.len()
        invariant
            i <= names@.len(),
            forall|j: int| 0 <= j < names@.len() ==> peer_names(info.members@).contains(#[trigger] names@[j]),
            peer_names(out@) == names@.subrange(0, i as int),
            forall|j: int| 0 <= j < out@.len() ==> info.members@.contains(#[trigger] out@[j]),
        decreases names@.len() - i,
    {
        let n = names[i];
        assert(peer_names(info.members@).contains(names@[i as int]));
        match info.member(&n) {
            Some(p) => {
                let ghost before = out@;
                out.push(p);
                assert(peer_names(out@) =~= peer_names(before).push(p.name));
                assert(names@.subrange(0, i as int + 1) =~= names@.subrange(0, i as int).push(n));
                assert(peer_names(out@) =~= names@.subrange(0, i as int + 1));
                assert forall|j: int| 0 <= j < out@.len() implies info.members@.contains(#[trigger] out@[j]) by {
                    if j < before.len() {
                        assert(out@[j] == before[j]);
                    }
                }
            },
            None => {
                assert(false);
            },
        }
        i = i + 1;
    }
    assert(names@.subrange(0, names@.len() as int) =~= names@);
    out
}

/// The members of `info` other than `n`.
fn members_without(info: &EldersInfo, n: &Name) -> (r: Vec<Peer>)
    ensures
        r@ == members_except(*info, *n),
{
    let mut out: Vec<Peer> = Vec::new();
    let mut i: usize = 0;
    while i < info.members.len()
        invariant
            i <= info.members@.len(),
            out@ == info.members@.subrange(0, i as int).filter(|p: Peer| p.name != *n),
        decreases info.members@.len() - i,
    {
        proof {
            reveal(Seq::filter);
            assert(info.members@.subrange(0, i as int + 1).drop_last() =~= info.members@.subrange(0, i as int));
        }
        if info.members[i].name != *n {
            out.push(info.members[i]);
        }
        i = i + 1;
        assert(out@ =~= info.members@.subrange(0, i as int).filter(|p: Peer| p.name != *n));
    }
    assert(info.members@.subrange(0, info.members@.len() as int) =~= info.members@);
    out
}

impl Chain {
    /// The peer with this name: a member of our section, or an elder of ours or of a
    /// neighbour.
    pub fn get_p2p_node(&self, name: &Name) -> (r: Option<Peer>)
        ensures
            r.is_some() <==> knows_node(*self, *name),
            r matches Some(p) ==> p.name == *name && known_peer(*self, p),
            r == p2p_node(*self, *name),
    {
        match self.members.find(name) {
            Some(i) => {
                assert(names_of_members(self.members@)[i as int] == *name);
                let p = self.members.get(i).peer;
                assert(crate::members::member_peers(self.members@)[i as int] == p);
                return Some(p);
            },
            None => {},
        }
        match self.sections.our_info().member(name) {
            Some(p) => {
                return Some(p);
            },
            None => {},
        }
        self.sections.get_elder(name)
    }

    /// Where to forward a message for `target` that is not for us: the closest known section;
    /// all our other elders if that is ours, else its `N/3` elders closest to the target.
    pub fn candidates(&self, target: &Name) -> (r: Result<(Vec<Peer>, usize), RoutingError>)
        requires
            self.wf(),
        ensures
            exists|k: int| is_closest_section(*self, k, *target) && candidates_from(*self, k, *target, r),
    {
        let k = self.sections.closest(target);
        assert(is_closest_section(*self, k as int, *target));
        self.candidates_in(k, target)
    }

    fn candidates_in(&self, k: usize, target: &Name) -> (r: Result<(Vec<Peer>, usize), RoutingError>)
        requires
            self.wf(),
            is_closest_section(*self, k as int, *target),
        ensures
            candidates_from(*self, k as int, *target, r),
    {
        let info = self.sections.known_at(k);
        if k == 0 {
            assert(self.sections.known()[0] == self.sections.our_spec());
            let names = info.member_names();
            let mut exclude: Vec<Name> = Vec::new();
            exclude.push(self.our_name);
            assert(exclude@ =~= seq![self.our_name]);
            let chosen = closest_names(&names, target, &exclude, names.len());
            if chosen.len() == 0 {
                proof {
                    assert forall|i: int| 0 <= i < info.members@.len() implies (#[trigger] info.members@[i]).name == self.our_name by {
                        assert(names@[i] == info.members@[i].name);
                        assert(names@.contains(names@[i]));
                        if names@[i] != self.our_name {
                            assert(!exclude@.contains(names@[i]));
                            assert(chosen@.contains(names@[i]));
                        }
                    }
                }
                return Err(RoutingError::CannotRoute);
            }
            let ps = peers_named(info, &chosen);
            let dg = ps.len();
            return Ok((ps, dg));
        }
        let dg = delivery_group_size(info.len());
        if dg == 0 {
            return Err(RoutingError::CannotRoute);
        }
        let names = info.member_names();
        let none: Vec<Name> = Vec::new();
        let chosen = closest_names(&names, target, &none, dg);
        proof {
            assert(none@ =~= Seq::<Name>::empty());
        }
        if chosen.len() < dg {
            proof {
                assert(self.sections.known()[k as int].wf());
                assert(names@.no_duplicates()) by {
                    assert forall|a: int, b: int| 0 <= a < names@.len() && 0 <= b < names@.len() && a != b implies names@[a] != names@[b] by {
                        if a < b {
                            assert(crate::name::name_lt(info.members@[a].name, info.members@[b].name));
                        } else {
                            assert(crate::name::name_lt(info.members@[b].name, info.members@[a].name));
                        }
                    }
                }
                lemma_cover_len(names@, chosen@);
            }
            return Err(RoutingError::CannotRoute);
        }
        let ps = peers_named(info, &chosen);
        Ok((ps, dg))
    }

    /// The peers to send a message for `dst` to, and how many of them must get it. A node
    /// that is not an elder hands everything to our elders. An elder delivers to itself (no
    /// peers), to a known node directly, and otherwise: for a section, to our other elders if
    /// our section is the closest, else onwards as `candidates` says; for a prefix that
    /// overlaps ours, to every other elder of the known sections under it once our knowledge
    /// covers it (else it cannot route), and onwards towards its lowest name otherwise.
    pub fn targets(&self, dst: &DstLocation) -> (r: Result<(Vec<Peer>, usize), RoutingError>)
        requires
            self.wf(),
        ensures
            !self.our_elder_names().contains(self.our_name) ==> (r matches Ok((ps, dg)) && ps@ == self.sections.our_spec().members@ && dg == ps@.len()),
            self.our_elder_names().contains(self.our_name) ==> match dst {
                DstLocation::Node(n) => if *n == self.our_name {
                    (r matches Ok((ps, dg)) && ps@.len() == 0 && dg == 0)
                } else {
                    if knows_node(*self, *n) {
                        (r matches Ok((ps, dg)) && ps@ == seq![p2p_node(*self, *n).unwrap()] && ps@[0].name == *n
                            && known_peer(*self, ps@[0]) && dg == 1)
                    } else {
                        exists|k: int| is_closest_section(*self, k, *n) && candidates_from(*self, k, *n, r)
                    }
                },
                DstLocation::Section(n) => exists|k: int| is_closest_section(*self, k, *n) && if k == 0 {
                    (r matches Ok((ps, dg)) && ps@ == members_except(self.sections.our_spec(), self.our_name) && dg == ps@.len())
                } else {
                    candidates_from(*self, k, *n, r)
                },
                DstLocation::Prefix(p) => if compatible(p@, self.sections.our_spec().prefix@) {
                    let kp = known_prefix_views(*self);
                    if covered(p@, kp, max_len(kp)) {
                        (r matches Ok((ps, dg)) && ps@ == prefix_targets(*self, p@) && dg == ps@.len())
                    } else {
                        r == Err::<(Vec<Peer>, usize), RoutingError>(RoutingError::CannotRoute)
                    }
                } else if p.wf() {
                    exists|t: Name, k: int| prefix_matches(p@, t) && (forall|i: int| p@.len() <= i < 256 ==> !crate::name::name_bit(t, i))
                        && is_closest_section(*self, k, t) && candidates_from(*self, k, t, r)
                } else {
                    r == Err::<(Vec<Peer>, usize), RoutingError>(RoutingError::CannotRoute)
                },
                DstLocation::Direct => r == Err::<(Vec<Peer>, usize), RoutingError>(RoutingError::CannotRoute),
            },
    {
        if !self.is_self_elder() {
            let ps = self.sections.our_info().members.clone();
            let n = ps.len();
            return Ok((ps, n));
        }
        match dst {
            DstLocation::Node(n) => {
                if *n == self.our_name {
                    return Ok((Vec::new(), 0));
                }
                let known = self.get_p2p_node(n);
                assert(known.is_some() == knows_node(*self, *n));
                match known {
                    Some(p) => {
                        let mut v: Vec<Peer> = Vec::new();
                        v.push(p);
                        assert(v@ =~= seq![p]);
                        Ok((v, 1))
                    },
                    None => {
                        let r = self.candidates(n);
                        assert(exists|k: int| is_closest_section(*self, k, *n) && candidates_from(*self, k, *n, r));
                        r
                    },
                }
            },
            DstLocation::Section(n) => {
                let k = self.sections.closest(n);
                if k == 0 {
                    assert(self.sections.known()[0] == self.sections.our_spec());
                    assert(is_closest_section(*self, 0, *n));
                    let ps = members_without(self.sections.our_info(), &self.our_name);
                    let dg = ps.len();
                    let r = Ok((ps, dg));
                    assert(is_closest_section(*self, 0, *n) && (r matches Ok((ps, dg)) && ps@ == members_except(self.sections.our_spec(), self.our_name) && dg == ps@.len()));
                    return r;
                }
                assert(is_closest_section(*self, k as int, *n));
                let r = self.candidates_in(k, n);
                assert(k != 0 && candidates_from(*self, k as int, *n, r));
                r
            },
            DstLocation::Prefix(p) => {
                if p.is_compatible(self.sections.our_prefix()) {
                    let known = self.sections.known_prefixes();
                    assert(prefix_views(known@) =~= known_prefix_views(*self));
                    if !p.is_covered_by(&known) {
                        return Err(RoutingError::CannotRoute);
                    }
                    return Ok(self.elders_under(p));
                }
                if p.bit_count() > crate::prefix::MAX_PREFIX_LEN {
                    return Err(RoutingError::CannotRoute);
                }
                let target = p.lower_bound();
                let r = self.candidates(&target);
                assert(exists|k: int| is_closest_section(*self, k, target) && candidates_from(*self, k, target, r));
                r
            },
            DstLocation::Direct => Err(RoutingError::CannotRoute),
        }
    }
}

impl Chain {
    /// Every elder of the known sections under `p`, other than us, and their number.
    pub fn elders_under(&self, p: &Prefix) -> (r: (Vec<Peer>, usize))
        ensures
            r.0@ == prefix_targets(*self, p@),
            r.1 == r.0@.len(),
    {
        let ghost ks = self.sections.known();
        let ghost keep = |s: EldersInfo| compatible(s.prefix@, p@);
        let ghost drop_us = |x: Peer| x.name != self.our_name;
        let mut out: Vec<Peer> = Vec::new();
        proof {
            reveal(Seq::filter);
            assert(ks.subrange(0, 0).filter(|s: EldersInfo| compatible(s.prefix@, p@)) =~= Seq::<EldersInfo>::empty());
            assert(all_elders(Seq::<EldersInfo>::empty()).filter(|x: Peer| x.name != self.our_name) =~= Seq::<Peer>::empty());
        }
        self.add_elders_under(&mut out, 0, p);
        let total = self.sections.neighbours().len();
        let mut j: usize = 0;
        while j < total
            invariant
                total == self.sections.neighbours_spec().len(),
                ks == self.sections.known(),
                keep == |s: EldersInfo| compatible(s.prefix@, p@),
                drop_us == |x: Peer| x.name != self.our_name,
                j <= total,
                out@ == all_elders(ks.subrange(0, j as int + 1).filter(keep)).filter(drop_us),
            decreases total - j,
        {
            self.add_elders_under(&mut out, j + 1, p);
            j = j + 1;
        }
        assert(ks.subrange(0, ks.len() as int) =~= ks);
        let n = out.len();
        (out, n)
    }

    fn add_elders_under(&self, out: &mut Vec<Peer>, i: usize, p: &Prefix)
        requires
            i < self.sections.known().len(),
            old(out)@ == all_elders(self.sections.known().subrange(0, i as int).filter(|s: EldersInfo| compatible(s.prefix@, p@))).filter(|x: Peer| x.name != self.our_name),
        ensures
            final(out)@ == all_elders(self.sections.known().subrange(0, i as int + 1).filter(|s: EldersInfo| compatible(s.prefix@, p@))).filter(|x: Peer| x.name != self.our_name),
    {
        let ghost ks = self.sections.known();
        let ghost keep = |s: EldersInfo| compatible(s.prefix@, p@);
        let ghost drop_us = |x: Peer| x.name != self.our_name;
        let info = self.sections.known_at(i);
        proof {
            reveal(Seq::filter);
            assert(ks.subrange(0, i as int + 1).drop_last() =~= ks.subrange(0, i as int));
        }
        if info.prefix.is_compatible(p) {
            let more = members_without(info, &self.our_name);
            let ghost start = out@;
            let mut k: usize = 0;
            while k < more.len()
                invariant
                    k <= more@.len(),
                    out@ == start + more@.subrange(0, k as int),
                decreases more@.len() - k,
            {
                out.push(more[k]);
                k = k + 1;
                assert(out@ =~= start + more@.subrange(0, k as int));
            }
            proof {
                assert(more@.subrange(0, more@.len() as int) =~= more@);
                let f = ks.subrange(0, i as int + 1).filter(keep);
                assert(f.drop_last() =~= ks.subrange(0, i as int).filter(keep));
                assert(f.last() == ks[i as int]);
                assert(all_elders(f) == all_elders(f.drop_last()) + ks[i as int].members@);
                Seq::filter_distributes_over_add(all_elders(f.drop_last()), ks[i as int].members@, drop_us);
            }
        } else {
            assert(ks.subrange(0, i as int + 1).filter(keep) =~= ks.subrange(0, i as int).filter(keep));
        }
    }
}

/// `t` is the name the destination is about: the node's or section's name, or the lowest
/// name under the prefix.
pub open spec fn about(dst: DstLocation, t: Name) -> bool {
    match dst {
        DstLocation::Node(n) => t == n,
        DstLocation::Section(n) => t == n,
        DstLocation::Prefix(p) => prefix_matches(p@, t) && forall|i: int|
            p@.len() <= i < 256 ==> !crate::name::name_bit(t, i),
        DstLocation::Direct => false,
    }
}

impl Chain {
    /// Our elders that collect the signatures for a message to `dst`: the `N/3` closest to the
    /// name it is about; none for a direct message.
    pub fn signature_targets(&self, dst: &DstLocation) -> (r: Vec<Peer>)
        requires
            self.wf(),
        ensures
            match dst {
                DstLocation::Direct => r@.len() == 0,
                DstLocation::Prefix(p) if !p.wf() => r@.len() == 0,
                _ => exists|t: Name| #[trigger] about(*dst, t) && peers_with_names(r@, self.sections.our_spec(), peer_names(r@)) && is_closest_selection(
                    peer_names(r@),
                    self.our_elder_names(),
                    Seq::empty(),
                    t,
                    (self.our_elder_names().len() as int + 2) / 3,
                ),
            },
    {
        let target = match dst {
            DstLocation::Node(n) => *n,
            DstLocation::Section(n) => *n,
            DstLocation::Prefix(p) => {
                if p.bit_count() > crate::prefix::MAX_PREFIX_LEN {
                    return Vec::new();
                }
                p.lower_bound()
            },
            DstLocation::Direct => {
                return Vec::new();
            },
        };
        let our = self.sections.our_info();
        let names = our.member_names();
        let none: Vec<Name> = Vec::new();
        proof {
            assert(none@ =~= Seq::<Name>::empty());
        }
        let chosen = closest_names(&names, &target, &none, delivery_group_size(names.len()));
        let r = peers_named(our, &chosen);
        assert(about(*dst, target));
        r
    }

    /// Whether we are part of the source.
    pub fn in_src_location(&self, src: &SrcLocation) -> (r: bool)
        ensures
            r == match src {
                SrcLocation::Node(n) => *n == self.our_name,
                SrcLocation::Section(p) => p.wf() && prefix_matches(p@, self.our_name),
            },
    {
        match src {
            SrcLocation::Node(n) => *n == self.our_name,
            SrcLocation::Section(p) => p.bit_count() <= crate::prefix::MAX_PREFIX_LEN && p.matches(&self.our_name),
        }
    }

    /// Whether we are part of the destination.
    pub fn in_dst_location(&self, dst: &DstLocation) -> (r: bool)
        requires
            self.wf(),
        ensures
            r == match dst {
                DstLocation::Node(n) => *n == self.our_name,
                DstLocation::Section(n) => prefix_matches(self.sections.our_spec().prefix@, *n),
                DstLocation::Prefix(p) => compatible(self.sections.our_spec().prefix@, p@),
                DstLocation::Direct => true,
            },
    {
        assert(self.sections.known()[0] == self.sections.our_spec());
        match dst {
            DstLocation::Node(n) => *n == self.our_name,
            DstLocation::Section(n) => self.sections.our_prefix().matches(n),
            DstLocation::Prefix(p) => self.sections.our_prefix().is_compatible(p),
            DstLocation::Direct => true,
        }
    }

    /// The elders of the known section with exactly this prefix.
    pub fn get_section(&self, pfx: &Prefix) -> (r: Option<&EldersInfo>)
        ensures
            r matches Some(info) ==> info.prefix@ == pfx@ && (*info == self.sections.our_spec() || self.sections.neighbours_spec().contains(*info)),
            r.is_none() ==> self.sections.our_spec().prefix@ != pfx@ && forall|j: int| 0 <= j < self.sections.neighbours_spec().len() ==> (#[trigger] self.sections.neighbours_spec()[j]).prefix@ != pfx@,
    {
        if *self.sections.our_prefix() == *pfx {
            return Some(self.sections.our_info());
        }
        let nbs = self.sections.neighbours();
        let mut i: usize = 0;
        while i < nbs.len()
            invariant
                nbs@ == self.sections.neighbours_spec(),
                i <= nbs@.len(),
                forall|j: int| 0 <= j < i ==> (#[trigger] nbs@[j]).prefix@ != pfx@,
            decreases nbs@.len() - i,
        {
            if nbs[i].prefix == *pfx {
                assert(nbs@.contains(nbs@[i as int]));
                return Some(&nbs[i]);
            }
            i = i + 1;
        }
        None
    }

    /// The names of our elders, if our section is the one for `name`.
    pub fn close_names(&self, name: &Name) -> (r: Option<Vec<Name>>)
        requires
            self.wf(),
        ensures
            prefix_matches(self.sections.our_spec().prefix@, *name) ==> (r matches Some(v) && v@ == self.our_elder_names()),
            !prefix_matches(self.sections.our_spec().prefix@, *name) ==> r.is_none(),
    {
        assert(self.sections.known()[0] == self.sections.our_spec());
        if self.sections.our_prefix().matches(name) {
            Some(self.sections.our_info().member_names())
        } else {
            None
        }
    }
}

/// The elders of a neighbouring section never lie under our prefix: none of them is us, or a
/// member of our section.
pub proof fn lemma_neighbour_elders_outside_ours(c: Chain, j: int, i: int)
    requires
        c.wf(),
        0 <= j < c.sections.neighbours_spec().len(),
        0 <= i < c.sections.neighbours_spec()[j].members@.len(),
    ensures
        !prefix_matches(c.sections.our_spec().prefix@, c.sections.neighbours_spec()[j].members@[i].name),
        c.sections.neighbours_spec()[j].members@[i].name != c.our_name,
        !names_of_members(c.members@).contains(c.sections.neighbours_spec()[j].members@[i].name),
{
    let nb = c.sections.neighbours_spec()[j];
    let our = c.sections.our_spec();
    let n = nb.members@[i].name;
    assert(c.sections.known()[j + 1] == nb);
    assert(c.sections.known()[0] == our);
    assert(nb.wf());
    assert(prefix_matches(nb.prefix@, n));
    assert(!compatible(our.prefix@, nb.prefix@));
    if prefix_matches(our.prefix@, n) {
        if our.prefix@.len() <= nb.prefix@.len() {
            assert(crate::prefix::is_prefix_of(our.prefix@, nb.prefix@));
        } else {
            assert(crate::prefix::is_prefix_of(nb.prefix@, our.prefix@));
        }
    }
    if names_of_members(c.members@).contains(n) {
        let k = choose|k: int| 0 <= k < c.members@.len() && names_of_members(c.members@)[k] == n;
        assert(prefix_matches(our.prefix@, c.members@[k].peer.name));
    }
}

} // verus!
