use vstd::prelude::*;
use crate::name::{Name, Peer, name_bit};
use crate::prefix::{Prefix, extends, prefix_matches, compatible};
use crate::elders::{EldersInfo, ELDER_COUNT, SAFE_SECTION_SIZE, peer_names, quorum, votes_of, successor, same_info};
use crate::sections::{SectionMap, info_is_wf};
use crate::section_chain::{SectionChain, KEY_LEN};
use crate::members::{MembersTable, MemberState, MemberInfo, elder_candidates, mature_count, names_of_members};
use crate::capacity::contains_name;

verus! {

/// Where and how a member is to be relocated.
#[derive(Clone, Copy, Debug, PartialEq, Eq, Structural)]
pub struct RelocateDetails {
    pub pub_id: Name,
    pub destination: Name,
    pub age: u8,
}

/// What a completed key generation gave this node: the new section key and, for a
/// participant, its secret share.
#[derive(Clone, Debug)]
pub struct DkgResult {
    pub public_key: Vec<u8>,
    pub secret_key_share: Option<Vec<u8>>,
}

/// A key generation result, filed under the name of the first participant.
#[derive(Clone, Debug)]
pub struct DkgEntry {
    pub first: Name,
    pub result: DkgResult,
}

/// Our secret share of the section key and its position among the elders.
#[derive(Clone, Debug)]
pub struct SectionKeyShare {
    pub index: usize,
    pub key: Vec<u8>,
}

/// The section key and, for an elder, our share of it.
#[derive(Clone, Debug)]
pub struct SectionKeys {
    pub public_key: Vec<u8>,
    pub secret_key_share: Option<SectionKeyShare>,
}

/// An event that the elders vote on.
#[derive(Clone, Debug)]
pub enum AccumulatingEvent {
    Online { peer: Peer, age: u8 },
    Offline(Name),
    Relocate(RelocateDetails),
    RelocatePrepare(RelocateDetails, u32),
    /// New elders of our section, with the new section key signed by the current one.
    SectionInfo { info: EldersInfo, key: Vec<u8>, key_sig: Vec<u8> },
    NeighbourInfo(EldersInfo),
    TheirKeyInfo { prefix: Prefix, key: Vec<u8> },
    AckMessage { src_prefix: Prefix, ack_version: u64 },
    SendAckMessage { src_prefix: Prefix, ack_version: u64 },
    ParsecPrune,
    StartDkg(Vec<Name>),
    User(Vec<u8>),
}

/// Elders of other sections that appeared or went away with an event.
#[derive(Clone, Debug)]
pub struct EldersChange {
    pub neighbour_added: Vec<Peer>,
    pub neighbour_removed: Vec<Peer>,
}

/// An event the elders agreed on.
#[derive(Clone, Debug)]
pub struct AccumulatedEvent {
    pub content: AccumulatingEvent,
    pub elders_change: EldersChange,
}

/// An event being voted on, with the elders that voted for it so far.
#[derive(Clone, Debug)]
pub struct PendingEvent {
    pub id: u64,
    pub event: AccumulatingEvent,
    pub voters: Vec<Name>,
}

/// The outcome of a poll.
#[derive(Debug)]
pub enum PollAccumulated {
    AccumulatedEvent(AccumulatedEvent),
    RelocateDetails(RelocateDetails),
    PromoteDemoteElders(Vec<EldersInfo>),
}

/// What a fresh consensus instance starts from after a reset: our elders, our section key,
/// the ages of our members, and the votes carried over.
#[derive(Debug)]
pub struct ParsecResetData {
    pub elders_info: EldersInfo,
    pub public_key: Vec<u8>,
    pub ages: Vec<(Name, u8)>,
    pub parsec_version: u64,
    /// Events whose votes are not enough yet, to be voted for again.
    pub cached_events: Vec<PendingEvent>,
    /// Events whose votes are enough.
    pub completed_events: Vec<PendingEvent>,
}

/// Why a change to the section was refused.
#[derive(Clone, Copy, Debug, PartialEq, Eq, Structural)]
pub enum RoutingError {
    /// The new elders do not follow ours, or their key is not signed by our current key.
    InvalidNewSectionInfo,
    /// No key generation result matches the new elders.
    InvalidElderDkgResult,
    /// The elders would shrink below `ELDER_COUNT` after having reached it: sections never
    /// merge.
    MergeNotSupported,
    /// No known peer can take the message.
    CannotRoute,
}

/// Why a vote was not recorded.
#[derive(Clone, Copy, Debug, PartialEq, Eq, Structural)]
pub enum InsertError {
    /// The voter already voted for this event.
    AlreadyVoted,
    /// Key generation is started outside the vote.
    StartDkgNotAccepted,
    /// Another event was already voted on under this id.
    ReplacedAlreadyInserted,
}

/// The half of a split buffered until its sibling arrives.
#[derive(Debug)]
pub struct SplitCache {
    pub info: EldersInfo,
    pub key: Vec<u8>,
    pub key_sig: Vec<u8>,
}

/// The event is the joining of `n`.
pub open spec fn online_for(e: AccumulatingEvent, n: Name) -> bool {
    match e {
        AccumulatingEvent::Online { peer, .. } => peer.name == n,
        _ => false,
    }
}

/// The two events carry the same values.
pub open spec fn same_event(a: AccumulatingEvent, b: AccumulatingEvent) -> bool {
    match (a, b) {
        (AccumulatingEvent::Online { peer: p1, age: a1 }, AccumulatingEvent::Online { peer: p2, age: a2 }) => p1 == p2 && a1 == a2,
        (AccumulatingEvent::Offline(n1), AccumulatingEvent::Offline(n2)) => n1 == n2,
        (AccumulatingEvent::Relocate(d1), AccumulatingEvent::Relocate(d2)) => d1 == d2,
        (AccumulatingEvent::RelocatePrepare(d1, c1), AccumulatingEvent::RelocatePrepare(d2, c2)) => d1 == d2 && c1 == c2,
        (AccumulatingEvent::SectionInfo { info: i1, key: k1, key_sig: s1 }, AccumulatingEvent::SectionInfo { info: i2, key: k2, key_sig: s2 }) =>
            same_info(i1, i2) && k1@ == k2@ && s1@ == s2@,
        (AccumulatingEvent::NeighbourInfo(i1), AccumulatingEvent::NeighbourInfo(i2)) => same_info(i1, i2),
        (AccumulatingEvent::TheirKeyInfo { prefix: p1, key: k1 }, AccumulatingEvent::TheirKeyInfo { prefix: p2, key: k2 }) => p1@ == p2@ && k1@ == k2@,
        (AccumulatingEvent::AckMessage { src_prefix: p1, ack_version: v1 }, AccumulatingEvent::AckMessage { src_prefix: p2, ack_version: v2 }) => p1@ == p2@ && v1 == v2,
        (AccumulatingEvent::SendAckMessage { src_prefix: p1, ack_version: v1 }, AccumulatingEvent::SendAckMessage { src_prefix: p2, ack_version: v2 }) => p1@ == p2@ && v1 == v2,
        (AccumulatingEvent::ParsecPrune, AccumulatingEvent::ParsecPrune) => true,
        (AccumulatingEvent::StartDkg(n1), AccumulatingEvent::StartDkg(n2)) => n1@ == n2@,
        (AccumulatingEvent::User(b1), AccumulatingEvent::User(b2)) => b1@ == b2@,
        _ => false,
    }
}

/// Membership changes: joins, leaves and relocations.
pub open spec fn is_churn(e: AccumulatingEvent) -> bool {
    e is Online || e is Offline || e is Relocate
}

/// Relocation queue after taking the next relocation from its back: members that are no
/// longer members are dropped, and an elder is left in place (and nothing is taken).
pub open spec fn pick_relocation(q: Seq<RelocateDetails>, members: Seq<Name>, elders: Seq<Name>) -> (
    Option<RelocateDetails>,
    Seq<RelocateDetails>,
)
    decreases q.len(),
{
    if q.len() == 0 {
        (None, q)
    } else if !members.contains(q.last().pub_id) {
        pick_relocation(q.drop_last(), members, elders)
    } else if elders.contains(q.last().pub_id) {
        (None, q)
    } else {
        (Some(q.last()), q.drop_last())
    }
}

/// The key generation result filed under `n`: the first entry for it.
pub open spec fn dkg_for(keys: Seq<DkgEntry>, n: Name, i: int) -> Option<DkgResult>
    decreases keys.len() - i,
{
    if i < 0 || i >= keys.len() {
        None
    } else if keys[i].first == n {
        Some(keys[i].result)
    } else {
        dkg_for(keys, n, i + 1)
    }
}

proof fn lemma_dkg_for_prefix(keys: Seq<DkgEntry>, n: Name, k: int)
    requires
        0 <= k < keys.len(),
        keys[k].first == n,
        forall|j: int| 0 <= j < k ==> keys[j].first != n,
    ensures
        dkg_for(keys, n, 0) == Some(keys[k].result),
{
    lemma_dkg_for_from(keys, n, 0, k);
}

proof fn lemma_dkg_for_from(keys: Seq<DkgEntry>, n: Name, i: int, k: int)
    requires
        0 <= i <= k < keys.len(),
        keys[k].first == n,
        forall|j: int| 0 <= j < k ==> keys[j].first != n,
    ensures
        dkg_for(keys, n, i) == Some(keys[k].result),
    decreases k - i,
{
    if i < k {
        lemma_dkg_for_from(keys, n, i + 1, k);
    }
}

/// A key generation result matches the elders: it is filed under the first of them and its
/// key is `key`.
pub open spec fn dkg_matches(keys: Seq<DkgEntry>, info: EldersInfo, key: Seq<u8>) -> bool {
    info.members@.len() > 0 && match dkg_for(keys, info.members@[0].name, 0) {
        Some(res) => res.public_key@ == key,
        None => false,
    }
}

/// New elders `info` with section key `key`, signed `sig` by our current key, can be committed.
pub open spec fn commit_ok(c: Chain, info: EldersInfo, key: Seq<u8>, sig: Seq<u8>) -> bool {
    info.wf() && successor(info, c.sections.our_spec()) && prefix_matches(info.prefix@, c.our_name)
        && dkg_matches(c.new_section_bls_keys@, info, key) && key.len() == KEY_LEN && sig.len() == crate::section_chain::SIG_LEN
        && crate::section_chain::bls_verifies(c.history.last_key_spec(), sig, key)
}

/// New elders that follow ours, whose key is signed by our current key, but for which no key
/// generation result matches.
pub open spec fn dkg_refused(c: Chain, info: EldersInfo, key: Seq<u8>, sig: Seq<u8>) -> bool {
    info.wf() && successor(info, c.sections.our_spec()) && prefix_matches(info.prefix@, c.our_name)
        && key.len() == KEY_LEN && sig.len() == crate::section_chain::SIG_LEN
        && crate::section_chain::bls_verifies(c.history.last_key_spec(), sig, key)
        && !dkg_matches(c.new_section_bls_keys@, info, key)
}

/// `new` is `old` with `info` committed as our elders, `key` (signed `sig`) appended to the
/// history and made our key, churn ended, and members outside the new prefix dropped.
pub open spec fn committed_ours(old: Chain, new: Chain, info: EldersInfo, key: Seq<u8>, sig: Vec<u8>) -> bool {
    &&& new.sections.our_spec() == info
    &&& new.history.blocks_spec().drop_last() == old.history.blocks_spec()
    &&& new.history.blocks_spec().len() == old.history.blocks_spec().len() + 1
    &&& new.history.last_key_spec() == key
    &&& new.history.blocks_spec().last().sig == sig
    &&& new.our_section_bls_keys.public_key@ == key
    &&& !new.churn_in_progress
    &&& new.new_section_bls_keys@.len() == 0
    &&& new.members@ == old.members@.filter(|m: MemberInfo| prefix_matches(info.prefix@, m.peer.name))
}

/// The neighbours of `new` are those of `old` that do not overlap `p`.
pub open spec fn pruned_for(old: Chain, new: Chain, p: Seq<bool>) -> bool {
    forall|x: EldersInfo| #[trigger] new.sections.neighbours_spec().contains(x) <==> (
        old.sections.neighbours_spec().contains(x) && !compatible(x.prefix@, p))
}

/// After our elders moved to prefix `p`, the neighbours of `new` are those of `old` that do
/// not overlap `p`, with `other` learnt as `add_neighbour` does.
pub open spec fn sibling_learnt(old: Chain, new: Chain, p: Seq<bool>, other: EldersInfo) -> bool {
    let accepted = other.wf() && !compatible(other.prefix@, p) && forall|x: EldersInfo|
        #[trigger] old.sections.neighbours_spec().contains(x) && !compatible(x.prefix@, p)
            && compatible(x.prefix@, other.prefix@) ==> x.version < other.version;
    forall|x: EldersInfo| #[trigger] new.sections.neighbours_spec().contains(x) <==> if accepted {
        x == other || (old.sections.neighbours_spec().contains(x) && !compatible(x.prefix@, p)
            && !compatible(x.prefix@, other.prefix@))
    } else {
        old.sections.neighbours_spec().contains(x) && !compatible(x.prefix@, p)
    }
}

proof fn lemma_sibling_learnt(old: Chain, mid: Chain, new: Chain, p: Seq<bool>, other: EldersInfo, accepted: bool)
    requires
        pruned_for(old, mid, p),
        mid.sections.our_spec().prefix@ == p,
        accepted == (other.wf() && !compatible(other.prefix@, mid.sections.our_spec().prefix@) && forall|x: EldersInfo|
            #[trigger] mid.sections.neighbours_spec().contains(x) && compatible(x.prefix@, other.prefix@)
                ==> x.version < other.version),
        accepted ==> forall|x: EldersInfo| #[trigger] new.sections.neighbours_spec().contains(x) <==> (x
            == other || (mid.sections.neighbours_spec().contains(x) && !compatible(x.prefix@, other.prefix@))),
        !accepted ==> new.sections.neighbours_spec() == mid.sections.neighbours_spec(),
    ensures
        sibling_learnt(old, new, p, other),
{
    let acc2 = other.wf() && !compatible(other.prefix@, p) && forall|x: EldersInfo|
        #[trigger] old.sections.neighbours_spec().contains(x) && !compatible(x.prefix@, p)
            && compatible(x.prefix@, other.prefix@) ==> x.version < other.version;
    assert(accepted == acc2) by {
        if accepted {
            assert forall|x: EldersInfo| #[trigger] old.sections.neighbours_spec().contains(x) && !compatible(x.prefix@, p)
                && compatible(x.prefix@, other.prefix@) implies x.version < other.version by {
                assert(mid.sections.neighbours_spec().contains(x));
            }
        }
        if acc2 {
            assert forall|x: EldersInfo| #[trigger] mid.sections.neighbours_spec().contains(x) && compatible(x.prefix@, other.prefix@)
                implies x.version < other.version by {
                assert(old.sections.neighbours_spec().contains(x));
            }
        }
    }
}

/// The outcome of `add_elders_info(info, key, key_sig)` from `old` to `new` with result `r`:
/// elders of our own prefix are committed as `do_add_elders_info` does; the first half of a
/// split is kept until its sibling arrives; then the half our name lies in is committed and
/// the other one learnt as a neighbour.
pub open spec fn elders_info_added(old: Chain, new: Chain, info: EldersInfo, key: Vec<u8>, key_sig: Vec<u8>, r: Result<bool, RoutingError>) -> bool {
    &&& !extends(info.prefix@, old.sections.our_spec().prefix@) ==> {
        &&& r is Ok <==> commit_ok(old, info, key@, key_sig@)
        &&& r == Err::<bool, RoutingError>(RoutingError::InvalidElderDkgResult) <==> dkg_refused(old, info, key@, key_sig@)
        &&& r is Ok ==> r == Ok::<bool, RoutingError>(true) && committed_ours(old, new, info, key@, key_sig)
            && pruned_for(old, new, info.prefix@)
        &&& r is Err ==> commit_untouched(old, new)
        &&& new.split_cache == old.split_cache
    }
    &&& extends(info.prefix@, old.sections.our_spec().prefix@) && old.split_cache.is_none() ==>
        r == Ok::<bool, RoutingError>(false) && new.split_cache == Some(SplitCache { info, key, key_sig })
        && commit_untouched(old, new)
    &&& extends(info.prefix@, old.sections.our_spec().prefix@) && old.split_cache.is_some() ==> {
        let c = old.split_cache.unwrap();
        let cache_ours = c.info.prefix.wf() && prefix_matches(c.info.prefix@, old.our_name);
        let oi = if cache_ours { c.info } else { info };
        let ok = if cache_ours { c.key } else { key };
        let os = if cache_ours { c.key_sig } else { key_sig };
        let other = if cache_ours { info } else { c.info };
        &&& new.split_cache.is_none()
        &&& r is Ok <==> commit_ok(old, oi, ok@, os@)
        &&& r == Err::<bool, RoutingError>(RoutingError::InvalidElderDkgResult) <==> dkg_refused(old, oi, ok@, os@)
        &&& r is Ok ==> r == Ok::<bool, RoutingError>(true) && committed_ours(old, new, oi, ok@, os)
            && sibling_learnt(old, new, oi.prefix@, other)
        &&& r is Err ==> commit_untouched(old, new)
    }
}

/// The reported change in neighbouring elders is the difference between `old` and `new`.
pub open spec fn elders_change_between(old: Chain, new: Chain, ch: EldersChange) -> bool {
    ch.neighbour_added@ == peers_minus(all_elders(new.sections.neighbours_spec()), all_elders(old.sections.neighbours_spec()))
        && ch.neighbour_removed@ == peers_minus(all_elders(old.sections.neighbours_spec()), all_elders(new.sections.neighbours_spec()))
}

/// `new` learnt the neighbour `info` from `old` as `SectionMap::add_neighbour` does.
pub open spec fn neighbour_learnt(old: Chain, new: Chain, info: EldersInfo) -> bool {
    let accepted = info.wf() && !compatible(info.prefix@, old.sections.our_spec().prefix@) && forall|x: EldersInfo|
        #[trigger] old.sections.neighbours_spec().contains(x) && compatible(x.prefix@, info.prefix@)
            ==> x.version < info.version;
    &&& new.sections.our_spec() == old.sections.our_spec()
    &&& accepted ==> forall|x: EldersInfo| #[trigger] new.sections.neighbours_spec().contains(x) <==> (x == info
        || (old.sections.neighbours_spec().contains(x) && !compatible(x.prefix@, info.prefix@)))
    &&& !accepted ==> new.sections.neighbours_spec() == old.sections.neighbours_spec()
}

/// The oldest backlogged churn event is taken first.
pub open spec fn backlog_due(c: Chain) -> bool {
    c.can_poll_churn_spec() && c.churn_event_backlog@.len() > 0
}

/// Membership calls for no new elders to vote for.
pub open spec fn promote_quiet(c: Chain) -> bool {
    !(c.members_changed && c.can_poll_churn_spec()) || (!split_due(c) && expected_elders(c)
        == c.sections.our_spec().members@)
}

/// No relocation is taken.
pub open spec fn relocation_quiet(c: Chain) -> bool {
    !c.can_poll_churn_spec() || c.churn_event_backlog@.len() > 0 || pick_relocation(
        c.relocate_queue@,
        names_of_members(c.members@),
        c.our_elder_names(),
    ).0.is_none()
}

/// Pending event `i` is the first whose votes are enough to act on.
pub open spec fn first_valid(c: Chain, i: int) -> bool {
    0 <= i < c.accumulator@.len() && valid_transition(c, c.accumulator@[i].event, c.accumulator@[i].voters@)
        && forall|j: int| 0 <= j < i ==> !valid_transition(c, (#[trigger] c.accumulator@[j]).event, c.accumulator@[j].voters@)
}

/// Whether a poll committed new elders (`Ok(true)`), kept half a split (`Ok(false)`), or failed.
pub open spec fn commit_flag(r: Result<Option<PollAccumulated>, RoutingError>) -> Result<bool, RoutingError> {
    match r {
        Ok(Some(_)) => Ok(true),
        Ok(None) => Ok(false),
        Err(x) => Err(x),
    }
}

/// What a poll does with the first pending event whose votes are enough, from `old` to `new`.
pub open spec fn agreed_event_handled(old: Chain, new: Chain, ev: AccumulatingEvent, r: Result<Option<PollAccumulated>, RoutingError>) -> bool {
    match ev {
        AccumulatingEvent::SectionInfo { info, key, key_sig } => elders_info_added(old, new, info, key, key_sig, commit_flag(r))
            && (r matches Ok(Some(p)) ==> (p matches PollAccumulated::AccumulatedEvent(e) && (e.content matches
                AccumulatingEvent::SectionInfo { info: i2, .. } && same_info(i2, info)))),
        AccumulatingEvent::NeighbourInfo(info) => neighbour_learnt(old, new, info) && (r matches Ok(Some(
            PollAccumulated::AccumulatedEvent(e),
        )) && (e.content matches AccumulatingEvent::NeighbourInfo(i2) && same_info(i2, info))),
        AccumulatingEvent::ParsecPrune => if old.churn_in_progress {
            r == Ok::<Option<PollAccumulated>, RoutingError>(None)
        } else {
            r matches Ok(Some(PollAccumulated::AccumulatedEvent(e))) && e.content is ParsecPrune
        },
        _ => if is_churn(ev) && !old.can_poll_churn_spec() {
            r == Ok::<Option<PollAccumulated>, RoutingError>(None) && new.churn_event_backlog@.len()
                == old.churn_event_backlog@.len() + 1 && new.churn_event_backlog@[0].content == ev
                && new.churn_event_backlog@.subrange(1, new.churn_event_backlog@.len() as int) == old.churn_event_backlog@
        } else {
            r matches Ok(Some(PollAccumulated::AccumulatedEvent(e))) && e.content == ev
        },
    }
}

/// Nothing that a refused commit may touch changed.
pub open spec fn commit_untouched(old: Chain, new: Chain) -> bool {
    new.sections == old.sections && new.history.blocks_spec() == old.history.blocks_spec()
        && new.members == old.members && new.churn_in_progress == old.churn_in_progress
        && new.new_section_bls_keys@ == old.new_section_bls_keys@
        && new.our_section_bls_keys == old.our_section_bls_keys
}

/// The elder set that membership calls for: up to `ELDER_COUNT` best candidates.
pub open spec fn expected_elders(c: Chain) -> Seq<Peer> {
    elder_candidates(c.members@, c.our_elder_names(), None, ELDER_COUNT as nat)
}

/// Bit of our name right after our prefix: the half of a split we stay in.
pub open spec fn split_bit(c: Chain) -> bool {
    name_bit(c.our_name, c.sections.our_spec().prefix@.len() as int)
}

/// Both halves of our section would have `SAFE_SECTION_SIZE` mature members.
pub open spec fn split_due(c: Chain) -> bool {
    let p = c.sections.our_spec().prefix@;
    p.len() < 256 && mature_count(c.members@, p, split_bit(c)) >= SAFE_SECTION_SIZE
        && mature_count(c.members@, p, !split_bit(c)) >= SAFE_SECTION_SIZE
}

/// Elders for the half of our section whose prefix is ours followed by `bit`.
pub open spec fn split_half(c: Chain, info: EldersInfo, bit: bool) -> bool {
    let p = c.sections.our_spec().prefix@.push(bit);
    info.prefix@ == p && info.version == c.sections.our_spec().version + 1 && info.members@
        == elder_candidates(c.members@, c.our_elder_names(), Some(p), ELDER_COUNT as nat)
}

/// The votes for an event are enough to act on it.
pub open spec fn valid_transition(c: Chain, e: AccumulatingEvent, voters: Seq<Name>) -> bool {
    let our = c.sections.our_spec();
    match e {
        AccumulatingEvent::SectionInfo { info, .. } => quorum(our.members@, voters) && successor(info, our),
        AccumulatingEvent::NeighbourInfo(info) => quorum(our.members@, voters) && forall|j: int|
            0 <= j < c.sections.neighbours_spec().len() && compatible(
                #[trigger] c.sections.neighbours_spec()[j].prefix@,
                info.prefix@,
            ) ==> c.sections.neighbours_spec()[j].version + 1 == info.version,
        AccumulatingEvent::SendAckMessage { .. } => votes_of(our.members@, voters) == our.members@.len(),
        AccumulatingEvent::StartDkg(_) => false,
        _ => quorum(our.members@, voters),
    }
}

/// Position of the first pending event with this id, from position `i` on; -1 if none.
pub open spec fn find_id(acc: Seq<PendingEvent>, id: u64, i: int) -> int
    decreases acc.len() - i,
{
    if i < 0 || i >= acc.len() {
        -1
    } else if acc[i].id == id {
        i
    } else {
        find_id(acc, id, i + 1)
    }
}

/// The elders of all the given sections, section by section.
pub open spec fn all_elders(ss: Seq<EldersInfo>) -> Seq<Peer>
    decreases ss.len(),
{
    if ss.len() == 0 {
        Seq::empty()
    } else {
        all_elders(ss.drop_last()) + ss.last().members@
    }
}

/// The elders of `a` that are not in `b`.
pub open spec fn peers_minus(a: Seq<Peer>, b: Seq<Peer>) -> Seq<Peer> {
    a.filter(|p: Peer| !b.contains(p))
}

/// The state of our section as this node sees it, and the decisions on it.
pub struct Chain {
    pub our_name: Name,
    pub sections: SectionMap,
    pub members: MembersTable,
    pub history: SectionChain,
    pub our_section_bls_keys: SectionKeys,
    pub accumulator: Vec<PendingEvent>,
    pub churn_in_progress: bool,
    pub members_changed: bool,
    pub handled_genesis_event: bool,
    /// Churn events waiting for the current churn to end; the back is the oldest.
    pub churn_event_backlog: Vec<AccumulatedEvent>,
    /// Relocations to vote for; taken from the back.
    pub relocate_queue: Vec<RelocateDetails>,
    pub new_section_bls_keys: Vec<DkgEntry>,
    pub split_cache: Option<SplitCache>,
}

impl Chain {
    pub open spec fn wf(&self) -> bool {
        &&& self.sections.wf()
        &&& self.members.wf()
        &&& self.history.wf()
        &&& prefix_matches(self.sections.our_spec().prefix@, self.our_name)
        &&& crate::members::members_under(self.members@, self.sections.our_spec().prefix@)
    }

    pub open spec fn can_poll_churn_spec(&self) -> bool {
        self.handled_genesis_event && !self.churn_in_progress
    }

    pub open spec fn our_elder_names(&self) -> Seq<Name> {
        peer_names(self.sections.our_spec().members@)
    }

    /// A chain for a section with the given genesis elders and section key; `members` are
    /// its first members.
    pub fn new(our_name: Name, genesis: EldersInfo, genesis_key: Vec<u8>, secret_key_share: Option<Vec<u8>>, members: Vec<MemberInfo>) -> (r: Option<Chain>)
        requires
            genesis.wf(),
        ensures
            r.is_some() == (genesis_key@.len() == KEY_LEN && prefix_matches(genesis.prefix@, our_name)),
            r matches Some(c) ==> c.wf() && c.sections.our_spec() == genesis
                && c.history.last_key_spec() == genesis_key@
                && !c.churn_in_progress && !c.members_changed && !c.handled_genesis_event
                && c.churn_event_backlog@.len() == 0 && c.relocate_queue@.len() == 0
                && c.accumulator@.len() == 0 && c.split_cache.is_none()
                && forall|i: int| 0 <= i < members@.len() && prefix_matches(genesis.prefix@, members@[i].peer.name)
                    ==> names_of_members(c.members@).contains(#[trigger] members@[i].peer.name),
    {
        if genesis.prefix.bits.len() > crate::prefix::MAX_PREFIX_LEN || !genesis.prefix.matches(&our_name) {
            return None;
        }
        let history = match SectionChain::new(genesis_key.clone()) {
            Some(h) => h,
            None => {
                return None;
            },
        };
        let share = match secret_key_share {
            Some(key) => match position_of(&genesis, &our_name) {
                Some(index) => Some(SectionKeyShare { index, key }),
                None => None,
            },
            None => None,
        };
        let mut table = MembersTable::new();
        let mut i: usize = 0;
        while i < members.len()
            invariant
                table.wf(),
                genesis.wf(),
                i <= members@.len(),
                crate::members::members_under(table@, genesis.prefix@),
                forall|j: int| 0 <= j < i && prefix_matches(genesis.prefix@, members@[j].peer.name)
                    ==> names_of_members(table@).contains(#[trigger] members@[j].peer.name),
            decreases members@.len() - i,
        {
            let m = members[i];
            if !genesis.prefix.matches(&m.peer.name) {
                i = i + 1;
                continue;
            }
            let ghost before = table@;
            let added = table.add(m.peer, m.age);
            proof {
                assert forall|j: int| 0 <= j < i + 1 && prefix_matches(genesis.prefix@, members@[j].peer.name)
                    implies names_of_members(table@).contains(#[trigger] members@[j].peer.name) by {
                    if added {
                        let k = choose|k: int| 0 <= k <= before.len() && table@ == before.insert(k, MemberInfo { peer: m.peer, age: m.age, state: MemberState::Joined });
                        if j < i {
                            let q = choose|q: int| 0 <= q < before.len() && names_of_members(before)[q] == members@[j].peer.name;
                            let q2 = if q < k { q } else { q + 1 };
                            assert(names_of_members(table@)[q2] == members@[j].peer.name);
                        } else {
                            assert(names_of_members(table@)[k] == m.peer.name);
                        }
                    }
                }
            }
            i = i + 1;
        }
        Some(Chain {
            our_name,
            sections: SectionMap::new(genesis),
            members: table,
            history,
            our_section_bls_keys: SectionKeys { public_key: genesis_key, secret_key_share: share },
            accumulator: Vec::new(),
            churn_in_progress: false,
            members_changed: false,
            handled_genesis_event: false,
            churn_event_backlog: Vec::new(),
            relocate_queue: Vec::new(),
            new_section_bls_keys: Vec::new(),
            split_cache: None,
        })
    }

    /// Whether a churn event may be taken up now: the genesis event was handled and no churn is
    /// in progress.
    pub fn can_poll_churn(&self) -> (r: bool)
        ensures
            r == self.can_poll_churn_spec(),
    {
        self.handled_genesis_event && !self.churn_in_progress
    }

    /// The genesis event was agreed on: churn may start, and membership is looked at again.
    pub fn handle_genesis_event(&mut self)
        ensures
            final(self).handled_genesis_event,
            final(self).members_changed,
            final(self).churn_in_progress == old(self).churn_in_progress,
            final(self).churn_event_backlog@ == old(self).churn_event_backlog@,
            final(self).relocate_queue@ == old(self).relocate_queue@,
            final(self).sections == old(self).sections,
            final(self).members == old(self).members,
            final(self).history == old(self).history,
    {
        self.members_changed = true;
        self.handled_genesis_event = true;
    }

    /// Files a completed key generation under its first participant. Returns whether it
    /// replaced an earlier result for the same participant.
    pub fn handle_dkg_result_event(&mut self, participants: &Vec<Name>, dkg_result: DkgResult) -> (r: bool)
        ensures
            participants@.len() == 0 ==> !r && final(self).new_section_bls_keys@ == old(self).new_section_bls_keys@,
            participants@.len() > 0 ==> exists|i: int| 0 <= i < final(self).new_section_bls_keys@.len()
                && final(self).new_section_bls_keys@[i].first == participants@[0],
            r == (participants@.len() > 0 && exists|i: int| 0 <= i < old(self).new_section_bls_keys@.len()
                && old(self).new_section_bls_keys@[i].first == participants@[0]),
            participants@.len() > 0 ==> dkg_for(final(self).new_section_bls_keys@, participants@[0], 0) == Some(dkg_result),
            final(self).sections == old(self).sections,
            final(self).members == old(self).members,
            final(self).history == old(self).history,
            final(self).churn_in_progress == old(self).churn_in_progress,
    {
        if participants.len() == 0 {
            return false;
        }
        let first = participants[0];
        let mut i: usize = 0;
        while i < self.new_section_bls_keys.len()
            invariant
                participants@.len() > 0,
                first == participants@[0],
                i <= self.new_section_bls_keys@.len(),
                self.new_section_bls_keys@ == old(self).new_section_bls_keys@,
                forall|j: int| 0 <= j < i ==> self.new_section_bls_keys@[j].first != first,
                dkg_for(self.new_section_bls_keys@, first, 0) == dkg_for(self.new_section_bls_keys@, first, i as int),
                self.sections == old(self).sections,
                self.members == old(self).members,
                self.history == old(self).history,
                self.churn_in_progress == old(self).churn_in_progress,
            decreases self.new_section_bls_keys@.len() - i,
        {
            if self.new_section_bls_keys[i].first == first {
                let ghost before = self.new_section_bls_keys@;
                self.new_section_bls_keys.set(i, DkgEntry { first, result: dkg_result });
                proof {
                    lemma_dkg_for_prefix(self.new_section_bls_keys@, first, i as int);
                }
                assert(self.new_section_bls_keys@[i as int].first == participants@[0]);
                return true;
            }
            i = i + 1;
        }
        let ghost n = self.new_section_bls_keys@.len();
        self.new_section_bls_keys.push(DkgEntry { first, result: dkg_result });
        proof {
            lemma_dkg_for_prefix(self.new_section_bls_keys@, first, n as int);
        }
        assert(self.new_section_bls_keys@[self.new_section_bls_keys@.len() - 1].first == participants@[0]);
        false
    }

    /// Takes the oldest backlogged churn event, when churn may be taken up.
    pub fn poll_churn_event_backlog(&mut self) -> (r: Option<AccumulatedEvent>)
        ensures
            old(self).can_poll_churn_spec() && old(self).churn_event_backlog@.len() > 0 ==> r == Some(old(self).churn_event_backlog@.last())
                && final(self).churn_event_backlog@ == old(self).churn_event_backlog@.drop_last(),
            !(old(self).can_poll_churn_spec() && old(self).churn_event_backlog@.len() > 0) ==> r.is_none()
                && *final(self) == *old(self),
            final(self).churn_in_progress == old(self).churn_in_progress,
            final(self).handled_genesis_event == old(self).handled_genesis_event,
            final(self).members_changed == old(self).members_changed,
            final(self).relocate_queue@ == old(self).relocate_queue@,
            final(self).sections == old(self).sections,
            final(self).members == old(self).members,
            final(self).history == old(self).history,
            final(self).our_name == old(self).our_name,
    {
        if self.can_poll_churn() && self.churn_event_backlog.len() > 0 {
            return self.churn_event_backlog.pop();
        }
        None
    }

    /// A churn event that cannot be taken up now is put at the front of the backlog (and
    /// `None` returned); any other event is handed back.
    pub fn check_ready_or_backlog_churn_event(&mut self, event: AccumulatedEvent) -> (r: Option<AccumulatedEvent>)
        ensures
            is_churn(event.content) && !old(self).can_poll_churn_spec() ==> r.is_none()
                && final(self).churn_event_backlog@ == seq![event] + old(self).churn_event_backlog@,
            !(is_churn(event.content) && !old(self).can_poll_churn_spec()) ==> r == Some(event)
                && final(self).churn_event_backlog@ == old(self).churn_event_backlog@,
            final(self).churn_in_progress == old(self).churn_in_progress,
            final(self).handled_genesis_event == old(self).handled_genesis_event,
            final(self).members_changed == old(self).members_changed,
            final(self).relocate_queue@ == old(self).relocate_queue@,
            final(self).sections == old(self).sections,
            final(self).members == old(self).members,
            final(self).history == old(self).history,
            final(self).accumulator == old(self).accumulator,
            final(self).split_cache == old(self).split_cache,
            final(self).new_section_bls_keys == old(self).new_section_bls_keys,
            final(self).our_section_bls_keys == old(self).our_section_bls_keys,
            final(self).our_name == old(self).our_name,
            final(self).new_section_bls_keys == old(self).new_section_bls_keys,
    {
        let churn = match &event.content {
            AccumulatingEvent::Online { .. } | AccumulatingEvent::Offline(_) | AccumulatingEvent::Relocate(_) => true,
            _ => false,
        };
        if churn && !self.can_poll_churn() {
            self.churn_event_backlog.insert(0, event);
            assert(self.churn_event_backlog@ =~= seq![event] + old(self).churn_event_backlog@);
            return None;
        }
        Some(event)
    }

    /// Whether an `Online` event for `name` waits in the backlog.
    pub fn is_in_online_backlog(&self, name: &Name) -> (r: bool)
        ensures
            r == exists|i: int| 0 <= i < self.churn_event_backlog@.len() && online_for((#[trigger] self.churn_event_backlog@[i]).content, *name),
    {
        let mut i: usize = 0;
        while i < self.churn_event_backlog.len()
            invariant
                i <= self.churn_event_backlog@.len(),
                forall|j: int| 0 <= j < i ==> !online_for((#[trigger] self.churn_event_backlog@[j]).content, *name),
            decreases self.churn_event_backlog@.len() - i,
        {
            match &self.churn_event_backlog[i].content {
                AccumulatingEvent::Online { peer, .. } => {
                    if peer.name == *name {
                        assert(online_for(self.churn_event_backlog@[i as int].content, *name));
                        return true;
                    }
                },
                _ => {},
            }
            i = i + 1;
        }
        false
    }

    /// Whether `name` is one of our section's elders.
    pub fn is_peer_our_elder(&self, name: &Name) -> (r: bool)
        ensures
            r == self.our_elder_names().contains(*name),
    {
        self.sections.our_info().is_member(name)
    }

    /// Whether we are one of our section's elders.
    pub fn is_self_elder(&self) -> (r: bool)
        ensures
            r == self.our_elder_names().contains(self.our_name),
    {
        self.is_peer_our_elder(&self.our_name)
    }

    pub fn our_id(&self) -> (r: &Name)
        ensures
            *r == self.our_name,
    {
        &self.our_name
    }

    /// The next relocation to vote for, taken from the back of the queue once no churn is
    /// going on or waiting. Members that left are skipped; an elder is kept in the queue until
    /// it is demoted.
    pub fn poll_relocation(&mut self) -> (r: Option<RelocateDetails>)
        requires
            old(self).wf(),
        ensures
            final(self).wf(),
            !old(self).can_poll_churn_spec() || old(self).churn_event_backlog@.len() > 0 ==> r.is_none()
                && final(self).relocate_queue@ == old(self).relocate_queue@,
            old(self).can_poll_churn_spec() && old(self).churn_event_backlog@.len() == 0 ==>
                (r, final(self).relocate_queue@) == pick_relocation(old(self).relocate_queue@, names_of_members(old(self).members@), old(self).our_elder_names()),
            final(self).churn_in_progress == old(self).churn_in_progress,
            final(self).handled_genesis_event == old(self).handled_genesis_event,
            final(self).members_changed == old(self).members_changed,
            final(self).churn_event_backlog@ == old(self).churn_event_backlog@,
            final(self).sections == old(self).sections,
            final(self).members == old(self).members,
            final(self).history == old(self).history,
            final(self).accumulator == old(self).accumulator,
            final(self).split_cache == old(self).split_cache,
            final(self).new_section_bls_keys == old(self).new_section_bls_keys,
            final(self).our_section_bls_keys == old(self).our_section_bls_keys,
            final(self).our_name == old(self).our_name,
    {
        if !self.can_poll_churn() || self.churn_event_backlog.len() > 0 {
            return None;
        }
        let ghost mnames = names_of_members(self.members@);
        let ghost elders = self.our_elder_names();
        loop
            invariant
                self.our_section_bls_keys == old(self).our_section_bls_keys,
                self.our_name == old(self).our_name,
                self.accumulator == old(self).accumulator,
                self.split_cache == old(self).split_cache,
                self.new_section_bls_keys == old(self).new_section_bls_keys,
                self.wf(),
                self.can_poll_churn_spec(),
                self.churn_event_backlog@.len() == 0,
                mnames == names_of_members(self.members@),
                elders == self.our_elder_names(),
                pick_relocation(old(self).relocate_queue@, mnames, elders) == pick_relocation(self.relocate_queue@, mnames, elders),
                self.churn_in_progress == old(self).churn_in_progress,
                self.handled_genesis_event == old(self).handled_genesis_event,
                self.members_changed == old(self).members_changed,
                self.churn_event_backlog@ == old(self).churn_event_backlog@,
                self.sections == old(self).sections,
                self.members == old(self).members,
                self.history == old(self).history,
            decreases self.relocate_queue@.len(),
        {
            let ghost q = self.relocate_queue@;
            match self.relocate_queue.pop() {
                None => {
                    return None;
                },
                Some(details) => {
                    match self.members.find(&details.pub_id) {
                        None => {
                            assert(q.drop_last() =~= self.relocate_queue@);
                            continue;
                        },
                        Some(m) => {
                            assert(names_of_members(self.members@)[m as int] == details.pub_id);
                        },
                    }
                    if self.is_peer_our_elder(&details.pub_id) {
                        self.relocate_queue.push(details);
                        assert(self.relocate_queue@ =~= q);
                        return None;
                    }
                    return Some(details);
                },
            }
        }
    }
}

impl Chain {
    /// Adds a joined member. Returns whether it is new; then elders may have to change.
    pub fn add_member(&mut self, peer: Peer, age: u8) -> (r: bool)
        requires
            old(self).wf(),
            !old(self).churn_in_progress,
        ensures
            final(self).wf(),
            r == (!names_of_members(old(self).members@).contains(peer.name)
                && prefix_matches(old(self).sections.our_spec().prefix@, peer.name)),
            r ==> names_of_members(final(self).members@).contains(peer.name)
                && final(self).members@.len() == old(self).members@.len() + 1
                && exists|i: int| 0 <= i <= old(self).members@.len() && final(self).members@ == old(self).members@.insert(
                    i,
                    MemberInfo { peer, age, state: MemberState::Joined },
                ),
            !r ==> final(self).members@ == old(self).members@,
            final(self).members_changed == (old(self).members_changed || r),
            final(self).sections == old(self).sections,
            final(self).churn_in_progress == old(self).churn_in_progress,
            final(self).handled_genesis_event == old(self).handled_genesis_event,
    {
        assert(self.sections.known()[0] == self.sections.our_spec());
        if !self.sections.our_prefix().matches(&peer.name) {
            return false;
        }
        let ghost before = self.members@;
        let added = self.members.add(peer, age);
        if added {
            proof {
                let k = choose|k: int| 0 <= k <= before.len() && self.members@ == before.insert(k, MemberInfo { peer, age, state: MemberState::Joined });
                assert(names_of_members(self.members@)[k] == peer.name);
            }
            self.members_changed = true;
        }
        added
    }

    /// Marks a member as left. Returns its address and its state before, or `None` for a
    /// name that is not a member.
    pub fn remove_member(&mut self, name: &Name) -> (r: Option<(u64, MemberState)>)
        requires
            old(self).wf(),
            !old(self).churn_in_progress,
        ensures
            final(self).wf(),
            r.is_none() == !names_of_members(old(self).members@).contains(*name),
            r.is_none() ==> final(self).members@ == old(self).members@ && final(self).members_changed == old(self).members_changed,
            r matches Some((addr, st)) ==> exists|i: int| 0 <= i < old(self).members@.len()
                && old(self).members@[i].peer.name == *name && addr == old(self).members@[i].peer.addr
                && st == old(self).members@[i].state
                && final(self).members@ == old(self).members@.update(i, MemberInfo { state: MemberState::Left, ..old(self).members@[i] })
                && final(self).members_changed,
            final(self).sections == old(self).sections,
            final(self).churn_in_progress == old(self).churn_in_progress,
    {
        match self.members.find(name) {
            None => None,
            Some(i) => {
                assert(names_of_members(self.members@)[i as int] == *name);
                let m = self.members.get(i);
                self.members.set_state(i, MemberState::Left);
                self.members_changed = true;
                Some((m.peer.addr, m.state))
            },
        }
    }

    fn our_elder_name_vec(&self) -> (r: Vec<Name>)
        ensures
            r@ == self.our_elder_names(),
    {
        self.sections.our_info().member_names()
    }

    /// The elders that membership calls for, sorted by name.
    pub fn our_expected_elders(&self) -> (r: Vec<Peer>)
        requires
            self.wf(),
        ensures
            r@ == expected_elders(*self),
            crate::elders::sorted_by_name(r@),
    {
        let elders = self.our_elder_name_vec();
        self.members.elder_candidates(&elders, None, ELDER_COUNT)
    }

    /// Whether both halves of our section would hold `SAFE_SECTION_SIZE` mature members.
    pub fn should_split(&self) -> (r: bool)
        requires
            self.wf(),
        ensures
            r == split_due(*self),
    {
        let p = self.sections.our_prefix();
        assert(self.sections.known()[0] == self.sections.our_spec());
        if p.bit_count() >= 256 {
            return false;
        }
        let bit = self.our_name.bit(p.bit_count());
        self.members.count_mature(p, bit) >= SAFE_SECTION_SIZE && self.members.count_mature(p, !bit) >= SAFE_SECTION_SIZE
    }

    /// New elders for the two halves of our section: the one we stay in first.
    pub fn split_self(&self) -> (r: Result<(EldersInfo, EldersInfo), RoutingError>)
        requires
            self.wf(),
            self.sections.our_spec().prefix@.len() < 256,
        ensures
            r is Err <==> (self.sections.our_spec().version == u64::MAX
                || elder_candidates(self.members@, self.our_elder_names(), Some(self.sections.our_spec().prefix@.push(split_bit(*self))), ELDER_COUNT as nat).len() > ELDER_COUNT
                || elder_candidates(self.members@, self.our_elder_names(), Some(self.sections.our_spec().prefix@.push(!split_bit(*self))), ELDER_COUNT as nat).len() > ELDER_COUNT),
            r matches Ok((a, b)) ==> split_half(*self, a, split_bit(*self)) && split_half(*self, b, !split_bit(*self)) && a.wf() && b.wf(),
    {
        let our = self.sections.our_info();
        assert(self.sections.known()[0] == self.sections.our_spec());
        let bit = self.our_name.bit(our.prefix.bit_count());
        let ours = our.prefix.pushed(bit);
        let other = our.prefix.pushed(!bit);
        let elders = self.our_elder_name_vec();
        let ours_members = self.members.elder_candidates(&elders, Some(&ours), ELDER_COUNT);
        let other_members = self.members.elder_candidates(&elders, Some(&other), ELDER_COUNT);
        let a = match EldersInfo::new(ours_members, ours, Some(our)) {
            Some(a) => a,
            None => {
                return Err(RoutingError::InvalidNewSectionInfo);
            },
        };
        let b = match EldersInfo::new(other_members, other, Some(our)) {
            Some(b) => b,
            None => {
                return Err(RoutingError::InvalidNewSectionInfo);
            },
        };
        Ok((a, b))
    }

    /// New elders to vote for once membership changed and churn may be taken up: the two
    /// halves when the section should split, else the expected elders when they differ from
    /// the current ones. Refused when the elders would shrink below `ELDER_COUNT` after having
    /// reached it; that error is fatal to the change and leaves the state as it was.
    pub fn promote_and_demote_elders(&mut self) -> (r: Result<Option<Vec<EldersInfo>>, RoutingError>)
        requires
            old(self).wf(),
        ensures
            final(self).wf(),
            final(self).sections == old(self).sections,
            final(self).members == old(self).members,
            final(self).history == old(self).history,
            final(self).handled_genesis_event == old(self).handled_genesis_event,
            final(self).churn_event_backlog@ == old(self).churn_event_backlog@,
            final(self).relocate_queue@ == old(self).relocate_queue@,
            !old(self).members_changed || !old(self).can_poll_churn_spec() ==> r == Ok::<Option<Vec<EldersInfo>>, RoutingError>(None)
                && final(self).churn_in_progress == old(self).churn_in_progress
                && final(self).members_changed == old(self).members_changed,
            old(self).members_changed && old(self).can_poll_churn_spec() && split_due(*old(self)) ==>
                (r is Err <==> (old(self).sections.our_spec().version == u64::MAX
                    || elder_candidates(old(self).members@, old(self).our_elder_names(), Some(old(self).sections.our_spec().prefix@.push(split_bit(*old(self)))), ELDER_COUNT as nat).len() > ELDER_COUNT
                    || elder_candidates(old(self).members@, old(self).our_elder_names(), Some(old(self).sections.our_spec().prefix@.push(!split_bit(*old(self)))), ELDER_COUNT as nat).len() > ELDER_COUNT))
                && (r matches Ok(Some(v)) ==> v@.len() == 2 && split_half(*old(self), v@[0], split_bit(*old(self)))
                    && split_half(*old(self), v@[1], !split_bit(*old(self))))
                && (r is Ok ==> (r matches Ok(Some(_))) && !final(self).members_changed && final(self).churn_in_progress),
            old(self).members_changed && old(self).can_poll_churn_spec() && !split_due(*old(self)) ==> {
                let cur = old(self).sections.our_spec();
                let exp = expected_elders(*old(self));
                &&& exp == cur.members@ ==> r == Ok::<Option<Vec<EldersInfo>>, RoutingError>(None) && !final(self).members_changed
                    && final(self).churn_in_progress == old(self).churn_in_progress
                &&& exp != cur.members@ && exp.len() < ELDER_COUNT && cur.members@.len() >= ELDER_COUNT ==>
                    r == Err::<Option<Vec<EldersInfo>>, RoutingError>(RoutingError::MergeNotSupported)
                &&& exp != cur.members@ && !(exp.len() < ELDER_COUNT && cur.members@.len() >= ELDER_COUNT)
                    && cur.version < u64::MAX && exp.len() <= ELDER_COUNT ==> (r matches Ok(Some(v)) && v@.len() == 1 && v@[0].members@ == exp
                    && v@[0].prefix@ == cur.prefix@ && v@[0].version == cur.version + 1)
                    && !final(self).members_changed && final(self).churn_in_progress
            },
            r matches Ok(None) ==> final(self).churn_in_progress == old(self).churn_in_progress,
            r is Err ==> final(self).churn_in_progress == old(self).churn_in_progress
                && final(self).members_changed == old(self).members_changed,
            final(self).accumulator == old(self).accumulator,
            final(self).split_cache == old(self).split_cache,
            final(self).new_section_bls_keys == old(self).new_section_bls_keys,
            final(self).our_section_bls_keys == old(self).our_section_bls_keys,
            final(self).our_name == old(self).our_name,
            final(self).churn_event_backlog == old(self).churn_event_backlog,
            final(self).relocate_queue == old(self).relocate_queue,
    {
        if !self.members_changed || !self.can_poll_churn() {
            return Ok(None);
        }
        assert(self.sections.known()[0] == self.sections.our_spec());
        if self.should_split() {
            let (a, b) = self.split_self()?;
            self.members_changed = false;
            self.churn_in_progress = true;
            let mut v: Vec<EldersInfo> = Vec::new();
            v.push(a);
            v.push(b);
            return Ok(Some(v));
        }
        let expected = self.our_expected_elders();
        let same = peers_equal(&expected, &self.sections.our_info().members);
        if same {
            self.members_changed = false;
            return Ok(None);
        }
        let cur_len = self.sections.our_info().len();
        if expected.len() < ELDER_COUNT && cur_len >= ELDER_COUNT {
            return Err(RoutingError::MergeNotSupported);
        }
        let prefix = Prefix { bits: self.sections.our_prefix().bits.clone() };
        proof {
            crate::members::lemma_candidates_under(self.members@, self.our_elder_names(), None, ELDER_COUNT as nat,
                self.sections.our_spec().prefix@);
        }
        let new_info = match EldersInfo::new(expected, prefix, Some(self.sections.our_info())) {
            Some(i) => i,
            None => {
                return Err(RoutingError::InvalidNewSectionInfo);
            },
        };
        self.members_changed = false;
        self.churn_in_progress = true;
        let mut v: Vec<EldersInfo> = Vec::new();
        v.push(new_info);
        Ok(Some(v))
    }
}

impl Chain {
    /// Commits new elders of our section: they must be well formed and follow ours, a key
    /// generation result filed under their first member must hold `key`, and `key_sig` must
    /// sign `key` under our current key. Then `key` extends the section chain and becomes our
    /// key, churn ends, neighbours and members outside the new prefix are dropped. Refused with
    /// nothing changed otherwise.
    pub fn do_add_elders_info(&mut self, info: EldersInfo, key: Vec<u8>, key_sig: Vec<u8>) -> (r: Result<(), RoutingError>)
        requires
            old(self).wf(),
        ensures
            final(self).wf(),
            r is Ok <==> commit_ok(*old(self), info, key@, key_sig@),
            r == Err::<(), RoutingError>(RoutingError::InvalidElderDkgResult) <==> dkg_refused(*old(self), info, key@, key_sig@),
            r == Err::<(), RoutingError>(RoutingError::InvalidNewSectionInfo) <==> !(info.wf()
                && successor(info, old(self).sections.our_spec()) && prefix_matches(info.prefix@, old(self).our_name)
                && key@.len() == KEY_LEN && key_sig@.len() == crate::section_chain::SIG_LEN
                && crate::section_chain::bls_verifies(old(self).history.last_key_spec(), key_sig@, key@)),
            r is Err ==> r == Err::<(), RoutingError>(RoutingError::InvalidElderDkgResult)
                || r == Err::<(), RoutingError>(RoutingError::InvalidNewSectionInfo),
            r is Ok ==> committed_ours(*old(self), *final(self), info, key@, key_sig) && pruned_for(*old(self), *final(self), info.prefix@),
            r is Err ==> commit_untouched(*old(self), *final(self)),
            final(self).members_changed == old(self).members_changed,
            final(self).handled_genesis_event == old(self).handled_genesis_event,
            final(self).churn_event_backlog@ == old(self).churn_event_backlog@,
            final(self).relocate_queue@ == old(self).relocate_queue@,
            final(self).split_cache == old(self).split_cache,
            final(self).accumulator@ == old(self).accumulator@,
            final(self).our_name == old(self).our_name,
    {
        if !info_is_wf(&info) || !info.is_successor_of(self.sections.our_info()) || !info.prefix.matches(&self.our_name) {
            return Err(RoutingError::InvalidNewSectionInfo);
        }
        if !self.history.verifies_next(&key, &key_sig) {
            return Err(RoutingError::InvalidNewSectionInfo);
        }
        if info.members.len() == 0 {
            return Err(RoutingError::InvalidElderDkgResult);
        }
        let idx = match find_dkg(&self.new_section_bls_keys, &info.members[0].name) {
            None => {
                return Err(RoutingError::InvalidElderDkgResult);
            },
            Some(i) => i,
        };
        if !bytes_equal(&self.new_section_bls_keys[idx].result.public_key, &key) {
            return Err(RoutingError::InvalidElderDkgResult);
        }
        let key_copy = key.clone();
        let ghost sig_v = key_sig;
        let ghost old_blocks = self.history.blocks_spec();
        match self.history.extend(key_copy, key_sig) {
            Ok(()) => {},
            Err(_) => {
                return Err(RoutingError::InvalidNewSectionInfo);
            },
        }
        assert(self.history.blocks_spec().drop_last() =~= old_blocks);
        assert(self.history.blocks_spec().last().sig == sig_v);
        let entry = self.new_section_bls_keys.remove(idx);
        self.new_section_bls_keys = Vec::new();
        self.our_section_bls_keys = SectionKeys::new(entry.result, &self.our_name, &info);
        let prefix = Prefix { bits: info.prefix.bits.clone() };
        assert(prefix@ == info.prefix@);
        self.sections.set_our_info(info);
        self.churn_in_progress = false;
        self.members.retain_matching(&prefix);
        Ok(())
    }

    /// Handles new elders of our section, or of one half of it after a split. The first half
    /// to arrive is kept until its sibling does; then the half our name lies in becomes ours and
    /// the other a neighbour. Returns whether new elders were committed.
    pub fn add_elders_info(&mut self, info: EldersInfo, key: Vec<u8>, key_sig: Vec<u8>) -> (r: Result<bool, RoutingError>)
        requires
            old(self).wf(),
        ensures
            final(self).wf(),
            r is Err ==> r == Err::<bool, RoutingError>(RoutingError::InvalidElderDkgResult)
                || r == Err::<bool, RoutingError>(RoutingError::InvalidNewSectionInfo),
            r == Ok::<bool, RoutingError>(true) ==> successor(final(self).sections.our_spec(), old(self).sections.our_spec())
                && final(self).history.blocks_spec().len() == old(self).history.blocks_spec().len() + 1,
            elders_info_added(*old(self), *final(self), info, key, key_sig, r),
            final(self).members_changed == old(self).members_changed,
            final(self).handled_genesis_event == old(self).handled_genesis_event,
            final(self).churn_event_backlog@ == old(self).churn_event_backlog@,
            final(self).relocate_queue@ == old(self).relocate_queue@,
            final(self).accumulator@ == old(self).accumulator@,
            final(self).our_name == old(self).our_name,
            r is Err || r == Ok::<bool, RoutingError>(false) ==> final(self).churn_in_progress == old(self).churn_in_progress,
    {
        if info.prefix.is_extension_of(self.sections.our_prefix()) {
            match self.split_cache.take() {
                None => {
                    self.split_cache = Some(SplitCache { info, key, key_sig });
                    Ok(false)
                },
                Some(cache) => {
                    assert(self.split_cache.is_none());
                    let SplitCache { info: c_info, key: c_key, key_sig: c_sig } = cache;
                    assert(c_info == old(self).split_cache.unwrap().info);
                    let cache_ours = c_info.prefix.bits.len() <= crate::prefix::MAX_PREFIX_LEN
                        && c_info.prefix.matches(&self.our_name);
                    if cache_ours {
                        let ghost p = c_info.prefix@;
                        match self.do_add_elders_info(c_info, c_key, c_sig) {
                            Ok(()) => {},
                            Err(e) => {
                                return Err(e);
                            },
                        }
                        let ghost mid = *self;
                        let ghost o = info;
                        let accepted = self.sections.add_neighbour(info);
                        proof {
                            lemma_sibling_learnt(*old(self), mid, *self, p, o, accepted);
                        }
                    } else {
                        let ghost p = info.prefix@;
                        match self.do_add_elders_info(info, key, key_sig) {
                            Ok(()) => {},
                            Err(e) => {
                                return Err(e);
                            },
                        }
                        let ghost mid = *self;
                        let ghost o = c_info;
                        let accepted = self.sections.add_neighbour(c_info);
                        proof {
                            lemma_sibling_learnt(*old(self), mid, *self, p, o, accepted);
                        }
                    }
                    Ok(true)
                },
            }
        } else {
            match self.do_add_elders_info(info, key, key_sig) {
                Ok(()) => Ok(true),
                Err(e) => Err(e),
            }
        }
    }

    /// Whether the votes are enough to act on the event: a quorum of our elders, all of them
    /// for an acknowledgement to send; new elders of ours must follow ours, new elders of a
    /// neighbour must follow every overlapping one we know. Key generation is never acted on
    /// here.
    pub fn is_valid_transition(&self, event: &AccumulatingEvent, voters: &Vec<Name>) -> (r: bool)
        requires
            self.wf(),
        ensures
            r == valid_transition(*self, *event, voters@),
    {
        let our = self.sections.our_info();
        match event {
            AccumulatingEvent::SectionInfo { info, .. } => our.is_quorum(voters) && info.is_successor_of(our),
            AccumulatingEvent::NeighbourInfo(info) => {
                if !our.is_quorum(voters) {
                    return false;
                }
                let nbs = self.sections.neighbours();
                let mut j: usize = 0;
                while j < nbs.len()
                    invariant
                        nbs@ == self.sections.neighbours_spec(),
                        quorum(self.sections.our_spec().members@, voters@),
                        *event == AccumulatingEvent::NeighbourInfo(*info),
                        j <= nbs@.len(),
                        forall|k: int| 0 <= k < j && compatible(#[trigger] nbs@[k].prefix@, info.prefix@) ==> nbs@[k].version + 1 == info.version,
                    decreases nbs@.len() - j,
                {
                    if nbs[j].prefix.is_compatible(&info.prefix) && (nbs[j].version == u64::MAX || nbs[j].version + 1 != info.version) {
                        assert(self.sections.neighbours_spec()[j as int] == nbs@[j as int]);
                        assert(!(compatible(self.sections.neighbours_spec()[j as int].prefix@, info.prefix@)
                            ==> self.sections.neighbours_spec()[j as int].version + 1 == info.version));
                        return false;
                    }
                    j = j + 1;
                }
                true
            },
            AccumulatingEvent::SendAckMessage { .. } => our.is_total_consensus(voters),
            AccumulatingEvent::StartDkg(_) => false,
            _ => our.is_quorum(voters),
        }
    }

    /// Records the vote of `voter` for the event with id `id`. A second vote by the same voter
    /// is refused, as is any vote to start key generation.
    pub fn handle_opaque_event(&mut self, id: u64, event: AccumulatingEvent, voter: Name) -> (r: Result<(), InsertError>)
        ensures
            event is StartDkg ==> r == Err::<(), InsertError>(InsertError::StartDkgNotAccepted) && final(self).accumulator@ == old(self).accumulator@,
            !(event is StartDkg) && find_id(old(self).accumulator@, id, 0) == -1 ==> r is Ok
                && final(self).accumulator@.len() == old(self).accumulator@.len() + 1
                && final(self).accumulator@.drop_last() == old(self).accumulator@
                && final(self).accumulator@.last().id == id && final(self).accumulator@.last().voters@ == seq![voter],
            !(event is StartDkg) && find_id(old(self).accumulator@, id, 0) != -1 ==> ({
                let i = find_id(old(self).accumulator@, id, 0);
                let e = old(self).accumulator@[i];
                &&& !same_event(e.event, event) ==> r == Err::<(), InsertError>(InsertError::ReplacedAlreadyInserted) && final(self).accumulator@ == old(self).accumulator@
                &&& same_event(e.event, event) && e.voters@.contains(voter) ==> r == Err::<(), InsertError>(InsertError::AlreadyVoted) && final(self).accumulator@ == old(self).accumulator@
                &&& same_event(e.event, event) && !e.voters@.contains(voter) ==> r is Ok && final(self).accumulator@.len() == old(self).accumulator@.len()
                    && final(self).accumulator@[i].id == id && final(self).accumulator@[i].voters@ == e.voters@.push(voter)
                    && forall|j: int| 0 <= j < old(self).accumulator@.len() && j != i ==> #[trigger] final(self).accumulator@[j] == old(self).accumulator@[j]
            }),
            final(self).sections == old(self).sections,
            final(self).members == old(self).members,
            final(self).history == old(self).history,
            final(self).churn_in_progress == old(self).churn_in_progress,
            final(self).members_changed == old(self).members_changed,
            final(self).handled_genesis_event == old(self).handled_genesis_event,
            final(self).churn_event_backlog@ == old(self).churn_event_backlog@,
            final(self).relocate_queue@ == old(self).relocate_queue@,
    {
        let start_dkg = match &event {
            AccumulatingEvent::StartDkg(_) => true,
            _ => false,
        };
        if start_dkg {
            return Err(InsertError::StartDkgNotAccepted);
        }
        assert(!(event is StartDkg));
        let mut i: usize = 0;
        while i < self.accumulator.len()
            invariant
                !(event is StartDkg),
                i <= self.accumulator@.len(),
                self.accumulator@ == old(self).accumulator@,
                find_id(old(self).accumulator@, id, 0) == find_id(old(self).accumulator@, id, i as int),
                self.sections == old(self).sections,
                self.members == old(self).members,
                self.history == old(self).history,
                self.churn_in_progress == old(self).churn_in_progress,
                self.members_changed == old(self).members_changed,
                self.handled_genesis_event == old(self).handled_genesis_event,
                self.churn_event_backlog@ == old(self).churn_event_backlog@,
                self.relocate_queue@ == old(self).relocate_queue@,
            decreases self.accumulator@.len() - i,
        {
            if self.accumulator[i].id == id {
                if !events_equal(&self.accumulator[i].event, &event) {
                    return Err(InsertError::ReplacedAlreadyInserted);
                }
                if contains_name(&self.accumulator[i].voters, &voter) {
                    return Err(InsertError::AlreadyVoted);
                }
                let mut entry = self.accumulator.remove(i);
                entry.voters.push(voter);
                self.accumulator.insert(i, entry);
                return Ok(());
            }
            i = i + 1;
        }
        let mut voters: Vec<Name> = Vec::new();
        voters.push(voter);
        self.accumulator.push(PendingEvent { id, event, voters });
        assert(self.accumulator@.drop_last() =~= old(self).accumulator@);
        Ok(())
    }

    /// Takes out the first pending event whose votes are enough to act on.
    pub fn poll_accumulator(&mut self) -> (r: Option<PendingEvent>)
        requires
            old(self).wf(),
        ensures
            final(self).wf(),
            r matches Some(e) ==> exists|i: int| 0 <= i < old(self).accumulator@.len()
                && e == old(self).accumulator@[i]
                && valid_transition(*old(self), e.event, e.voters@)
                && (forall|j: int| 0 <= j < i ==> !valid_transition(*old(self), (#[trigger] old(self).accumulator@[j]).event, old(self).accumulator@[j].voters@))
                && final(self).accumulator@ == old(self).accumulator@.remove(i),
            r is None ==> final(self).accumulator@ == old(self).accumulator@
                && forall|j: int| 0 <= j < old(self).accumulator@.len() ==> !valid_transition(*old(self), (#[trigger] old(self).accumulator@[j]).event, old(self).accumulator@[j].voters@),
            final(self).sections == old(self).sections,
            final(self).members == old(self).members,
            final(self).history == old(self).history,
            final(self).churn_in_progress == old(self).churn_in_progress,
            final(self).members_changed == old(self).members_changed,
            final(self).handled_genesis_event == old(self).handled_genesis_event,
            final(self).churn_event_backlog@ == old(self).churn_event_backlog@,
            final(self).relocate_queue@ == old(self).relocate_queue@,
            final(self).split_cache == old(self).split_cache,
            final(self).new_section_bls_keys@ == old(self).new_section_bls_keys@,
            final(self).our_section_bls_keys == old(self).our_section_bls_keys,
            final(self).our_name == old(self).our_name,
            final(self).split_cache == old(self).split_cache,
    {
        let mut i: usize = 0;
        while i < self.accumulator.len()
            invariant
                self.our_section_bls_keys == old(self).our_section_bls_keys,
                self.our_name == old(self).our_name,
                self.wf(),
                i <= self.accumulator@.len(),
                self.accumulator@ == old(self).accumulator@,
                self.sections == old(self).sections,
                self.members == old(self).members,
                self.history == old(self).history,
                self.churn_in_progress == old(self).churn_in_progress,
                self.members_changed == old(self).members_changed,
                self.handled_genesis_event == old(self).handled_genesis_event,
                self.churn_event_backlog@ == old(self).churn_event_backlog@,
                self.relocate_queue@ == old(self).relocate_queue@,
                self.split_cache == old(self).split_cache,
                self.new_section_bls_keys@ == old(self).new_section_bls_keys@,
                forall|j: int| 0 <= j < i ==> !valid_transition(*old(self), (#[trigger] old(self).accumulator@[j]).event, old(self).accumulator@[j].voters@),
            decreases self.accumulator@.len() - i,
        {
            let ok = self.is_valid_transition(&self.accumulator[i].event, &self.accumulator[i].voters);
            assert(valid_transition(*self, self.accumulator@[i as int].event, self.accumulator@[i as int].voters@) == valid_transition(*old(self), self.accumulator@[i as int].event, self.accumulator@[i as int].voters@));
            if ok {
                let e = self.accumulator.remove(i);
                return Some(e);
            }
            i = i + 1;
        }
        None
    }
}

/// The peers of `a` that are not in `b`, in the order of `a`.
pub fn peers_difference(a: &Vec<Peer>, b: &Vec<Peer>) -> (r: Vec<Peer>)
    ensures
        r@ == peers_minus(a@, b@),
{
    let mut out: Vec<Peer> = Vec::new();
    let mut i: usize = 0;
    while i < a.len()
        invariant
            i <= a@.len(),
            out@ == a@.subrange(0, i as int).filter(|p: Peer| !b@.contains(p)),
        decreases a@.len() - i,
    {
        proof {
            reveal(Seq::filter);
            assert(a@.subrange(0, i as int + 1).drop_last() =~= a@.subrange(0, i as int));
        }
        if !contains_peer(b, &a[i]) {
            out.push(a[i]);
        }
        i = i + 1;
        assert(out@ =~= a@.subrange(0, i as int).filter(|p: Peer| !b@.contains(p)));
    }
    assert(a@.subrange(0, a@.len() as int) =~= a@);
    out
}

fn contains_peer(ps: &Vec<Peer>, p: &Peer) -> (r: bool)
    ensures
        r == ps@.contains(*p),
{
    let mut i: usize = 0;
    while i < ps.len()
        invariant
            i <= ps@.len(),
            forall|j: int| 0 <= j < i ==> ps@[j] != *p,
        decreases ps@.len() - i,
    {
        if ps[i] == *p {
            return true;
        }
        i = i + 1;
    }
    false
}

impl Chain {
    /// The elders of all neighbouring sections.
    pub fn other_elders(&self) -> (r: Vec<Peer>)
        ensures
            r@ == all_elders(self.sections.neighbours_spec()),
    {
        let nbs = self.sections.neighbours();
        let mut out: Vec<Peer> = Vec::new();
        let mut i: usize = 0;
        while i < nbs.len()
            invariant
                nbs@ == self.sections.neighbours_spec(),
                i <= nbs@.len(),
                out@ == all_elders(nbs@.subrange(0, i as int)),
            decreases nbs@.len() - i,
        {
            let ms = &nbs[i].members;
            let ghost start = out@;
            let mut k: usize = 0;
            while k < ms.len()
                invariant
                    k <= ms@.len(),
                    out@ == start + ms@.subrange(0, k as int),
                decreases ms@.len() - k,
            {
                out.push(ms[k]);
                k = k + 1;
                assert(out@ =~= start + ms@.subrange(0, k as int));
            }
            assert(nbs@.subrange(0, i as int + 1).drop_last() =~= nbs@.subrange(0, i as int));
            assert(ms@.subrange(0, ms@.len() as int) =~= ms@);
            i = i + 1;
        }
        assert(nbs@.subrange(0, nbs@.len() as int) =~= nbs@);
        out
    }

    fn elders_change_since(&self, old_neighbour: &Vec<Peer>) -> (r: EldersChange)
        ensures
            r.neighbour_added@ == peers_minus(all_elders(self.sections.neighbours_spec()), old_neighbour@),
            r.neighbour_removed@ == peers_minus(old_neighbour@, all_elders(self.sections.neighbours_spec())),
    {
        let new_neighbour = self.other_elders();
        EldersChange {
            neighbour_added: peers_difference(&new_neighbour, old_neighbour),
            neighbour_removed: peers_difference(old_neighbour, &new_neighbour),
        }
    }

    /// Acts on an event the elders agreed on. New elders of ours are handled as
    /// `add_elders_info` does (and nothing is returned while half of a split waits for its
    /// sibling); new elders of a neighbour are learnt. Both report the change in neighbouring
    /// elders. A prune is held back while churn is in progress. Every other event is returned
    /// as it is.
    pub fn process_accumulating(&mut self, pending: PendingEvent) -> (r: Result<Option<AccumulatedEvent>, RoutingError>)
        requires
            old(self).wf(),
        ensures
            final(self).wf(),
            match pending.event {
                AccumulatingEvent::SectionInfo { info, key, key_sig } => {
                    &&& elders_info_added(*old(self), *final(self), info, key, key_sig, match r {
                        Ok(Some(_)) => Ok::<bool, RoutingError>(true),
                        Ok(None) => Ok::<bool, RoutingError>(false),
                        Err(x) => Err::<bool, RoutingError>(x),
                    })
                    &&& r matches Ok(Some(e)) ==> (e.content matches AccumulatingEvent::SectionInfo { info: i2, .. } && same_info(i2, info))
                        && elders_change_between(*old(self), *final(self), e.elders_change)
                },
                AccumulatingEvent::NeighbourInfo(info) => {
                    &&& neighbour_learnt(*old(self), *final(self), info)
                    &&& r matches Ok(Some(e)) && (e.content matches AccumulatingEvent::NeighbourInfo(i2) && same_info(i2, info))
                        && elders_change_between(*old(self), *final(self), e.elders_change)
                },
                AccumulatingEvent::ParsecPrune => if old(self).churn_in_progress {
                    r == Ok::<Option<AccumulatedEvent>, RoutingError>(None)
                } else {
                    r matches Ok(Some(e)) && e.content is ParsecPrune && e.elders_change.neighbour_added@.len() == 0
                        && e.elders_change.neighbour_removed@.len() == 0
                },
                AccumulatingEvent::TheirKeyInfo { prefix, key } => {
                    &&& r matches Ok(Some(e)) && e.content == pending.event && e.elders_change.neighbour_added@.len() == 0
                        && e.elders_change.neighbour_removed@.len() == 0
                    &&& final(self).sections.neighbours_spec() == old(self).sections.neighbours_spec()
                    &&& final(self).sections.knowledge_records() == old(self).sections.knowledge_records()
                    &&& forall|q: Seq<bool>| #[trigger] final(self).sections.their_key(q) == if q == prefix@ {
                        Some(key@)
                    } else {
                        old(self).sections.their_key(q)
                    }
                },
                AccumulatingEvent::AckMessage { src_prefix, ack_version } => {
                    &&& r matches Ok(Some(e)) && e.content == pending.event && e.elders_change.neighbour_added@.len() == 0
                        && e.elders_change.neighbour_removed@.len() == 0
                    &&& final(self).sections.neighbours_spec() == old(self).sections.neighbours_spec()
                    &&& final(self).sections.key_records() == old(self).sections.key_records()
                    &&& forall|q: Seq<bool>| #[trigger] final(self).sections.their_knowledge(q) == if q == src_prefix@ {
                        match old(self).sections.their_knowledge(q) {
                            Some(v) => Some(if v > ack_version { v } else { ack_version }),
                            None => Some(ack_version),
                        }
                    } else {
                        old(self).sections.their_knowledge(q)
                    }
                },
                _ => r matches Ok(Some(e)) && e.content == pending.event && e.elders_change.neighbour_added@.len() == 0
                    && e.elders_change.neighbour_removed@.len() == 0,
            },
            !(pending.event is SectionInfo || pending.event is NeighbourInfo || pending.event is TheirKeyInfo
                || pending.event is AckMessage) ==> final(self).sections == old(self).sections,
            !(pending.event is SectionInfo) ==> final(self).churn_in_progress == old(self).churn_in_progress
                && final(self).history == old(self).history && final(self).members == old(self).members
                && final(self).sections.our_spec() == old(self).sections.our_spec()
                && final(self).split_cache == old(self).split_cache
                && final(self).new_section_bls_keys@ == old(self).new_section_bls_keys@,
            final(self).accumulator@ == old(self).accumulator@,
            final(self).our_name == old(self).our_name,
            final(self).members_changed == old(self).members_changed,
            final(self).handled_genesis_event == old(self).handled_genesis_event,
            final(self).churn_event_backlog@ == old(self).churn_event_backlog@,
            final(self).relocate_queue@ == old(self).relocate_queue@,
    {
        let old_neighbour = self.other_elders();
        assert(self.sections.known()[0] == self.sections.our_spec());
        match &pending.event {
            AccumulatingEvent::TheirKeyInfo { prefix, key } => {
                self.sections.update_keys(prefix, key);
            },
            AccumulatingEvent::AckMessage { src_prefix, ack_version } => {
                self.sections.update_knowledge(src_prefix, *ack_version);
            },
            _ => {},
        }
        match pending.event {
            AccumulatingEvent::SectionInfo { info, key, key_sig } => {
                let content = AccumulatingEvent::SectionInfo { info: info.duplicate(), key: key.clone(), key_sig: key_sig.clone() };
                match self.add_elders_info(info, key, key_sig) {
                    Ok(true) => {
                        let change = self.elders_change_since(&old_neighbour);
                        Ok(Some(AccumulatedEvent { content, elders_change: change }))
                    },
                    Ok(false) => Ok(None),
                    Err(e) => Err(e),
                }
            },
            AccumulatingEvent::NeighbourInfo(info) => {
                let content = AccumulatingEvent::NeighbourInfo(info.duplicate());
                self.sections.add_neighbour(info);
                let change = self.elders_change_since(&old_neighbour);
                Ok(Some(AccumulatedEvent { content, elders_change: change }))
            },
            AccumulatingEvent::ParsecPrune => {
                if self.churn_in_progress {
                    return Ok(None);
                }
                Ok(Some(AccumulatedEvent { content: AccumulatingEvent::ParsecPrune, elders_change: EldersChange { neighbour_added: Vec::new(), neighbour_removed: Vec::new() } }))
            },
            event => Ok(Some(AccumulatedEvent { content: event, elders_change: EldersChange { neighbour_added: Vec::new(), neighbour_removed: Vec::new() } })),
        }
    }

    /// One step of the section's decisions, the first that applies: the oldest backlogged
    /// churn event; new elders to vote for; the next relocation; the next event agreed on,
    /// acted on (a churn event that cannot be taken up yet goes to the backlog).
    ///
    /// At most one churn is in flight: while churn is in progress no churn event and no
    /// relocation comes out, and the backlog only grows.
    pub fn poll_accumulated(&mut self) -> (r: Result<Option<PollAccumulated>, RoutingError>)
        requires
            old(self).wf(),
        ensures
            final(self).wf(),
            old(self).churn_in_progress ==> !(r matches Ok(Some(PollAccumulated::AccumulatedEvent(e))) && is_churn(e.content))
                && !(r matches Ok(Some(PollAccumulated::RelocateDetails(_))))
                && !(r matches Ok(Some(PollAccumulated::PromoteDemoteElders(_))))
                && final(self).churn_event_backlog@.len() >= old(self).churn_event_backlog@.len(),
            backlog_due(*old(self)) ==>
                (r matches Ok(Some(PollAccumulated::AccumulatedEvent(e))) && e == old(self).churn_event_backlog@.last())
                && final(self).churn_event_backlog@ == old(self).churn_event_backlog@.drop_last(),
            !backlog_due(*old(self)) && old(self).members_changed && old(self).can_poll_churn_spec() && split_due(*old(self))
                && old(self).sections.our_spec().version < u64::MAX
                && elder_candidates(old(self).members@, old(self).our_elder_names(), Some(old(self).sections.our_spec().prefix@.push(split_bit(*old(self)))), ELDER_COUNT as nat).len() <= ELDER_COUNT
                && elder_candidates(old(self).members@, old(self).our_elder_names(), Some(old(self).sections.our_spec().prefix@.push(!split_bit(*old(self)))), ELDER_COUNT as nat).len() <= ELDER_COUNT
                ==> (r matches Ok(Some(PollAccumulated::PromoteDemoteElders(v))) && v@.len() == 2
                    && split_half(*old(self), v@[0], split_bit(*old(self))) && split_half(*old(self), v@[1], !split_bit(*old(self))))
                    && final(self).churn_in_progress,
            !backlog_due(*old(self)) && old(self).members_changed && old(self).can_poll_churn_spec() && !split_due(*old(self)) ==> {
                let cur = old(self).sections.our_spec();
                let exp = expected_elders(*old(self));
                &&& exp != cur.members@ && exp.len() < ELDER_COUNT && cur.members@.len() >= ELDER_COUNT ==>
                    r == Err::<Option<PollAccumulated>, RoutingError>(RoutingError::MergeNotSupported)
                &&& exp != cur.members@ && !(exp.len() < ELDER_COUNT && cur.members@.len() >= ELDER_COUNT)
                    && cur.version < u64::MAX && exp.len() <= ELDER_COUNT ==> (r matches Ok(Some(PollAccumulated::PromoteDemoteElders(v)))
                    && v@.len() == 1 && v@[0].members@ == exp && v@[0].prefix@ == cur.prefix@ && v@[0].version == cur.version + 1)
                    && final(self).churn_in_progress
            },
            !backlog_due(*old(self)) && promote_quiet(*old(self)) && !relocation_quiet(*old(self)) ==> {
                let pick = pick_relocation(old(self).relocate_queue@, names_of_members(old(self).members@), old(self).our_elder_names());
                r == Ok::<Option<PollAccumulated>, RoutingError>(Some(PollAccumulated::RelocateDetails(pick.0.unwrap())))
                    && final(self).relocate_queue@ == pick.1
            },
            !backlog_due(*old(self)) && promote_quiet(*old(self)) && relocation_quiet(*old(self)) ==> {
                &&& (forall|j: int| 0 <= j < old(self).accumulator@.len() ==> !valid_transition(*old(self),
                    (#[trigger] old(self).accumulator@[j]).event, old(self).accumulator@[j].voters@))
                    ==> r == Ok::<Option<PollAccumulated>, RoutingError>(None) && final(self).sections == old(self).sections
                        && final(self).history == old(self).history && final(self).members == old(self).members
                &&& forall|i: int| #[trigger] first_valid(*old(self), i) ==> final(self).accumulator@ == old(self).accumulator@.remove(i)
                    && agreed_event_handled(*old(self), *final(self), old(self).accumulator@[i].event, r)
            },
    {
        if let Some(event) = self.poll_churn_event_backlog() {
            return Ok(Some(PollAccumulated::AccumulatedEvent(event)));
        }
        match self.promote_and_demote_elders() {
            Err(e) => {
                return Err(e);
            },
            Ok(Some(new_infos)) => {
                return Ok(Some(PollAccumulated::PromoteDemoteElders(new_infos)));
            },
            Ok(None) => {},
        }
        if let Some(details) = self.poll_relocation() {
            return Ok(Some(PollAccumulated::RelocateDetails(details)));
        }
        let ghost s1 = *self;
        assert(s1.accumulator == old(self).accumulator);
        assert(s1.sections == old(self).sections);
        let pending = match self.poll_accumulator() {
            None => {
                proof {
                    assert forall|i: int| #[trigger] first_valid(*old(self), i) implies false by {
                        assert(!valid_transition(s1, s1.accumulator@[i].event, s1.accumulator@[i].voters@));
                    }
                }
                return Ok(None);
            },
            Some(p) => p,
        };
        let ghost k = choose|k: int| 0 <= k < s1.accumulator@.len() && pending == s1.accumulator@[k]
            && valid_transition(s1, pending.event, pending.voters@)
            && (forall|j: int| 0 <= j < k ==> !valid_transition(s1, (#[trigger] s1.accumulator@[j]).event, s1.accumulator@[j].voters@))
            && self.accumulator@ == s1.accumulator@.remove(k);
        proof {
            assert(first_valid(*old(self), k));
            assert forall|i: int| #[trigger] first_valid(*old(self), i) implies i == k by {
                if i < k {
                    assert(!valid_transition(s1, s1.accumulator@[i].event, s1.accumulator@[i].voters@));
                }
                if k < i {
                    assert(!valid_transition(*old(self), old(self).accumulator@[k].event, old(self).accumulator@[k].voters@));
                }
            }
        }
        let ghost s2 = *self;
        let event = match self.process_accumulating(pending) {
            Err(e) => {
                return Err(e);
            },
            Ok(None) => {
                return Ok(None);
            },
            Ok(Some(event)) => event,
        };
        let ghost s3 = *self;
        let ghost ev = event;
        let out = match self.check_ready_or_backlog_churn_event(event) {
            Some(event) => Ok(Some(PollAccumulated::AccumulatedEvent(event))),
            None => Ok(None),
        };
        proof {
            if !is_churn(ev.content) || s3.can_poll_churn_spec() {
                assert(self.churn_event_backlog@ == s3.churn_event_backlog@);
            } else {
                assert(self.churn_event_backlog@.subrange(1, self.churn_event_backlog@.len() as int) =~= s3.churn_event_backlog@);
            }
        }
        out
    }
}

impl SectionKeyShare {
    /// Our share of a new section key, with our position among its elders; `None` when we
    /// are not one of them.
    pub fn new(key: Vec<u8>, our_id: &Name, new_elders_info: &EldersInfo) -> (r: Option<SectionKeyShare>)
        ensures
            r.is_none() == !peer_names(new_elders_info.members@).contains(*our_id),
            r matches Some(s) ==> s.key == key && s.index < new_elders_info.members@.len()
                && new_elders_info.members@[s.index as int].name == *our_id,
    {
        match position_of(new_elders_info, our_id) {
            Some(index) => {
                assert(peer_names(new_elders_info.members@)[index as int] == *our_id);
                Some(SectionKeyShare { index, key })
            },
            None => None,
        }
    }

    pub fn new_with_position(index: usize, key: Vec<u8>) -> (r: SectionKeyShare)
        ensures
            r.index == index,
            r.key == key,
    {
        SectionKeyShare { index, key }
    }
}

impl SectionKeys {
    /// The section keys a key generation gave us, for the given elders.
    pub fn new(dkg_result: DkgResult, our_id: &Name, new_elders_info: &EldersInfo) -> (r: SectionKeys)
        ensures
            r.public_key == dkg_result.public_key,
            r.secret_key_share.is_some() == (dkg_result.secret_key_share.is_some() && peer_names(new_elders_info.members@).contains(*our_id)),
            r.secret_key_share matches Some(s) ==> s.index < new_elders_info.members@.len()
                && new_elders_info.members@[s.index as int].name == *our_id
                && dkg_result.secret_key_share == Some(s.key),
    {
        let share = match dkg_result.secret_key_share {
            Some(key) => SectionKeyShare::new(key, our_id, new_elders_info),
            None => None,
        };
        SectionKeys { public_key: dkg_result.public_key, secret_key_share: share }
    }
}

impl Chain {
    pub fn elder_size(&self) -> (r: usize)
        ensures
            r == ELDER_COUNT,
    {
        ELDER_COUNT
    }

    pub fn safe_section_size(&self) -> (r: usize)
        ensures
            r == SAFE_SECTION_SIZE,
    {
        SAFE_SECTION_SIZE
    }

    pub fn our_section_bls_keys(&self) -> (r: &Vec<u8>)
        ensures
            *r == self.our_section_bls_keys.public_key,
    {
        &self.our_section_bls_keys.public_key
    }

    /// Our share of the section key; an error when we hold none.
    pub fn our_section_bls_secret_key_share(&self) -> (r: Result<&SectionKeyShare, RoutingError>)
        ensures
            match self.our_section_bls_keys.secret_key_share {
                Some(s) => r == Ok::<&SectionKeyShare, RoutingError>(&s),
                None => r == Err::<&SectionKeyShare, RoutingError>(RoutingError::InvalidElderDkgResult),
            },
    {
        match &self.our_section_bls_keys.secret_key_share {
            Some(s) => Ok(s),
            None => Err(RoutingError::InvalidElderDkgResult),
        }
    }

    /// The ages of our members.
    pub fn member_ages(&self) -> (r: Vec<(Name, u8)>)
        ensures
            r@.len() == self.members@.len(),
            forall|i: int| 0 <= i < r@.len() ==> (#[trigger] r@[i]) == (self.members@[i].peer.name, self.members@[i].age),
    {
        let mut out: Vec<(Name, u8)> = Vec::new();
        let mut i: usize = 0;
        while i < self.members.len()
            invariant
                i <= self.members@.len(),
                out@.len() == i,
                forall|j: int| 0 <= j < i ==> (#[trigger] out@[j]) == (self.members@[j].peer.name, self.members@[j].age),
            decreases self.members@.len() - i,
        {
            let m = self.members.get(i);
            out.push((m.peer.name, m.age));
            i = i + 1;
        }
        out
    }

    /// The members that have not left.
    pub fn our_active_members(&self) -> (r: Vec<Peer>)
        ensures
            r@ == crate::members::member_peers(self.members@.filter(|m: MemberInfo| m.state != MemberState::Left)),
    {
        let ghost ms = self.members@;
        let mut out: Vec<Peer> = Vec::new();
        let mut i: usize = 0;
        while i < self.members.len()
            invariant
                ms == self.members@,
                i <= ms.len(),
                out@ == crate::members::member_peers(ms.subrange(0, i as int).filter(|m: MemberInfo| m.state != MemberState::Left)),
            decreases ms.len() - i,
        {
            let m = self.members.get(i);
            proof {
                reveal(Seq::filter);
                assert(ms.subrange(0, i as int + 1).drop_last() =~= ms.subrange(0, i as int));
            }
            if m.state != MemberState::Left {
                out.push(m.peer);
            }
            i = i + 1;
            assert(out@ =~= crate::members::member_peers(ms.subrange(0, i as int).filter(|m: MemberInfo| m.state != MemberState::Left)));
        }
        assert(ms.subrange(0, ms.len() as int) =~= ms);
        out
    }

    /// The age of member `name`, if it is one.
    pub fn member_age_counter(&self, name: &Name) -> (r: Option<u8>)
        ensures
            r.is_some() == names_of_members(self.members@).contains(*name),
            r matches Some(a) ==> exists|i: int| 0 <= i < self.members@.len() && self.members@[i].peer.name == *name && self.members@[i].age == a,
    {
        match self.members.find(name) {
            Some(i) => {
                assert(names_of_members(self.members@)[i as int] == *name);
                Some(self.members.get(i).age)
            },
            None => None,
        }
    }

    /// Everything a fresh consensus instance needs, with the pending votes split into those
    /// that are enough and those to be cast again. The accumulator is emptied and the genesis
    /// event of the new instance is awaited.
    pub fn prepare_parsec_reset(&mut self, parsec_version: u64) -> (r: ParsecResetData)
        requires
            old(self).wf(),
        ensures
            final(self).wf(),
            !final(self).handled_genesis_event,
            final(self).accumulator@.len() == 0,
            same_info(r.elders_info, old(self).sections.our_spec()),
            r.public_key@ == old(self).our_section_bls_keys.public_key@,
            r.parsec_version == parsec_version,
            r.ages@.len() == old(self).members@.len(),
            r.completed_events@ == old(self).accumulator@.filter(|e: PendingEvent| valid_transition(*old(self), e.event, e.voters@)),
            r.cached_events@ == old(self).accumulator@.filter(|e: PendingEvent| !valid_transition(*old(self), e.event, e.voters@)),
            final(self).sections == old(self).sections,
            final(self).members == old(self).members,
            final(self).history == old(self).history,
            final(self).churn_in_progress == old(self).churn_in_progress,
    {
        let ghost me = *self;
        let ghost all = self.accumulator@;
        let ghost mut done: Seq<PendingEvent> = Seq::empty();
        let mut cached: Vec<PendingEvent> = Vec::new();
        let mut completed: Vec<PendingEvent> = Vec::new();
        while self.accumulator.len() > 0
            invariant
                me.wf(),
                me.sections == self.sections,
                me.members == self.members,
                me.history == self.history,
                me.our_name == self.our_name,
                me.churn_in_progress == self.churn_in_progress,
                me.our_section_bls_keys == self.our_section_bls_keys,
                all == done + self.accumulator@,
                completed@ == done.filter(|e: PendingEvent| valid_transition(me, e.event, e.voters@)),
                cached@ == done.filter(|e: PendingEvent| !valid_transition(me, e.event, e.voters@)),
            decreases self.accumulator@.len(),
        {
            let e = self.accumulator.remove(0);
            let ok = self.is_valid_transition(&e.event, &e.voters);
            assert(valid_transition(*self, e.event, e.voters@) == valid_transition(me, e.event, e.voters@));
            proof {
                reveal(Seq::filter);
                let d2 = done.push(e);
                assert(d2.drop_last() =~= done);
                done = d2;
            }
            if ok {
                completed.push(e);
            } else {
                cached.push(e);
            }
            assert(all =~= done + self.accumulator@);
        }
        assert(done =~= all);
        self.handled_genesis_event = false;
        let ages = self.member_ages();
        ParsecResetData {
            elders_info: self.sections.our_info().duplicate(),
            public_key: self.our_section_bls_keys.public_key.clone(),
            ages,
            parsec_version,
            cached_events: cached,
            completed_events: completed,
        }
    }
}

impl Chain {
    /// Ends a split: the new consensus instance starts from the data `prepare_parsec_reset`
    /// gives.
    pub fn finalise_prefix_change(&mut self, parsec_version: u64) -> (r: ParsecResetData)
        requires
            old(self).wf(),
        ensures
            final(self).wf(),
            !final(self).handled_genesis_event,
            final(self).accumulator@.len() == 0,
            same_info(r.elders_info, old(self).sections.our_spec()),
            r.parsec_version == parsec_version,
            final(self).sections == old(self).sections,
            final(self).members == old(self).members,
    {
        self.prepare_parsec_reset(parsec_version)
    }

    /// Checks every key of our section's history against the one before it.
    pub fn validate_our_history(&self) -> (r: bool)
        requires
            self.wf(),
        ensures
            r,
    {
        self.history.validate()
    }
}

fn prefixes_equal(a: &Prefix, b: &Prefix) -> (r: bool)
    ensures
        r == (a@ == b@),
{
    *a == *b
}

fn infos_equal(a: &EldersInfo, b: &EldersInfo) -> (r: bool)
    ensures
        r == same_info(*a, *b),
{
    prefixes_equal(&a.prefix, &b.prefix) && peers_equal(&a.members, &b.members) && a.version == b.version
}

fn names_equal(a: &Vec<Name>, b: &Vec<Name>) -> (r: bool)
    ensures
        r == (a@ == b@),
{
    if a.len() != b.len() {
        return false;
    }
    let mut i: usize = 0;
    while i < a.len()
        invariant
            a@.len() == b@.len(),
            i <= a@.len(),
            forall|j: int| 0 <= j < i ==> a@[j] == b@[j],
        decreases a@.len() - i,
    {
        if a[i] != b[i] {
            return false;
        }
        i = i + 1;
    }
    assert(a@ =~= b@);
    true
}

/// Whether the two events carry the same values.
pub fn events_equal(a: &AccumulatingEvent, b: &AccumulatingEvent) -> (r: bool)
    ensures
        r == same_event(*a, *b),
{
    match (a, b) {
        (AccumulatingEvent::Online { peer: p1, age: a1 }, AccumulatingEvent::Online { peer: p2, age: a2 }) => *p1 == *p2 && *a1 == *a2,
        (AccumulatingEvent::Offline(n1), AccumulatingEvent::Offline(n2)) => *n1 == *n2,
        (AccumulatingEvent::Relocate(d1), AccumulatingEvent::Relocate(d2)) => *d1 == *d2,
        (AccumulatingEvent::RelocatePrepare(d1, c1), AccumulatingEvent::RelocatePrepare(d2, c2)) => *d1 == *d2 && *c1 == *c2,
        (AccumulatingEvent::SectionInfo { info: i1, key: k1, key_sig: s1 }, AccumulatingEvent::SectionInfo { info: i2, key: k2, key_sig: s2 }) =>
            infos_equal(i1, i2) && bytes_equal(k1, k2) && bytes_equal(s1, s2),
        (AccumulatingEvent::NeighbourInfo(i1), AccumulatingEvent::NeighbourInfo(i2)) => infos_equal(i1, i2),
        (AccumulatingEvent::TheirKeyInfo { prefix: p1, key: k1 }, AccumulatingEvent::TheirKeyInfo { prefix: p2, key: k2 }) =>
            prefixes_equal(p1, p2) && bytes_equal(k1, k2),
        (AccumulatingEvent::AckMessage { src_prefix: p1, ack_version: v1 }, AccumulatingEvent::AckMessage { src_prefix: p2, ack_version: v2 }) =>
            prefixes_equal(p1, p2) && *v1 == *v2,
        (AccumulatingEvent::SendAckMessage { src_prefix: p1, ack_version: v1 }, AccumulatingEvent::SendAckMessage { src_prefix: p2, ack_version: v2 }) =>
            prefixes_equal(p1, p2) && *v1 == *v2,
        (AccumulatingEvent::ParsecPrune, AccumulatingEvent::ParsecPrune) => true,
        (AccumulatingEvent::StartDkg(n1), AccumulatingEvent::StartDkg(n2)) => names_equal(n1, n2),
        (AccumulatingEvent::User(b1), AccumulatingEvent::User(b2)) => bytes_equal(b1, b2),
        _ => false,
    }
}

/// Whether the two byte strings are equal.
pub fn bytes_equal(a: &Vec<u8>, b: &Vec<u8>) -> (r: bool)
    ensures
        r == (a@ == b@),
{
    if a.len() != b.len() {
        return false;
    }
    let mut i: usize = 0;
    while i < a.len()
        invariant
            a@.len() == b@.len(),
            i <= a@.len(),
            forall|j: int| 0 <= j < i ==> a@[j] == b@[j],
        decreases a@.len() - i,
    {
        if a[i] != b[i] {
            return false;
        }
        i = i + 1;
    }
    assert(a@ =~= b@);
    true
}

/// Whether the two peer lists are equal.
pub fn peers_equal(a: &Vec<Peer>, b: &Vec<Peer>) -> (r: bool)
    ensures
        r == (a@ == b@),
{
    if a.len() != b.len() {
        return false;
    }
    let mut i: usize = 0;
    while i < a.len()
        invariant
            a@.len() == b@.len(),
            i <= a@.len(),
            forall|j: int| 0 <= j < i ==> a@[j] == b@[j],
        decreases a@.len() - i,
    {
        if a[i] != b[i] {
            return false;
        }
        i = i + 1;
    }
    assert(a@ =~= b@);
    true
}

/// Takes out of `name_to_key` the key generation result filed under the first of the elders.
pub fn key_matching_first_elder_name(elders_info: &EldersInfo, name_to_key: Vec<DkgEntry>) -> (r: Result<DkgResult, RoutingError>)
    ensures
        elders_info.members@.len() == 0 ==> r == Err::<DkgResult, RoutingError>(RoutingError::InvalidElderDkgResult),
        elders_info.members@.len() > 0 ==> match dkg_for(name_to_key@, elders_info.members@[0].name, 0) {
            Some(res) => r == Ok::<DkgResult, RoutingError>(res),
            None => r == Err::<DkgResult, RoutingError>(RoutingError::InvalidElderDkgResult),
        },
{
    if elders_info.members.len() == 0 {
        return Err(RoutingError::InvalidElderDkgResult);
    }
    let first = elders_info.members[0].name;
    match find_dkg(&name_to_key, &first) {
        None => Err(RoutingError::InvalidElderDkgResult),
        Some(i) => {
            let mut keys = name_to_key;
            Ok(keys.remove(i).result)
        },
    }
}

/// Position of the first key generation result filed under `n`.
fn find_dkg(keys: &Vec<DkgEntry>, n: &Name) -> (r: Option<usize>)
    ensures
        match r {
            Some(i) => i < keys@.len() && dkg_for(keys@, *n, 0) == Some(keys@[i as int].result),
            None => dkg_for(keys@, *n, 0).is_none(),
        },
{
    let mut i: usize = 0;
    while i < keys.len()
        invariant
            i <= keys@.len(),
            dkg_for(keys@, *n, 0) == dkg_for(keys@, *n, i as int),
        decreases keys@.len() - i,
    {
        if keys[i].first == *n {
            return Some(i);
        }
        i = i + 1;
    }
    None
}

/// Position of `name` among the elders, if it is one.
pub fn position_of(info: &EldersInfo, name: &Name) -> (r: Option<usize>)
    ensures
        match r {
            Some(i) => i < info.members@.len() && info.members@[i as int].name == *name,
            None => !peer_names(info.members@).contains(*name),
        },
{
    let mut i: usize = 0;
    while i < info.members.len()
        invariant
            i <= info.members@.len(),
            forall|j: int| 0 <= j < i ==> info.members@[j].name != *name,
        decreases info.members@.len() - i,
    {
        if info.members[i].name == *name {
            return Some(i);
        }
        i = i + 1;
    }
    None
}

} // verus!
