use vstd::prelude::*;
use crate::name::Name;
use crate::closest::{closest_names, is_closest_selection};
use crate::capacity::contains_name;
use crate::prefix::{Prefix, prefix_matches};

verus! {

/// Number of active copies kept of each chunk.
pub const REPLICANTS: usize = 2;

/// State of one holder of a chunk.
#[derive(Clone, Copy, Debug, PartialEq, Eq, Structural, Hash)]
pub enum DataHolderState {
    Good,
    Failed,
    Pending,
}

/// An adult chosen to store a chunk. It is `Pending` until its Put is answered, `Good` once
/// it has stored the chunk, and `Failed` once a Put or Get on it failed.
#[derive(Clone, Copy, Debug, PartialEq, Eq, Structural, Hash)]
pub struct DataHolder {
    pub name: Name,
    pub state: DataHolderState,
}

/// The holders of one chunk.
#[derive(Clone, Debug)]
pub struct Account {
    pub data_name: Name,
    pub data_holders: Vec<DataHolder>,
}

/// Why a placement operation was refused.
#[derive(Clone, Copy, Debug, PartialEq, Eq, Structural)]
pub enum PlacementError {
    /// The response does not match an account or a holder in the expected state.
    InvalidResponse,
    /// No account for the chunk, or no holder left that has it.
    NoSuchData,
    /// No adult is left to take a replacement copy.
    UnableToAllocateNewPmidNode,
}

/// What a failed Get leads to.
#[derive(Clone, Debug, PartialEq, Eq)]
pub enum GetFailureAction {
    /// Enough good holders are left; nothing to do.
    Enough,
    /// Copy the chunk from `source` to each of `targets`, which are now pending holders.
    Replicate { source: Name, targets: Vec<Name> },
}

pub open spec fn is_active(s: DataHolderState) -> bool {
    s == DataHolderState::Good || s == DataHolderState::Pending
}

/// The state of `n` in the holder list, the last entry for `n` winning.
pub open spec fn state_of(hs: Seq<DataHolder>, n: Name) -> Option<DataHolderState>
    decreases hs.len(),
{
    if hs.len() == 0 {
        None
    } else if hs.last().name == n {
        Some(hs.last().state)
    } else {
        state_of(hs.drop_last(), n)
    }
}

/// The holder list with every entry for `n` set to state `s`.
pub open spec fn set_state(hs: Seq<DataHolder>, n: Name, s: DataHolderState) -> Seq<DataHolder> {
    hs.map_values(|h: DataHolder| if h.name == n { DataHolder { name: n, state: s } } else { h })
}

pub open spec fn holder_names(hs: Seq<DataHolder>) -> Seq<Name> {
    hs.map_values(|h: DataHolder| h.name)
}

/// The names as new pending holders.
pub open spec fn pending(ns: Seq<Name>) -> Seq<DataHolder> {
    ns.map_values(|n: Name| DataHolder { name: n, state: DataHolderState::Pending })
}

pub open spec fn count_state(hs: Seq<DataHolder>, s: DataHolderState) -> nat
    decreases hs.len(),
{
    if hs.len() == 0 {
        0
    } else {
        count_state(hs.drop_last(), s) + if hs.last().state == s {
            1nat
        } else {
            0nat
        }
    }
}

pub open spec fn active_count(hs: Seq<DataHolder>) -> nat {
    count_state(hs, DataHolderState::Good) + count_state(hs, DataHolderState::Pending)
}

/// The holders of chunk `dn`, the last account for it winning.
pub open spec fn lookup(accs: Seq<Account>, dn: Name) -> Option<Seq<DataHolder>>
    decreases accs.len(),
{
    if accs.len() == 0 {
        None
    } else if accs.last().data_name == dn {
        Some(accs.last().data_holders@)
    } else {
        lookup(accs.drop_last(), dn)
    }
}

pub open spec fn in_adults(adults: Seq<Name>, h: DataHolder) -> bool {
    adults.contains(h.name)
}

/// Holders that are still adults of the section.
pub open spec fn kept_holders(hs: Seq<DataHolder>, adults: Seq<Name>) -> Seq<DataHolder> {
    hs.filter(|h: DataHolder| adults.contains(h.name))
}

/// How many new replicants a holder list needs to reach `REPLICANTS` active holders.
pub open spec fn needed(hs: Seq<DataHolder>) -> int {
    if active_count(hs) < REPLICANTS {
        REPLICANTS - active_count(hs)
    } else {
        0
    }
}

/// After churn to the adult set `adults`, `new_hs` keeps the holders of `old_hs` that are
/// still adults, followed by the closest adults that are not holders yet, as pending holders,
/// as many as are needed to reach `REPLICANTS` active holders.
pub open spec fn churned(old_hs: Seq<DataHolder>, new_hs: Seq<DataHolder>, adults: Seq<Name>, dn: Name) -> bool {
    let kept = kept_holders(old_hs, adults);
    exists|sel: Seq<Name>|
        is_closest_selection(sel, adults, holder_names(kept), dn, needed(kept)) && new_hs
            == kept + pending(sel)
}

/// The accounts returned after churn to `adults` are exactly the chunks that got new holders,
/// each with those new (pending) holders, which follow the holders that were kept.
pub open spec fn churn_reported(old: ImmutableDataManager, new: ImmutableDataManager, r: Seq<Account>, adults: Seq<Name>) -> bool {
    &&& forall|k: int| 0 <= k < r.len() ==> #[trigger] new.holders(r[k].data_name).is_some()
        && r[k].data_holders@.len() > 0
        && old.holders(r[k].data_name).is_some()
        && new.holders(r[k].data_name).unwrap() == kept_holders(old.holders(r[k].data_name).unwrap(), adults)
            + r[k].data_holders@
        && r[k].data_holders@ == pending(holder_names(r[k].data_holders@))
    &&& forall|m: Name| #[trigger] old.holders(m).is_some()
        && new.holders(m).unwrap().len() > kept_holders(old.holders(m).unwrap(), adults).len()
        ==> exists|k: int| 0 <= k < r.len() && r[k].data_name == m
}

/// Returned account `k` names a chunk among the first `n` accounts whose holders are its
/// kept holders followed by the returned pending holders.
pub open spec fn reported_at(out: Seq<Account>, k: int, old_accs: Seq<Account>, new_accs: Seq<Account>, adults: Seq<Name>, n: int) -> bool {
    exists|j: int| 0 <= j < n && #[trigger] out[k].data_name == old_accs[j].data_name
        && new_accs[j].data_holders@ == kept_holders(old_accs[j].data_holders@, adults) + out[k].data_holders@
        && out[k].data_holders@ == pending(holder_names(out[k].data_holders@))
}

/// No adult appears twice among the holders of a chunk.
pub open spec fn distinct_holders(hs: Seq<DataHolder>) -> bool {
    holder_names(hs).no_duplicates()
}

proof fn lemma_set_state_names(hs: Seq<DataHolder>, n: Name, s: DataHolderState)
    ensures
        holder_names(set_state(hs, n, s)) == holder_names(hs),
{
    assert(holder_names(set_state(hs, n, s)) =~= holder_names(hs));
}

proof fn lemma_append_pending(hs: Seq<DataHolder>, sel: Seq<Name>)
    requires
        distinct_holders(hs),
        sel.no_duplicates(),
        forall|j: int| 0 <= j < sel.len() ==> !holder_names(hs).contains(#[trigger] sel[j]),
    ensures
        distinct_holders(hs + pending(sel)),
        holder_names(hs + pending(sel)) == holder_names(hs) + sel,
{
    assert(holder_names(hs + pending(sel)) =~= holder_names(hs) + sel);
    assert forall|i: int, j: int| 0 <= i < holder_names(hs).len() && 0 <= j < sel.len() implies holder_names(hs)[i] != sel[j] by {
        if holder_names(hs)[i] == sel[j] {
            assert(holder_names(hs).contains(sel[j]));
        }
    }
    vstd::seq_lib::lemma_no_dup_in_concat(holder_names(hs), sel);
}

proof fn lemma_push_distinct(hs: Seq<DataHolder>, h: DataHolder)
    requires
        distinct_holders(hs),
        !holder_names(hs).contains(h.name),
    ensures
        distinct_holders(hs.push(h)),
{
    assert(holder_names(hs.push(h)) =~= holder_names(hs) + seq![h.name]);
    assert forall|i: int, j: int| 0 <= i < holder_names(hs).len() && 0 <= j < 1 implies holder_names(hs)[i] != seq![h.name][j] by {
        if holder_names(hs)[i] == h.name {
            assert(holder_names(hs).contains(h.name));
        }
    }
    vstd::seq_lib::lemma_no_dup_in_concat(holder_names(hs), seq![h.name]);
}

/// Whether no adult appears twice among the holders.
fn holders_distinct(hs: &Vec<DataHolder>) -> (r: bool)
    ensures
        r == distinct_holders(hs@),
{
    let mut i: usize = 0;
    while i < hs.len()
        invariant
            i <= hs@.len(),
            forall|a: int, b: int| 0 <= a < b < i ==> hs@[a].name != hs@[b].name,
        decreases hs@.len() - i,
    {
        let mut j: usize = 0;
        while j < i
            invariant
                i < hs@.len(),
                j <= i,
                forall|a: int| 0 <= a < j ==> hs@[a].name != hs@[i as int].name,
            decreases i - j,
        {
            if hs[j].name == hs[i].name {
                assert(holder_names(hs@)[j as int] == holder_names(hs@)[i as int]);
                return false;
            }
            j = j + 1;
        }
        i = i + 1;
    }
    assert forall|a: int, b: int| 0 <= a < holder_names(hs@).len() && 0 <= b < holder_names(hs@).len() && a != b
        implies holder_names(hs@)[a] != holder_names(hs@)[b] by {
        if a < b {
            assert(hs@[a].name != hs@[b].name);
        } else {
            assert(hs@[b].name != hs@[a].name);
        }
    }
    true
}

proof fn lemma_state_of_names(hs: Seq<DataHolder>, n: Name)
    ensures
        state_of(hs, n).is_some() <==> holder_names(hs).contains(n),
    decreases hs.len(),
{
    if hs.len() > 0 {
        lemma_state_of_names(hs.drop_last(), n);
        let t = hs.drop_last();
        assert(holder_names(t) =~= holder_names(hs).drop_last());
        if hs.last().name == n {
            assert(holder_names(hs)[hs.len() - 1] == n);
        } else if holder_names(hs).contains(n) {
            let k = choose|k: int| 0 <= k < hs.len() && holder_names(hs)[k] == n;
            assert(holder_names(t)[k] == n);
        }
    }
}

/// Every chunk account lists each adult at most once.
pub proof fn lemma_holders_distinct(m: ImmutableDataManager, dn: Name)
    requires
        m.wf(),
    ensures
        m.holders(dn) matches Some(hs) ==> distinct_holders(hs),
{
    if m.holders(dn).is_some() {
        if forall|i: int| 0 <= i < m.accounts@.len() ==> m.accounts@[i].data_name != dn {
            lemma_lookup_none(m.accounts@, dn);
        }
        let i = choose|i: int| 0 <= i < m.accounts@.len() && m.accounts@[i].data_name == dn;
        lemma_lookup_index(m.accounts@, i);
    }
}

pub open spec fn unique_accounts(accs: Seq<Account>) -> bool {
    forall|i: int, j: int|
        0 <= i < accs.len() && 0 <= j < accs.len() && i != j ==> accs[i].data_name
            != accs[j].data_name
}

proof fn lemma_lookup_index(accs: Seq<Account>, i: int)
    requires
        unique_accounts(accs),
        0 <= i < accs.len(),
    ensures
        lookup(accs, accs[i].data_name) == Some(accs[i].data_holders@),
    decreases accs.len(),
{
    if i < accs.len() - 1 {
        assert(accs[i].data_name != accs.last().data_name);
        assert(accs.drop_last()[i] == accs[i]);
        lemma_lookup_index(accs.drop_last(), i);
    }
}

proof fn lemma_lookup_none(accs: Seq<Account>, dn: Name)
    requires
        forall|i: int| 0 <= i < accs.len() ==> accs[i].data_name != dn,
    ensures
        lookup(accs, dn).is_none(),
    decreases accs.len(),
{
    if accs.len() > 0 {
        lemma_lookup_none(accs.drop_last(), dn);
    }
}

proof fn lemma_lookup_update(accs: Seq<Account>, i: int, a: Account, dn: Name)
    requires
        0 <= i < accs.len(),
        a.data_name == accs[i].data_name,
        unique_accounts(accs),
    ensures
        lookup(accs.update(i, a), dn) == if dn == a.data_name {
            Some(a.data_holders@)
        } else {
            lookup(accs, dn)
        },
    decreases accs.len(),
{
    let u = accs.update(i, a);
    if i == accs.len() - 1 {
        assert(u.drop_last() =~= accs.drop_last());
    } else {
        assert(u.drop_last() =~= accs.drop_last().update(i, a));
        assert(accs[i].data_name != accs.last().data_name);
        lemma_lookup_update(accs.drop_last(), i, a, dn);
    }
}

proof fn lemma_lookup_push(accs: Seq<Account>, a: Account, dn: Name)
    ensures
        lookup(accs.push(a), dn) == if dn == a.data_name {
            Some(a.data_holders@)
        } else {
            lookup(accs, dn)
        },
{
    assert(accs.push(a).drop_last() =~= accs);
}

proof fn lemma_count_append(hs: Seq<DataHolder>, ps: Seq<DataHolder>, s: DataHolderState)
    ensures
        count_state(hs + ps, s) == count_state(hs, s) + count_state(ps, s),
    decreases ps.len(),
{
    if ps.len() > 0 {
        lemma_count_append(hs, ps.drop_last(), s);
        assert((hs + ps).drop_last() =~= hs + ps.drop_last());
    }
}

proof fn lemma_count_pending(ns: Seq<Name>)
    ensures
        count_state(pending(ns), DataHolderState::Pending) == ns.len(),
        count_state(pending(ns), DataHolderState::Good) == 0,
    decreases ns.len(),
{
    if ns.len() > 0 {
        lemma_count_pending(ns.drop_last());
        assert(pending(ns).drop_last() =~= pending(ns.drop_last()));
    }
}

/// Replica floor: after churn every chunk has `REPLICANTS` active holders, unless every adult
/// of the section already is one of its holders; and every holder is an adult of the section.
pub proof fn lemma_churn_restores_floor(
    old_hs: Seq<DataHolder>,
    new_hs: Seq<DataHolder>,
    adults: Seq<Name>,
    dn: Name,
)
    requires
        churned(old_hs, new_hs, adults, dn),
    ensures
        active_count(new_hs) >= REPLICANTS || forall|n: Name|
            adults.contains(n) ==> #[trigger] holder_names(new_hs).contains(n),
        forall|i: int| 0 <= i < new_hs.len() ==> adults.contains(#[trigger] new_hs[i].name),
{
    let kept = kept_holders(old_hs, adults);
    let sel = choose|sel: Seq<Name>|
        is_closest_selection(sel, adults, holder_names(kept), dn, needed(kept)) && new_hs
            == kept + pending(sel);
    lemma_count_append(kept, pending(sel), DataHolderState::Good);
    lemma_count_append(kept, pending(sel), DataHolderState::Pending);
    lemma_count_pending(sel);
    if active_count(new_hs) < REPLICANTS {
        assert forall|n: Name| adults.contains(n) implies #[trigger] holder_names(new_hs).contains(
            n,
        ) by {
            if holder_names(kept).contains(n) {
                let k = choose|k: int| 0 <= k < kept.len() && holder_names(kept)[k] == n;
                assert(holder_names(new_hs)[k] == n);
            } else {
                assert(sel.contains(n));
                let k = choose|k: int| 0 <= k < sel.len() && sel[k] == n;
                assert(holder_names(new_hs)[kept.len() + k] == n);
            }
        }
    }
    assert forall|i: int| 0 <= i < new_hs.len() implies adults.contains(#[trigger] new_hs[i].name) by {
        if i < kept.len() {
            assert(new_hs[i] == kept[i]);
            old_hs.lemma_filter_pred(|h: DataHolder| adults.contains(h.name), i);
        } else {
            assert(new_hs[i].name == sel[i - kept.len()]);
        }
    }
}

proof fn lemma_lookup_pointwise(
    a: Seq<Account>,
    b: Seq<Account>,
    adults: Seq<Name>,
    dn: Name,
)
    requires
        a.len() == b.len(),
        forall|i: int| 0 <= i < a.len() ==> #[trigger] b[i].data_name == a[i].data_name && churned(
            a[i].data_holders@,
            b[i].data_holders@,
            adults,
            a[i].data_name,
        ),
    ensures
        lookup(a, dn).is_some() == lookup(b, dn).is_some(),
        lookup(a, dn).is_some() ==> churned(lookup(a, dn).unwrap(), lookup(b, dn).unwrap(), adults, dn),
    decreases a.len(),
{
    if a.len() > 0 {
        let last = a.len() - 1;
        assert(b[last].data_name == a[last].data_name);
        assert forall|i: int| 0 <= i < a.drop_last().len() implies #[trigger] b.drop_last()[i].data_name
            == a.drop_last()[i].data_name && churned(
            a.drop_last()[i].data_holders@,
            b.drop_last()[i].data_holders@,
            adults,
            a.drop_last()[i].data_name,
        ) by {
            assert(b[i].data_name == a[i].data_name);
        }
        lemma_lookup_pointwise(a.drop_last(), b.drop_last(), adults, dn);
    }
}

fn set_holder_state(hs: &mut Vec<DataHolder>, n: Name, s: DataHolderState)
    ensures
        final(hs)@ == set_state(old(hs)@, n, s),
        holder_names(final(hs)@) == holder_names(old(hs)@),
        distinct_holders(old(hs)@) ==> distinct_holders(final(hs)@),
{
    proof {
        lemma_set_state_names(old(hs)@, n, s);
    }
    let mut i: usize = 0;
    while i < hs.len()
        invariant
            i <= hs@.len(),
            hs@.len() == old(hs)@.len(),
            forall|j: int| 0 <= j < i ==> hs@[j] == (if old(hs)@[j].name == n {
                DataHolder { name: n, state: s }
            } else {
                old(hs)@[j]
            }),
            forall|j: int| i <= j < hs@.len() ==> hs@[j] == old(hs)@[j],
        decreases hs@.len() - i,
    {
        if hs[i].name == n {
            hs.set(i, DataHolder { name: n, state: s });
        }
        i = i + 1;
    }
    assert(hs@ =~= set_state(old(hs)@, n, s));
}

fn find_state(hs: &Vec<DataHolder>, n: &Name) -> (r: Option<DataHolderState>)
    ensures
        r == state_of(hs@, *n),
{
    let mut i: usize = hs.len();
    assert(hs@.subrange(0, i as int) =~= hs@);
    while i > 0
        invariant
            i <= hs@.len(),
            state_of(hs@, *n) == state_of(hs@.subrange(0, i as int), *n),
        decreases i,
    {
        let h = hs[i - 1];
        assert(hs@.subrange(0, i as int).drop_last() =~= hs@.subrange(0, i - 1));
        if h.name == *n {
            return Some(h.state);
        }
        i = i - 1;
    }
    None
}

fn names_of(hs: &Vec<DataHolder>) -> (r: Vec<Name>)
    ensures
        r@ == holder_names(hs@),
{
    let mut out: Vec<Name> = Vec::new();
    let mut i: usize = 0;
    while i < hs.len()
        invariant
            i <= hs@.len(),
            out@ == holder_names(hs@.subrange(0, i as int)),
        decreases hs@.len() - i,
    {
        out.push(hs[i].name);
        i = i + 1;
        assert(out@ =~= holder_names(hs@.subrange(0, i as int)));
    }
    assert(hs@.subrange(0, hs@.len() as int) =~= hs@);
    out
}

fn count_holders(hs: &Vec<DataHolder>, s: DataHolderState) -> (r: usize)
    ensures
        r == count_state(hs@, s),
        r <= hs@.len(),
{
    let mut c: usize = 0;
    let mut i: usize = 0;
    while i < hs.len()
        invariant
            i <= hs@.len(),
            c == count_state(hs@.subrange(0, i as int), s),
            c <= i,
        decreases hs@.len() - i,
    {
        assert(hs@.subrange(0, i as int + 1).drop_last() =~= hs@.subrange(0, i as int));
        if hs[i].state == s {
            c = c + 1;
        }
        i = i + 1;
    }
    assert(hs@.subrange(0, hs@.len() as int) =~= hs@);
    c
}

fn push_pending(hs: &mut Vec<DataHolder>, ns: &Vec<Name>)
    ensures
        final(hs)@ == old(hs)@ + pending(ns@),
{
    let mut i: usize = 0;
    while i < ns.len()
        invariant
            i <= ns@.len(),
            hs@ == old(hs)@ + pending(ns@.subrange(0, i as int)),
        decreases ns@.len() - i,
    {
        hs.push(DataHolder { name: ns[i], state: DataHolderState::Pending });
        i = i + 1;
        assert(hs@ =~= old(hs)@ + pending(ns@.subrange(0, i as int)));
    }
    assert(ns@.subrange(0, ns@.len() as int) =~= ns@);
}

impl Account {
    pub fn new(data_name: Name, data_holders: Vec<DataHolder>) -> (r: Account)
        ensures
            r.data_name == data_name,
            r.data_holders@ == data_holders@,
    {
        Account { data_name, data_holders }
    }

    pub fn data_holders(&self) -> (r: &Vec<DataHolder>)
        ensures
            r@ == self.data_holders@,
    {
        &self.data_holders
    }

    pub fn name(&self) -> (r: Name)
        ensures
            r == self.data_name,
    {
        self.data_name
    }
}

/// Chunk accounts of the section that is closest to the chunks: who holds each chunk.
pub struct ImmutableDataManager {
    accounts: Vec<Account>,
}

impl ImmutableDataManager {
    pub closed spec fn wf(&self) -> bool {
        unique_accounts(self.accounts@) && forall|i: int| 0 <= i < self.accounts@.len()
            ==> distinct_holders((#[trigger] self.accounts@[i]).data_holders@)
    }

    /// The accounts, one per chunk.
    pub closed spec fn accounts_seq(&self) -> Seq<Account> {
        self.accounts@
    }

    /// The holders of chunk `dn`, if there is an account for it.
    pub open spec fn holders(&self, dn: Name) -> Option<Seq<DataHolder>> {
        lookup(self.accounts_seq(), dn)
    }

    pub fn new() -> (r: ImmutableDataManager)
        ensures
            r.wf(),
            forall|dn: Name| r.holders(dn).is_none(),
    {
        ImmutableDataManager { accounts: Vec::new() }
    }

    fn find(&self, dn: &Name) -> (r: Option<usize>)
        requires
            self.wf(),
        ensures
            match r {
                Some(i) => i < self.accounts@.len() && self.accounts@[i as int].data_name == *dn
                    && self.holders(*dn) == Some(self.accounts@[i as int].data_holders@)
                    && distinct_holders(self.accounts@[i as int].data_holders@),
                None => self.holders(*dn).is_none() && forall|i: int|
                    0 <= i < self.accounts@.len() ==> self.accounts@[i].data_name != *dn,
            },
    {
        let mut i: usize = 0;
        while i < self.accounts.len()
            invariant
                self.wf(),
                i <= self.accounts@.len(),
                forall|j: int| 0 <= j < i ==> self.accounts@[j].data_name != *dn,
            decreases self.accounts@.len() - i,
        {
            if self.accounts[i].data_name == *dn {
                proof {
                    lemma_lookup_index(self.accounts@, i as int);
                }
                return Some(i);
            }
            i = i + 1;
        }
        proof {
            lemma_lookup_none(self.accounts@, *dn);
        }
        None
    }

    fn replace_holders(&mut self, i: usize, hs: Vec<DataHolder>)
        requires
            old(self).wf(),
            i < old(self).accounts@.len(),
            distinct_holders(hs@),
        ensures
            final(self).wf(),
            forall|m: Name| #[trigger]
                final(self).holders(m) == if m == old(self).accounts@[i as int].data_name {
                    Some(hs@)
                } else {
                    old(self).holders(m)
                },
    {
        let dn = self.accounts[i].data_name;
        let a = Account { data_name: dn, data_holders: hs };
        proof {
            assert forall|m: Name| #[trigger]
                lookup(self.accounts@.update(i as int, a), m) == if m == dn {
                    Some(a.data_holders@)
                } else {
                    lookup(self.accounts@, m)
                } by {
                lemma_lookup_update(self.accounts@, i as int, a, m);
            }
        }
        let ghost before = self.accounts@;
        self.accounts.set(i, a);
        assert forall|j: int| 0 <= j < self.accounts@.len() implies distinct_holders((#[trigger] self.accounts@[j]).data_holders@) by {
            if j != i {
                assert(self.accounts@[j] == before[j]);
            }
        }
    }

    /// The holders of chunk `data_name`, if it has an account.
    pub fn holders_of(&self, data_name: &Name) -> (r: Option<Vec<DataHolder>>)
        requires
            self.wf(),
        ensures
            match self.holders(*data_name) {
                Some(hs) => r matches Some(v) && v@ == hs,
                None => r.is_none(),
            },
    {
        match self.find(data_name) {
            Some(i) => Some(self.accounts[i].data_holders.clone()),
            None => None,
        }
    }

    /// Stores a chunk: chooses up to `REPLICANTS` adults closest to the chunk that are not
    /// full, records them as pending holders and returns them, as the adults to send the chunk
    /// to. A chunk that already has an account is left as it is, and nothing is returned.
    pub fn handle_put(&mut self, data_name: Name, adults: &Vec<Name>, full_adults: &Vec<Name>) -> (r:
        Vec<Name>)
        requires
            old(self).wf(),
        ensures
            final(self).wf(),
            old(self).holders(data_name).is_some() ==> r@.len() == 0 && forall|m: Name| #[trigger]
                final(self).holders(m) == old(self).holders(m),
            old(self).holders(data_name).is_none() ==> {
                &&& is_closest_selection(r@, adults@, full_adults@, data_name, REPLICANTS as int)
                &&& forall|m: Name| #[trigger]
                    final(self).holders(m) == if m == data_name {
                        Some(pending(r@))
                    } else {
                        old(self).holders(m)
                    }
            },
    {
        match self.find(&data_name) {
            Some(_) => Vec::new(),
            None => {
                let chosen = closest_names(adults, &data_name, full_adults, REPLICANTS);
                let mut hs: Vec<DataHolder> = Vec::new();
                push_pending(&mut hs, &chosen);
                assert(hs@ =~= pending(chosen@));
                proof {
                    crate::closest::lemma_selection_distinct(chosen@, adults@, full_adults@, data_name, REPLICANTS as int);
                    assert(Seq::<DataHolder>::empty() + pending(chosen@) =~= pending(chosen@));
                    lemma_append_pending(Seq::<DataHolder>::empty(), chosen@);
                }
                let a = Account { data_name, data_holders: hs };
                proof {
                    assert forall|m: Name| #[trigger]
                        lookup(self.accounts@.push(a), m) == if m == data_name {
                            Some(pending(chosen@))
                        } else {
                            lookup(self.accounts@, m)
                        } by {
                        lemma_lookup_push(self.accounts@, a, m);
                    }
                }
                let ghost before = self.accounts@;
                self.accounts.push(a);
                proof {
                    assert forall|i: int, j: int|
                        0 <= i < self.accounts@.len() && 0 <= j < self.accounts@.len() && i
                            != j implies self.accounts@[i].data_name
                        != self.accounts@[j].data_name by {
                        if i < before.len() {
                            assert(self.accounts@[i] == before[i]);
                        }
                        if j < before.len() {
                            assert(self.accounts@[j] == before[j]);
                        }
                    }
                    assert forall|j: int| 0 <= j < self.accounts@.len() implies distinct_holders((#[trigger] self.accounts@[j]).data_holders@) by {
                        if j < before.len() {
                            assert(self.accounts@[j] == before[j]);
                        }
                    }
                }
                chosen
            },
        }
    }

    /// Records a successful Put: a pending holder becomes good. Doing so twice changes nothing.
    /// Refused, with nothing changed, for an unknown chunk, a holder that is not in the account,
    /// or one that failed.
    pub fn handle_put_success(&mut self, holder: &Name, data_name: &Name) -> (r: Result<
        (),
        PlacementError,
    >)
        requires
            old(self).wf(),
        ensures
            final(self).wf(),
            match old(self).holders(*data_name) {
                None => r == Err::<(), PlacementError>(PlacementError::InvalidResponse),
                Some(hs) => match state_of(hs, *holder) {
                    Some(DataHolderState::Pending) | Some(DataHolderState::Good) => r is Ok,
                    _ => r == Err::<(), PlacementError>(PlacementError::InvalidResponse),
                },
            },
            r is Ok ==> forall|m: Name| #[trigger]
                final(self).holders(m) == if m == *data_name {
                    Some(set_state(old(self).holders(m).unwrap(), *holder, DataHolderState::Good))
                } else {
                    old(self).holders(m)
                },
            r is Err ==> forall|m: Name| #[trigger] final(self).holders(m) == old(self).holders(m),
    {
        match self.find(data_name) {
            None => Err(PlacementError::InvalidResponse),
            Some(i) => {
                let st = find_state(&self.accounts[i].data_holders, holder);
                match st {
                    Some(DataHolderState::Pending) | Some(DataHolderState::Good) => {
                        let mut hs = self.accounts[i].data_holders.clone();
                        assert(hs@ == self.accounts@[i as int].data_holders@);
                        set_holder_state(&mut hs, *holder, DataHolderState::Good);
                        self.replace_holders(i, hs);
                        Ok(())
                    },
                    _ => Err(PlacementError::InvalidResponse),
                }
            },
        }
    }

    /// Records a failed Put: the pending holder is marked failed and the closest adult that is
    /// not yet in the account becomes a pending holder, and is returned as the adult to send
    /// the chunk to. Refused, with nothing changed, for an unknown chunk or a holder that is
    /// not pending. Where no adult is left the holder stays failed and the error says so.
    pub fn handle_put_failure(&mut self, holder: &Name, data_name: &Name, adults: &Vec<Name>) -> (r:
        Result<Name, PlacementError>)
        requires
            old(self).wf(),
        ensures
            final(self).wf(),
            match old(self).holders(*data_name) {
                None => r == Err::<Name, PlacementError>(PlacementError::InvalidResponse),
                Some(hs) => if state_of(hs, *holder) != Some(DataHolderState::Pending) {
                    r == Err::<Name, PlacementError>(PlacementError::InvalidResponse)
                } else {
                    let failed = set_state(hs, *holder, DataHolderState::Failed);
                    match r {
                        Ok(n) => is_closest_selection(
                            seq![n],
                            adults@,
                            holder_names(hs),
                            *data_name,
                            1,
                        ) && final(self).holders(*data_name) == Some(failed.push(
                            DataHolder { name: n, state: DataHolderState::Pending },
                        )),
                        Err(e) => e == PlacementError::UnableToAllocateNewPmidNode
                            && is_closest_selection(
                            Seq::empty(),
                            adults@,
                            holder_names(hs),
                            *data_name,
                            1,
                        ) && final(self).holders(*data_name) == Some(failed),
                    }
                },
            },
            forall|m: Name| m != *data_name ==> #[trigger] final(self).holders(m) == old(self).holders(m),
            r == Err::<Name, PlacementError>(PlacementError::InvalidResponse) ==> forall|m: Name| #[trigger]
                final(self).holders(m) == old(self).holders(m),
    {
        let i = match self.find(data_name) {
            None => {
                return Err(PlacementError::InvalidResponse);
            },
            Some(i) => i,
        };
        let st = find_state(&self.accounts[i].data_holders, holder);
        if st != Some(DataHolderState::Pending) {
            return Err(PlacementError::InvalidResponse);
        }
        let mut hs = self.accounts[i].data_holders.clone();
        assert(hs@ == self.accounts@[i as int].data_holders@);
        let ghost orig = hs@;
        let exclude = names_of(&hs);
        set_holder_state(&mut hs, *holder, DataHolderState::Failed);
        let chosen = closest_names(adults, data_name, &exclude, 1);
        if chosen.len() == 0 {
            assert(chosen@ =~= Seq::<Name>::empty());
            self.replace_holders(i, hs);
            Err(PlacementError::UnableToAllocateNewPmidNode)
        } else {
            let n = chosen[0];
            assert(chosen@ =~= seq![n]);
            let ghost failed = hs@;
            hs.push(DataHolder { name: n, state: DataHolderState::Pending });
            proof {
                assert(hs@ =~= failed + pending(seq![n]));
                assert(seq![n].no_duplicates());
                lemma_append_pending(failed, seq![n]);
            }
            self.replace_holders(i, hs);
            Ok(n)
        }
    }

    /// The holders to ask for a chunk: its good and pending holders.
    pub fn handle_get(&self, data_name: &Name) -> (r: Result<Vec<Name>, PlacementError>)
        requires
            self.wf(),
        ensures
            match self.holders(*data_name) {
                None => r == Err::<Vec<Name>, PlacementError>(PlacementError::NoSuchData),
                Some(hs) => r is Ok && r->Ok_0@ == holder_names(
                    hs.filter(|h: DataHolder| is_active(h.state)),
                ),
            },
    {
        match self.find(data_name) {
            None => Err(PlacementError::NoSuchData),
            Some(i) => {
                let hs = &self.accounts[i].data_holders;
                let mut out: Vec<Name> = Vec::new();
                let mut k: usize = 0;
                while k < hs.len()
                    invariant
                        k <= hs@.len(),
                        out@ == holder_names(
                            hs@.subrange(0, k as int).filter(|h: DataHolder| is_active(h.state)),
                        ),
                    decreases hs@.len() - k,
                {
                    let h = hs[k];
                    proof {
                        let s = hs@.subrange(0, k as int + 1);
                        assert(s.drop_last() =~= hs@.subrange(0, k as int));
                        reveal(Seq::filter);
                    }
                    if h.state == DataHolderState::Good || h.state == DataHolderState::Pending {
                        out.push(h.name);
                    }
                    k = k + 1;
                    assert(out@ =~= holder_names(
                        hs@.subrange(0, k as int).filter(|h: DataHolder| is_active(h.state)),
                    ));
                }
                assert(hs@.subrange(0, hs@.len() as int) =~= hs@);
                Ok(out)
            },
        }
    }

    /// Records a failed Get from `holder`: it is marked failed. With fewer than `REPLICANTS`
    /// good holders left, the closest adults that are not holders yet become pending holders,
    /// to be filled from the first good holder; with no good holder left the chunk is lost to
    /// the requester. Refused, with nothing changed, for an unknown chunk or a holder that is
    /// not in the account.
    pub fn handle_get_failure(&mut self, holder: &Name, data_name: &Name, adults: &Vec<Name>) -> (r:
        Result<GetFailureAction, PlacementError>)
        requires
            old(self).wf(),
        ensures
            final(self).wf(),
            forall|m: Name| m != *data_name ==> #[trigger] final(self).holders(m) == old(self).holders(m),
            match old(self).holders(*data_name) {
                None => r == Err::<GetFailureAction, PlacementError>(PlacementError::NoSuchData)
                    && final(self).holders(*data_name).is_none(),
                Some(hs) => if state_of(hs, *holder).is_none() {
                    r == Err::<GetFailureAction, PlacementError>(PlacementError::InvalidResponse)
                        && final(self).holders(*data_name) == Some(hs)
                } else {
                    let failed = set_state(hs, *holder, DataHolderState::Failed);
                    let goods = failed.filter(|h: DataHolder| h.state == DataHolderState::Good);
                    if count_state(failed, DataHolderState::Good) >= REPLICANTS {
                        r == Ok::<GetFailureAction, PlacementError>(GetFailureAction::Enough)
                            && final(self).holders(*data_name) == Some(failed)
                    } else if goods.len() == 0 {
                        r == Err::<GetFailureAction, PlacementError>(PlacementError::NoSuchData)
                            && final(self).holders(*data_name) == Some(failed)
                    } else {
                        match r {
                            Ok(GetFailureAction::Replicate { source, targets }) => source == goods[0].name
                                && is_closest_selection(
                                targets@,
                                adults@,
                                holder_names(failed),
                                *data_name,
                                REPLICANTS - count_state(failed, DataHolderState::Good),
                            ) && final(self).holders(*data_name) == Some(failed + pending(targets@)),
                            _ => false,
                        }
                    }
                },
            },
    {
        let i = match self.find(data_name) {
            None => {
                return Err(PlacementError::NoSuchData);
            },
            Some(i) => i,
        };
        if find_state(&self.accounts[i].data_holders, holder).is_none() {
            return Err(PlacementError::InvalidResponse);
        }
        let mut hs = self.accounts[i].data_holders.clone();
        assert(hs@ == self.accounts@[i as int].data_holders@);
        set_holder_state(&mut hs, *holder, DataHolderState::Failed);
        let good = count_holders(&hs, DataHolderState::Good);
        if good >= REPLICANTS {
            self.replace_holders(i, hs);
            return Ok(GetFailureAction::Enough);
        }
        let source = match first_good(&hs) {
            None => {
                self.replace_holders(i, hs);
                return Err(PlacementError::NoSuchData);
            },
            Some(n) => n,
        };
        let exclude = names_of(&hs);
        let targets = closest_names(adults, data_name, &exclude, REPLICANTS - good);
        let ghost failed = hs@;
        push_pending(&mut hs, &targets);
        proof {
            crate::closest::lemma_selection_distinct(targets@, adults@, exclude@, *data_name, (REPLICANTS - good) as int);
            lemma_append_pending(failed, targets@);
        }
        self.replace_holders(i, hs);
        Ok(GetFailureAction::Replicate { source, targets })
    }

    /// Records that `holder` served the chunk: it is a good holder from now on. Without an
    /// account for the chunk one is opened with that holder alone.
    pub fn handle_get_success(&mut self, holder: &Name, data_name: &Name)
        requires
            old(self).wf(),
        ensures
            final(self).wf(),
            forall|m: Name| m != *data_name ==> #[trigger] final(self).holders(m) == old(self).holders(m),
            match old(self).holders(*data_name) {
                None => final(self).holders(*data_name) == Some(seq![DataHolder { name: *holder, state: DataHolderState::Good }]),
                Some(hs) => if state_of(hs, *holder).is_some() {
                    final(self).holders(*data_name) == Some(set_state(hs, *holder, DataHolderState::Good))
                } else {
                    final(self).holders(*data_name) == Some(hs.push(DataHolder { name: *holder, state: DataHolderState::Good }))
                },
            },
    {
        match self.find(data_name) {
            Some(i) => {
                let mut hs = self.accounts[i].data_holders.clone();
                assert(hs@ == self.accounts@[i as int].data_holders@);
                if find_state(&hs, holder).is_some() {
                    set_holder_state(&mut hs, *holder, DataHolderState::Good);
                } else {
                    let ghost before = hs@;
                    proof {
                        lemma_state_of_names(before, *holder);
                    }
                    hs.push(DataHolder { name: *holder, state: DataHolderState::Good });
                    proof {
                        lemma_push_distinct(before, DataHolder { name: *holder, state: DataHolderState::Good });
                    }
                }
                self.replace_holders(i, hs);
            },
            None => {
                let mut hs: Vec<DataHolder> = Vec::new();
                hs.push(DataHolder { name: *holder, state: DataHolderState::Good });
                assert(hs@ =~= seq![DataHolder { name: *holder, state: DataHolderState::Good }]);
                let acc = Account { data_name: *data_name, data_holders: hs };
                proof {
                    assert(holder_names(seq![DataHolder { name: *holder, state: DataHolderState::Good }]) =~= seq![*holder]);
                }
                self.handle_refresh(*data_name, acc);
            },
        }
    }

    /// Takes over the account of a chunk from another manager after churn, replacing any
    /// account held for it. An account that lists an adult twice is refused, and nothing
    /// changes. Returns whether it was taken over.
    pub fn handle_refresh(&mut self, data_name: Name, account: Account) -> (r: bool)
        requires
            old(self).wf(),
        ensures
            final(self).wf(),
            r == distinct_holders(account.data_holders@),
            r ==> forall|m: Name| #[trigger]
                final(self).holders(m) == if m == data_name {
                    Some(account.data_holders@)
                } else {
                    old(self).holders(m)
                },
            !r ==> forall|m: Name| #[trigger] final(self).holders(m) == old(self).holders(m),
    {
        if !holders_distinct(&account.data_holders) {
            return false;
        }
        let hs = account.data_holders;
        match self.find(&data_name) {
            Some(i) => {
                self.replace_holders(i, hs);
            },
            None => {
                let a = Account { data_name, data_holders: hs };
                proof {
                    assert forall|m: Name| #[trigger]
                        lookup(self.accounts@.push(a), m) == if m == data_name {
                            Some(a.data_holders@)
                        } else {
                            lookup(self.accounts@, m)
                        } by {
                        lemma_lookup_push(self.accounts@, a, m);
                    }
                }
                let ghost before = self.accounts@;
                self.accounts.push(a);
                proof {
                    assert forall|i: int, j: int|
                        0 <= i < self.accounts@.len() && 0 <= j < self.accounts@.len() && i
                            != j implies self.accounts@[i].data_name
                        != self.accounts@[j].data_name by {
                        if i < before.len() {
                            assert(self.accounts@[i] == before[i]);
                        }
                        if j < before.len() {
                            assert(self.accounts@[j] == before[j]);
                        }
                    }
                    assert forall|j: int| 0 <= j < self.accounts@.len() implies distinct_holders((#[trigger] self.accounts@[j]).data_holders@) by {
                        if j < before.len() {
                            assert(self.accounts@[j] == before[j]);
                        }
                    }
                }
            },
        }
        true
    }

    /// After a split: drops the accounts of chunks whose names no longer lie under our
    /// prefix `p`; the others are kept as they are.
    pub fn retain_under(&mut self, p: &Prefix)
        requires
            old(self).wf(),
            p.wf(),
        ensures
            final(self).wf(),
            forall|m: Name| #[trigger] final(self).holders(m) == if prefix_matches(p@, m) {
                old(self).holders(m)
            } else {
                None
            },
    {
        let ghost orig = self.accounts@;
        let ghost mut c: int = 0;
        let mut out: Vec<Account> = Vec::new();
        while self.accounts.len() > 0
            invariant
                p.wf(),
                unique_accounts(orig),
                forall|i: int| 0 <= i < orig.len() ==> distinct_holders((#[trigger] orig[i]).data_holders@),
                0 <= c <= orig.len(),
                self.accounts@ == orig.subrange(c, orig.len() as int),
                unique_accounts(out@),
                forall|k: int| 0 <= k < out@.len() ==> distinct_holders((#[trigger] out@[k]).data_holders@),
                forall|k: int| 0 <= k < out@.len() ==> exists|j: int| 0 <= j < c && #[trigger] out@[k].data_name == orig[j].data_name,
                forall|m: Name| #[trigger] lookup(out@, m) == if prefix_matches(p@, m) {
                    lookup(orig.subrange(0, c), m)
                } else {
                    None
                },
            decreases self.accounts@.len(),
        {
            let a = self.accounts.remove(0);
            proof {
                assert(a == orig[c]);
                assert(orig.subrange(0, c + 1) =~= orig.subrange(0, c).push(a));
                assert(self.accounts@ =~= orig.subrange(c + 1, orig.len() as int));
            }
            if p.matches(&a.data_name) {
                let ghost before = out@;
                proof {
                    assert forall|m: Name| #[trigger] lookup(before.push(a), m) == if prefix_matches(p@, m) {
                        lookup(orig.subrange(0, c + 1), m)
                    } else {
                        None
                    } by {
                        lemma_lookup_push(before, a, m);
                        lemma_lookup_push(orig.subrange(0, c), a, m);
                    }
                }
                out.push(a);
                proof {
                    assert forall|i: int, j: int| 0 <= i < out@.len() && 0 <= j < out@.len() && i != j
                        implies out@[i].data_name != out@[j].data_name by {
                        if i < before.len() && j < before.len() {
                            assert(out@[i] == before[i] && out@[j] == before[j]);
                        } else if i < before.len() {
                            assert(out@[i] == before[i]);
                            let q = choose|q: int| 0 <= q < c && #[trigger] before[i].data_name == orig[q].data_name;
                        } else if j < before.len() {
                            assert(out@[j] == before[j]);
                            let q = choose|q: int| 0 <= q < c && #[trigger] before[j].data_name == orig[q].data_name;
                        }
                    }
                    assert forall|k: int| 0 <= k < out@.len() implies distinct_holders((#[trigger] out@[k]).data_holders@) by {
                        if k < before.len() {
                            assert(out@[k] == before[k]);
                        }
                    }
                    assert forall|k: int| 0 <= k < out@.len() implies exists|j: int| 0 <= j < c + 1 && #[trigger] out@[k].data_name == orig[j].data_name by {
                        if k < before.len() {
                            assert(out@[k] == before[k]);
                            let q = choose|q: int| 0 <= q < c && #[trigger] before[k].data_name == orig[q].data_name;
                        } else {
                            assert(out@[k].data_name == orig[c].data_name);
                        }
                    }
                }
            } else {
                proof {
                    assert forall|m: Name| #[trigger] lookup(out@, m) == if prefix_matches(p@, m) {
                        lookup(orig.subrange(0, c + 1), m)
                    } else {
                        None
                    } by {
                        lemma_lookup_push(orig.subrange(0, c), a, m);
                    }
                }
            }
            proof {
                c = c + 1;
            }
        }
        proof {
            assert(orig.subrange(0, c) =~= orig);
        }
        self.accounts = out;
    }

    /// Brings every account in line with the adult set `adults`: holders that left are
    /// dropped and chunks short of `REPLICANTS` active holders get the closest new adults as
    /// pending holders. Returns, per chunk that got new holders, the adults to send it to.
    pub fn on_churn(&mut self, adults: &Vec<Name>) -> (r: Vec<Account>)
        requires
            old(self).wf(),
        ensures
            final(self).wf(),
            forall|m: Name| #[trigger] final(self).holders(m).is_some() == old(self).holders(m).is_some(),
            forall|m: Name| #[trigger] old(self).holders(m).is_some() ==> churned(
                old(self).holders(m).unwrap(),
                final(self).holders(m).unwrap(),
                adults@,
                m,
            ),
            churn_reported(*old(self), *final(self), r@, adults@),
    {
        let ghost orig = self.accounts@;
        let mut out: Vec<Account> = Vec::new();
        let mut i: usize = 0;
        while i < self.accounts.len()
            invariant
                self.wf(),
                i <= self.accounts@.len(),
                self.accounts@.len() == orig.len(),
                forall|j: int| 0 <= j < i ==> #[trigger] self.accounts@[j].data_name == orig[j].data_name
                    && churned(orig[j].data_holders@, self.accounts@[j].data_holders@, adults@, orig[j].data_name),
                forall|j: int| i <= j < orig.len() ==> #[trigger] self.accounts@[j] == orig[j],
                unique_accounts(orig),
                forall|k: int| 0 <= k < out@.len() ==> lookup(orig, #[trigger] out@[k].data_name).is_some(),
                forall|k: int| 0 <= k < out@.len() ==> #[trigger] out@[k].data_holders@.len() > 0,
                forall|k: int| 0 <= k < out@.len() ==> #[trigger] reported_at(out@, k, orig, self.accounts@, adults@, i as int),
                forall|j: int| 0 <= j < i && self.accounts@[j].data_holders@.len() > kept_holders(orig[j].data_holders@, adults@).len()
                    ==> exists|k: int| 0 <= k < out@.len() && #[trigger] out@[k].data_name == orig[j].data_name,
            decreases orig.len() - i,
        {
            assert(self.accounts@[i as int] == orig[i as int]);
            let dn = self.accounts[i].data_name;
            let kept = retain_adults(&self.accounts[i].data_holders, adults);
            let good = count_holders(&kept, DataHolderState::Good);
            let need: usize = if good >= REPLICANTS {
                0
            } else {
                let pend = count_holders(&kept, DataHolderState::Pending);
                if pend >= REPLICANTS - good {
                    0
                } else {
                    REPLICANTS - good - pend
                }
            };
            assert(need == needed(kept@));
            let exclude = names_of(&kept);
            let sel = closest_names(adults, &dn, &exclude, need);
            let mut hs = kept.clone();
            assert(hs@ == kept@);
            push_pending(&mut hs, &sel);
            proof {
                crate::closest::lemma_selection_distinct(sel@, adults@, exclude@, dn, need as int);
                lemma_append_pending(kept@, sel@);
            }
            assert(is_closest_selection(sel@, adults@, holder_names(kept@), dn, needed(kept@))
                && hs@ == kept@ + pending(sel@));
            assert(churned(orig[i as int].data_holders@, hs@, adults@, dn));
            let ghost before = self.accounts@;
            self.accounts.set(i, Account { data_name: dn, data_holders: hs });
            proof {
                assert forall|j: int| 0 <= j < self.accounts@.len() implies distinct_holders((#[trigger] self.accounts@[j]).data_holders@) by {
                    if j != i {
                        assert(self.accounts@[j] == before[j]);
                    }
                }
                assert forall|a: int, b: int|
                    0 <= a < self.accounts@.len() && 0 <= b < self.accounts@.len() && a != b implies self.accounts@[a].data_name
                    != self.accounts@[b].data_name by {
                    assert(self.accounts@[a].data_name == before[a].data_name);
                    assert(self.accounts@[b].data_name == before[b].data_name);
                }
            }
            proof {
                assert forall|k: int| 0 <= k < out@.len() implies #[trigger] reported_at(out@, k, orig, self.accounts@, adults@, i + 1) by {
                    assert(reported_at(out@, k, orig, before, adults@, i as int));
                    let j = choose|j: int| 0 <= j < i && #[trigger] out@[k].data_name == orig[j].data_name
                        && before[j].data_holders@ == kept_holders(orig[j].data_holders@, adults@) + out@[k].data_holders@
                        && out@[k].data_holders@ == pending(holder_names(out@[k].data_holders@));
                    assert(j != i);
                    assert(self.accounts@[j] == before[j]);
                }
            }
            if sel.len() > 0 {
                let ghost before_out = out@;
                let ps = pending_vec(&sel);
                proof {
                    assert(holder_names(pending(sel@)) =~= sel@);
                }
                out.push(Account { data_name: dn, data_holders: ps });
                proof {
                    assert forall|k: int| 0 <= k < out@.len() implies #[trigger] reported_at(out@, k, orig, self.accounts@, adults@, i + 1) by {
                        if k < before_out.len() {
                            assert(out@[k] == before_out[k]);
                            assert(reported_at(before_out, k, orig, self.accounts@, adults@, i + 1));
                            let j = choose|j: int| 0 <= j < i + 1 && #[trigger] before_out[k].data_name == orig[j].data_name
                                && self.accounts@[j].data_holders@ == kept_holders(orig[j].data_holders@, adults@) + before_out[k].data_holders@
                                && before_out[k].data_holders@ == pending(holder_names(before_out[k].data_holders@));
                            assert(out@[k].data_name == orig[j].data_name);
                        } else {
                            assert(out@[k].data_name == orig[i as int].data_name);
                            assert(out@[k].data_holders@ == pending(sel@));
                            assert(self.accounts@[i as int].data_holders@ == kept_holders(orig[i as int].data_holders@, adults@) + out@[k].data_holders@);
                        }
                    }
                    assert forall|j: int| 0 <= j < i + 1 && self.accounts@[j].data_holders@.len() > kept_holders(orig[j].data_holders@, adults@).len()
                        implies exists|k: int| 0 <= k < out@.len() && #[trigger] out@[k].data_name == orig[j].data_name by {
                        if j < i {
                            assert(self.accounts@[j] == before[j]);
                            let k = choose|k: int| 0 <= k < before_out.len() && #[trigger] before_out[k].data_name == orig[j].data_name;
                            assert(out@[k] == before_out[k]);
                        } else {
                            assert(out@[before_out.len() as int].data_name == orig[j].data_name);
                        }
                    }
                    lemma_lookup_index(orig, i as int);
                    assert forall|k: int| 0 <= k < out@.len() implies lookup(orig, #[trigger] out@[k].data_name).is_some() by {
                        if k < before_out.len() {
                            assert(out@[k] == before_out[k]);
                        }
                    }
                    assert forall|k: int| 0 <= k < out@.len() implies #[trigger] out@[k].data_holders@.len() > 0 by {
                        if k < before_out.len() {
                            assert(out@[k] == before_out[k]);
                        }
                    }
                }
            } else {
                proof {
                    assert(sel@ =~= Seq::<Name>::empty());
                    assert(hs@ =~= kept@);
                    assert forall|j: int| 0 <= j < i + 1 && self.accounts@[j].data_holders@.len() > kept_holders(orig[j].data_holders@, adults@).len()
                        implies exists|k: int| 0 <= k < out@.len() && #[trigger] out@[k].data_name == orig[j].data_name by {
                        assert(j < i);
                        assert(self.accounts@[j] == before[j]);
                    }
                }
            }
            i = i + 1;
        }
        proof {
            assert forall|m: Name| #[trigger] self.holders(m).is_some() == lookup(orig, m).is_some() by {
                lemma_lookup_pointwise(orig, self.accounts@, adults@, m);
            }
            assert forall|m: Name| #[trigger] lookup(orig, m).is_some() implies churned(
                lookup(orig, m).unwrap(),
                self.holders(m).unwrap(),
                adults@,
                m,
            ) by {
                lemma_lookup_pointwise(orig, self.accounts@, adults@, m);
            }
            assert forall|k: int| 0 <= k < out@.len() implies #[trigger] self.holders(out@[k].data_name).is_some()
                && lookup(orig, out@[k].data_name).is_some()
                && self.holders(out@[k].data_name).unwrap() == kept_holders(lookup(orig, out@[k].data_name).unwrap(), adults@)
                    + out@[k].data_holders@
                && out@[k].data_holders@ == pending(holder_names(out@[k].data_holders@)) by {
                assert(reported_at(out@, k, orig, self.accounts@, adults@, i as int));
                let j = choose|j: int| 0 <= j < i && #[trigger] out@[k].data_name == orig[j].data_name
                    && self.accounts@[j].data_holders@ == kept_holders(orig[j].data_holders@, adults@) + out@[k].data_holders@
                    && out@[k].data_holders@ == pending(holder_names(out@[k].data_holders@));
                lemma_lookup_index(orig, j);
                lemma_lookup_index(self.accounts@, j);
            }
            assert forall|m: Name| #[trigger] lookup(orig, m).is_some()
                && self.holders(m).unwrap().len() > kept_holders(lookup(orig, m).unwrap(), adults@).len()
                implies exists|k: int| 0 <= k < out@.len() && out@[k].data_name == m by {
                if forall|j: int| 0 <= j < orig.len() ==> orig[j].data_name != m {
                    lemma_lookup_none(orig, m);
                }
                let j = choose|j: int| 0 <= j < orig.len() && orig[j].data_name == m;
                lemma_lookup_index(orig, j);
                lemma_lookup_index(self.accounts@, j);
                let k = choose|k: int| 0 <= k < out@.len() && #[trigger] out@[k].data_name == orig[j].data_name;
            }
        }
        out
    }

    /// A node left the section: `adults` is the adult set without it.
    pub fn handle_node_lost(&mut self, node_name: &Name, adults: &Vec<Name>) -> (r: Vec<Account>)
        requires
            old(self).wf(),
            !adults@.contains(*node_name),
        ensures
            final(self).wf(),
            forall|m: Name| #[trigger] final(self).holders(m).is_some() == old(self).holders(m).is_some(),
            forall|m: Name| #[trigger] old(self).holders(m).is_some() ==> churned(
                old(self).holders(m).unwrap(),
                final(self).holders(m).unwrap(),
                adults@,
                m,
            ),
            churn_reported(*old(self), *final(self), r@, adults@),
    {
        self.on_churn(adults)
    }

    /// A node joined the section: `adults` is the adult set with it.
    pub fn handle_node_added(&mut self, node_name: &Name, adults: &Vec<Name>) -> (r: Vec<Account>)
        requires
            old(self).wf(),
            adults@.contains(*node_name),
        ensures
            final(self).wf(),
            forall|m: Name| #[trigger] final(self).holders(m).is_some() == old(self).holders(m).is_some(),
            forall|m: Name| #[trigger] old(self).holders(m).is_some() ==> churned(
                old(self).holders(m).unwrap(),
                final(self).holders(m).unwrap(),
                adults@,
                m,
            ),
            churn_reported(*old(self), *final(self), r@, adults@),
    {
        self.on_churn(adults)
    }
}

fn pending_vec(ns: &Vec<Name>) -> (r: Vec<DataHolder>)
    ensures
        r@ == pending(ns@),
{
    let mut hs: Vec<DataHolder> = Vec::new();
    push_pending(&mut hs, ns);
    assert(hs@ =~= pending(ns@));
    hs
}

fn retain_adults(hs: &Vec<DataHolder>, adults: &Vec<Name>) -> (r: Vec<DataHolder>)
    requires
        distinct_holders(hs@),
    ensures
        r@ == kept_holders(hs@, adults@),
        distinct_holders(r@),
{
    let mut out: Vec<DataHolder> = Vec::new();
    let mut k: usize = 0;
    while k < hs.len()
        invariant
            k <= hs@.len(),
            out@ == hs@.subrange(0, k as int).filter(|h: DataHolder| adults@.contains(h.name)),
            distinct_holders(hs@),
            distinct_holders(out@),
            forall|a: int| 0 <= a < out@.len() ==> exists|b: int| 0 <= b < k && #[trigger] out@[a].name == hs@[b].name,
        decreases hs@.len() - k,
    {
        let h = hs[k];
        proof {
            let s = hs@.subrange(0, k as int + 1);
            assert(s.drop_last() =~= hs@.subrange(0, k as int));
            reveal(Seq::filter);
        }
        if contains_name(adults, &h.name) {
            let ghost before = out@;
            proof {
                if holder_names(before).contains(h.name) {
                    let a = choose|a: int| 0 <= a < before.len() && holder_names(before)[a] == h.name;
                    let b = choose|b: int| 0 <= b < k && #[trigger] before[a].name == hs@[b].name;
                    assert(holder_names(hs@)[b] == holder_names(hs@)[k as int]);
                }
            }
            out.push(h);
            proof {
                lemma_push_distinct(before, h);
                assert forall|a: int| 0 <= a < out@.len() implies exists|b: int| 0 <= b < k + 1 && #[trigger] out@[a].name == hs@[b].name by {
                    if a < before.len() {
                        assert(out@[a] == before[a]);
                        let b = choose|b: int| 0 <= b < k && #[trigger] before[a].name == hs@[b].name;
                    } else {
                        assert(out@[a].name == hs@[k as int].name);
                    }
                }
            }
        }
        k = k + 1;
        assert(out@ =~= hs@.subrange(0, k as int).filter(|h: DataHolder| adults@.contains(h.name)));
    }
    assert(hs@.subrange(0, hs@.len() as int) =~= hs@);
    out
}

fn first_good(hs: &Vec<DataHolder>) -> (r: Option<Name>)
    ensures
        ({
            let goods = hs@.filter(|h: DataHolder| h.state == DataHolderState::Good);
            if goods.len() == 0 {
                r.is_none()
            } else {
                r == Some(goods[0].name)
            }
        }),
{
    let mut k: usize = 0;
    while k < hs.len()
        invariant
            k <= hs@.len(),
            hs@.subrange(0, k as int).filter(|h: DataHolder| h.state == DataHolderState::Good).len() == 0,
        decreases hs@.len() - k,
    {
        let h = hs[k];
        proof {
            let s = hs@.subrange(0, k as int + 1);
            assert(s.drop_last() =~= hs@.subrange(0, k as int));
            reveal(Seq::filter);
        }
        if h.state == DataHolderState::Good {
            proof {
                lemma_filter_prefix_first(hs@, k as int);
            }
            return Some(h.name);
        }
        k = k + 1;
    }
    assert(hs@.subrange(0, hs@.len() as int) =~= hs@);
    None
}

proof fn lemma_filter_prefix_first(hs: Seq<DataHolder>, k: int)
    requires
        0 <= k < hs.len(),
        hs[k].state == DataHolderState::Good,
        hs.subrange(0, k).filter(|h: DataHolder| h.state == DataHolderState::Good).len() == 0,
    ensures
        hs.filter(|h: DataHolder| h.state == DataHolderState::Good).len() > 0,
        hs.filter(|h: DataHolder| h.state == DataHolderState::Good)[0] == hs[k],
    decreases hs.len(),
{
    reveal(Seq::filter);
    if hs.len() - 1 == k {
        assert(hs.drop_last() =~= hs.subrange(0, k));
    } else {
        assert(hs.drop_last().subrange(0, k) =~= hs.subrange(0, k));
        lemma_filter_prefix_first(hs.drop_last(), k);
    }
}

} // verus!
