use vstd::prelude::*;
use crate::name::Name;
use crate::closest::{closest_names, is_closest_selection, lemma_prefix_selection};

verus! {

/// Number of nodes a new piece of data is stored on.
pub const PARALLELISM: usize = 4;

/// Below this many holders a piece of data is copied again.
pub const MIN_HOLDERS: usize = 3;

/// What kind of data a payload holds.
#[derive(Clone, Copy, Debug, PartialEq, Eq, Structural)]
pub enum PayloadTypeTag {
    ImmutableData,
    ImmutableDataBackup,
    ImmutableDataSacrificial,
    PublicMaid,
    Other,
}

/// A decoded payload: its kind and the name of the data in it.
#[derive(Clone, Copy, Debug, PartialEq, Eq, Structural)]
pub struct Payload {
    pub tag: PayloadTypeTag,
    pub name: Name,
}

#[derive(Clone, Copy, Debug, PartialEq, Eq, Structural)]
pub enum DmError {
    /// Nothing is stored under the name.
    NoData,
    /// The payload is of a kind that is not stored here.
    InvalidRequest,
    /// The data is stored already.
    Abort,
}

/// Send the data `name` to `destination`.
#[derive(Clone, Copy, Debug, PartialEq, Eq, Structural)]
pub struct PutOrder {
    pub destination: Name,
    pub name: Name,
}

/// The nodes holding one piece of data.
#[derive(Clone, Debug)]
pub struct DmEntry {
    pub name: Name,
    pub pmid_nodes: Vec<Name>,
}

/// Kinds of data this manager stores.
pub open spec fn stored_kind(t: PayloadTypeTag) -> bool {
    t != PayloadTypeTag::Other
}

/// Kinds of data that are copied again when a holder loses them.
pub open spec fn replicated_kind(t: PayloadTypeTag) -> bool {
    t == PayloadTypeTag::ImmutableData || t == PayloadTypeTag::PublicMaid
}

/// The holders of `n`, the last entry for it winning.
pub open spec fn pmid_of(db: Seq<DmEntry>, n: Name) -> Option<Seq<Name>>
    decreases db.len(),
{
    if db.len() == 0 {
        None
    } else if db.last().name == n {
        Some(db.last().pmid_nodes@)
    } else {
        pmid_of(db.drop_last(), n)
    }
}

pub open spec fn unique_entries(db: Seq<DmEntry>) -> bool {
    forall|i: int, j: int| 0 <= i < db.len() && 0 <= j < db.len() && i != j ==> db[i].name != db[j].name
}

proof fn lemma_pmid_index(db: Seq<DmEntry>, i: int)
    requires
        unique_entries(db),
        0 <= i < db.len(),
    ensures
        pmid_of(db, db[i].name) == Some(db[i].pmid_nodes@),
    decreases db.len(),
{
    if i < db.len() - 1 {
        assert(db[i].name != db.last().name);
        assert(db.drop_last()[i] == db[i]);
        lemma_pmid_index(db.drop_last(), i);
    }
}

proof fn lemma_pmid_none(db: Seq<DmEntry>, n: Name)
    requires
        forall|i: int| 0 <= i < db.len() ==> db[i].name != n,
    ensures
        pmid_of(db, n).is_none(),
    decreases db.len(),
{
    if db.len() > 0 {
        lemma_pmid_none(db.drop_last(), n);
    }
}

proof fn lemma_pmid_update(db: Seq<DmEntry>, i: int, e: DmEntry, n: Name)
    requires
        0 <= i < db.len(),
        e.name == db[i].name,
        unique_entries(db),
    ensures
        pmid_of(db.update(i, e), n) == if n == e.name { Some(e.pmid_nodes@) } else { pmid_of(db, n) },
    decreases db.len(),
{
    let u = db.update(i, e);
    if i == db.len() - 1 {
        assert(u.drop_last() =~= db.drop_last());
    } else {
        assert(u.drop_last() =~= db.drop_last().update(i, e));
        assert(db[i].name != db.last().name);
        lemma_pmid_update(db.drop_last(), i, e, n);
    }
}

/// Holders of stored data, and the close group to copy data to after churn.
pub struct DataManager {
    db: Vec<DmEntry>,
    close_group: Vec<Name>,
}

impl DataManager {
    pub closed spec fn wf(&self) -> bool {
        unique_entries(self.db@)
    }

    /// The holders of `n`, if it is stored.
    pub closed spec fn holders(&self, n: Name) -> Option<Seq<Name>> {
        pmid_of(self.db@, n)
    }

    pub closed spec fn close_group_spec(&self) -> Seq<Name> {
        self.close_group@
    }

    pub fn new() -> (r: DataManager)
        ensures
            r.wf(),
            forall|n: Name| #[trigger] r.holders(n).is_none(),
            r.close_group_spec().len() == 0,
    {
        DataManager { db: Vec::new(), close_group: Vec::new() }
    }

    fn find(&self, n: &Name) -> (r: Option<usize>)
        requires
            self.wf(),
        ensures
            match r {
                Some(i) => i < self.db@.len() && self.db@[i as int].name == *n && self.holders(*n) == Some(self.db@[i as int].pmid_nodes@),
                None => self.holders(*n).is_none() && forall|i: int| 0 <= i < self.db@.len() ==> self.db@[i].name != *n,
            },
    {
        let mut i: usize = 0;
        while i < self.db.len()
            invariant
                self.wf(),
                i <= self.db@.len(),
                forall|j: int| 0 <= j < i ==> self.db@[j].name != *n,
            decreases self.db@.len() - i,
        {
            if self.db[i].name == *n {
                proof {
                    lemma_pmid_index(self.db@, i as int);
                }
                return Some(i);
            }
            i = i + 1;
        }
        proof {
            lemma_pmid_none(self.db@, *n);
        }
        None
    }

    fn set_holders(&mut self, i: usize, nodes: Vec<Name>)
        requires
            old(self).wf(),
            i < old(self).db@.len(),
        ensures
            final(self).wf(),
            final(self).close_group_spec() == old(self).close_group_spec(),
            forall|m: Name| #[trigger] final(self).holders(m) == if m == old(self).db@[i as int].name {
                Some(nodes@)
            } else {
                old(self).holders(m)
            },
    {
        let n = self.db[i].name;
        let e = DmEntry { name: n, pmid_nodes: nodes };
        proof {
            assert forall|m: Name| #[trigger] pmid_of(self.db@.update(i as int, e), m) == if m == n { Some(e.pmid_nodes@) } else { pmid_of(self.db@, m) } by {
                lemma_pmid_update(self.db@, i as int, e, m);
            }
        }
        self.db.set(i, e);
    }

    /// The holders to ask for the data `name`.
    pub fn handle_get(&self, name: &Name) -> (r: Result<Vec<Name>, DmError>)
        requires
            self.wf(),
        ensures
            match self.holders(*name) {
                Some(ns) if ns.len() > 0 => r matches Ok(v) && v@ == ns,
                _ => r == Err::<Vec<Name>, DmError>(DmError::NoData),
            },
    {
        match self.find(name) {
            None => Err(DmError::NoData),
            Some(i) => {
                if self.db[i].pmid_nodes.len() == 0 {
                    return Err(DmError::NoData);
                }
                Ok(self.db[i].pmid_nodes.clone())
            },
        }
    }

    /// Stores new data on the `PARALLELISM` nodes closest to its name and returns them. The
    /// node table is sorted in place, closest to the data first (a node listed twice is kept
    /// once), and the chosen nodes are its first entries. Refused, with the table as it was,
    /// for a kind of data that is not stored here and for data stored already.
    pub fn handle_put(&mut self, payload: Payload, nodes_in_table: &mut Vec<Name>) -> (r: Result<Vec<Name>, DmError>)
        requires
            old(self).wf(),
        ensures
            final(self).wf(),
            final(self).close_group_spec() == old(self).close_group_spec(),
            !stored_kind(payload.tag) ==> r == Err::<Vec<Name>, DmError>(DmError::InvalidRequest),
            stored_kind(payload.tag) && old(self).holders(payload.name).is_some() ==> r == Err::<Vec<Name>, DmError>(DmError::Abort),
            r is Err ==> final(nodes_in_table)@ == old(nodes_in_table)@
                && forall|m: Name| #[trigger] final(self).holders(m) == old(self).holders(m),
            stored_kind(payload.tag) && old(self).holders(payload.name).is_none() ==> (r matches Ok(v)
                && is_closest_selection(final(nodes_in_table)@, old(nodes_in_table)@, Seq::empty(), payload.name,
                    old(nodes_in_table)@.len() as int)
                && v@ == final(nodes_in_table)@.subrange(0, if PARALLELISM < final(nodes_in_table)@.len() {
                    PARALLELISM as int
                } else {
                    final(nodes_in_table)@.len() as int
                })
                && is_closest_selection(v@, old(nodes_in_table)@, Seq::empty(), payload.name, PARALLELISM as int)
                && forall|m: Name| #[trigger] final(self).holders(m) == if m == payload.name { Some(v@) } else { old(self).holders(m) }),
    {
        if payload.tag == PayloadTypeTag::Other {
            return Err(DmError::InvalidRequest);
        }
        if self.find(&payload.name).is_some() {
            return Err(DmError::Abort);
        }
        let none: Vec<Name> = Vec::new();
        let sorted = closest_names(nodes_in_table, &payload.name, &none, nodes_in_table.len());
        proof {
            assert(none@ =~= Seq::<Name>::empty());
        }
        let n = if PARALLELISM < sorted.len() { PARALLELISM } else { sorted.len() };
        let mut chosen: Vec<Name> = Vec::new();
        let mut i: usize = 0;
        while i < n
            invariant
                n <= sorted@.len(),
                i <= n,
                chosen@ == sorted@.subrange(0, i as int),
            decreases n - i,
        {
            chosen.push(sorted[i]);
            i = i + 1;
            assert(chosen@ =~= sorted@.subrange(0, i as int));
        }
        proof {
            lemma_prefix_selection(sorted@, old(nodes_in_table)@, Seq::empty(), payload.name, PARALLELISM as int);
        }
        *nodes_in_table = sorted;
        let e = DmEntry { name: payload.name, pmid_nodes: chosen.clone() };
        proof {
            assert forall|m: Name| #[trigger] pmid_of(self.db@.push(e), m) == if m == payload.name { Some(chosen@) } else { pmid_of(self.db@, m) } by {
                assert(self.db@.push(e).drop_last() =~= self.db@);
            }
        }
        let ghost before = self.db@;
        self.db.push(e);
        proof {
            assert forall|i: int, j: int| 0 <= i < self.db@.len() && 0 <= j < self.db@.len() && i != j implies self.db@[i].name != self.db@[j].name by {
                if i < before.len() {
                    assert(self.db@[i] == before[i]);
                }
                if j < before.len() {
                    assert(self.db@[j] == before[j]);
                }
            }
        }
        Ok(chosen)
    }

    /// The node of the close group to copy `name` to: the closest one not holding it yet,
    /// while it has fewer than `MIN_HOLDERS` holders.
    fn replicate_to(&self, name: &Name) -> (r: Option<Name>)
        requires
            self.wf(),
        ensures
            match self.holders(*name) {
                Some(ns) if ns.len() < MIN_HOLDERS => match r {
                    Some(n) => is_closest_selection(seq![n], self.close_group_spec(), ns, *name, 1),
                    None => is_closest_selection(Seq::empty(), self.close_group_spec(), ns, *name, 1),
                },
                _ => r.is_none(),
            },
    {
        match self.find(name) {
            None => None,
            Some(i) => {
                if self.db[i].pmid_nodes.len() >= MIN_HOLDERS {
                    return None;
                }
                let chosen = closest_names(&self.close_group, name, &self.db[i].pmid_nodes, 1);
                if chosen.len() == 0 {
                    assert(chosen@ =~= Seq::<Name>::empty());
                    None
                } else {
                    assert(chosen@ =~= seq![chosen@[0]]);
                    Some(chosen[0])
                }
            },
        }
    }

    fn add_pmid_node(&mut self, name: &Name, node: Name)
        requires
            old(self).wf(),
            old(self).holders(*name).is_some(),
        ensures
            final(self).wf(),
            final(self).close_group_spec() == old(self).close_group_spec(),
            forall|m: Name| #[trigger] final(self).holders(m) == if m == *name { Some(old(self).holders(*name).unwrap().push(node)) } else { old(self).holders(m) },
    {
        let i = self.find(name).unwrap();
        let mut nodes = self.db[i].pmid_nodes.clone();
        nodes.push(node);
        self.set_holders(i, nodes);
    }

    /// A response to a Put: an error changes nothing; otherwise the responder no longer holds
    /// the data, and data of a replicated kind is copied to the next node of the close group.
    pub fn handle_put_response(&mut self, response: Result<Payload, ()>, from_address: &Name) -> (r: Option<PutOrder>)
        requires
            old(self).wf(),
        ensures
            final(self).wf(),
            final(self).close_group_spec() == old(self).close_group_spec(),
            response is Err ==> r.is_none() && forall|m: Name| #[trigger] final(self).holders(m) == old(self).holders(m),
            response matches Ok(p) ==> (!stored_kind(p.tag) ==> r.is_none() && forall|m: Name| #[trigger] final(self).holders(m) == old(self).holders(m)),
            response matches Ok(p) ==> (stored_kind(p.tag) ==> forall|m: Name| m != p.name ==> #[trigger] final(self).holders(m) == old(self).holders(m)),
            response matches Ok(p) ==> (stored_kind(p.tag) && old(self).holders(p.name).is_none() ==> r.is_none()
                && forall|m: Name| #[trigger] final(self).holders(m) == old(self).holders(m)),
            response matches Ok(p) ==> (stored_kind(p.tag) && old(self).holders(p.name).is_some() ==> {
                let without = old(self).holders(p.name).unwrap().filter(|n: Name| n != *from_address);
                if replicated_kind(p.tag) && without.len() < MIN_HOLDERS {
                    match r {
                        Some(o) => o.name == p.name && is_closest_selection(seq![o.destination], old(self).close_group_spec(), without, p.name, 1)
                            && final(self).holders(p.name) == Some(without.push(o.destination)),
                        None => is_closest_selection(Seq::empty(), old(self).close_group_spec(), without, p.name, 1)
                            && final(self).holders(p.name) == Some(without),
                    }
                } else {
                    r.is_none() && final(self).holders(p.name) == Some(without)
                }
            }),
            r is Some ==> (response matches Ok(p) && replicated_kind(p.tag)),
    {
        let payload = match response {
            Err(_) => {
                return None;
            },
            Ok(p) => p,
        };
        if payload.tag == PayloadTypeTag::Other {
            return None;
        }
        match self.find(&payload.name) {
            None => {
                return None;
            },
            Some(i) => {
                let kept = remove_name(&self.db[i].pmid_nodes, from_address);
                self.set_holders(i, kept);
            },
        }
        if !(payload.tag == PayloadTypeTag::ImmutableData || payload.tag == PayloadTypeTag::PublicMaid) {
            return None;
        }
        match self.replicate_to(&payload.name) {
            Some(node) => {
                self.add_pmid_node(&payload.name, node);
                Some(PutOrder { destination: node, name: payload.name })
            },
            None => None,
        }
    }

    /// Data fetched from a holder: data of a replicated kind is copied to the next node of the
    /// close group while it has fewer than `MIN_HOLDERS` holders.
    pub fn handle_get_response(&mut self, payload: Payload) -> (r: Option<PutOrder>)
        requires
            old(self).wf(),
        ensures
            final(self).wf(),
            final(self).close_group_spec() == old(self).close_group_spec(),
            !replicated_kind(payload.tag) ==> r.is_none() && forall|m: Name| #[trigger] final(self).holders(m) == old(self).holders(m),
            replicated_kind(payload.tag) ==> match old(self).holders(payload.name) {
                Some(ns) if ns.len() < MIN_HOLDERS => match r {
                    Some(o) => o.name == payload.name && is_closest_selection(seq![o.destination], old(self).close_group_spec(), ns, payload.name, 1)
                        && final(self).holders(payload.name) == Some(ns.push(o.destination)),
                    None => is_closest_selection(Seq::empty(), old(self).close_group_spec(), ns, payload.name, 1)
                        && forall|m: Name| #[trigger] final(self).holders(m) == old(self).holders(m),
                },
                _ => r.is_none() && forall|m: Name| #[trigger] final(self).holders(m) == old(self).holders(m),
            },
            forall|m: Name| m != payload.name ==> #[trigger] final(self).holders(m) == old(self).holders(m),
    {
        if !(payload.tag == PayloadTypeTag::ImmutableData || payload.tag == PayloadTypeTag::PublicMaid) {
            return None;
        }
        match self.replicate_to(&payload.name) {
            Some(node) => {
                self.add_pmid_node(&payload.name, node);
                Some(PutOrder { destination: node, name: payload.name })
            },
            None => None,
        }
    }

    /// After churn: the close group that lost data is copied to from now on.
    pub fn retrieve_all_and_reset(&mut self, close_group: &Vec<Name>)
        requires
            old(self).wf(),
        ensures
            final(self).wf(),
            final(self).close_group_spec() == close_group@,
            forall|m: Name| #[trigger] final(self).holders(m) == old(self).holders(m),
    {
        self.close_group = close_group.clone();
    }
}

/// The names without `n`.
fn remove_name(ns: &Vec<Name>, n: &Name) -> (r: Vec<Name>)
    ensures
        r@ == ns@.filter(|x: Name| x != *n),
{
    let mut out: Vec<Name> = Vec::new();
    let mut i: usize = 0;
    while i < ns.len()
        invariant
            i <= ns@.len(),
            out@ == ns@.subrange(0, i as int).filter(|x: Name| x != *n),
        decreases ns@.len() - i,
    {
        proof {
            reveal(Seq::filter);
            assert(ns@.subrange(0, i as int + 1).drop_last() =~= ns@.subrange(0, i as int));
        }
        if ns[i] != *n {
            out.push(ns[i]);
        }
        i = i + 1;
        assert(out@ =~= ns@.subrange(0, i as int).filter(|x: Name| x != *n));
    }
    assert(ns@.subrange(0, ns@.len() as int) =~= ns@);
    out
}

} // verus!
