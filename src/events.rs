use vstd::prelude::*;
use crate::name::Name;
use crate::capacity::contains_name;

verus! {

/// How the adults of our section changed.
#[derive(Clone, Debug, PartialEq, Eq)]
pub struct AdultsChanged {
    /// Adults that are still there.
    pub remaining: Vec<Name>,
    /// New adults.
    pub added: Vec<Name>,
    /// Adults that went away.
    pub removed: Vec<Name>,
}

pub open spec fn names_minus(a: Seq<Name>, b: Seq<Name>) -> Seq<Name> {
    a.filter(|n: Name| !b.contains(n))
}

pub open spec fn names_common(a: Seq<Name>, b: Seq<Name>) -> Seq<Name> {
    a.filter(|n: Name| b.contains(n))
}

fn filter_names(a: &Vec<Name>, b: &Vec<Name>, keep_common: bool) -> (r: Vec<Name>)
    ensures
        keep_common ==> r@ == names_common(a@, b@),
        !keep_common ==> r@ == names_minus(a@, b@),
{
    let mut out: Vec<Name> = Vec::new();
    let mut i: usize = 0;
    while i < a.len()
        invariant
            i <= a@.len(),
            keep_common ==> out@ == a@.subrange(0, i as int).filter(|n: Name| b@.contains(n)),
            !keep_common ==> out@ == a@.subrange(0, i as int).filter(|n: Name| !b@.contains(n)),
        decreases a@.len() - i,
    {
        proof {
            reveal(Seq::filter);
            assert(a@.subrange(0, i as int + 1).drop_last() =~= a@.subrange(0, i as int));
        }
        if contains_name(b, &a[i]) == keep_common {
            out.push(a[i]);
        }
        i = i + 1;
        assert(keep_common ==> out@ =~= a@.subrange(0, i as int).filter(|n: Name| b@.contains(n)));
        assert(!keep_common ==> out@ =~= a@.subrange(0, i as int).filter(|n: Name| !b@.contains(n)));
    }
    assert(a@.subrange(0, a@.len() as int) =~= a@);
    out
}

/// The change from the adults `old_adults` to `current_adults`, or `None` when no adult came
/// or went.
pub fn adults_changed(old_adults: &Vec<Name>, current_adults: &Vec<Name>) -> (r: Option<AdultsChanged>)
    ensures
        names_minus(current_adults@, old_adults@).len() == 0 && names_minus(old_adults@, current_adults@).len() == 0 ==> r.is_none(),
        !(names_minus(current_adults@, old_adults@).len() == 0 && names_minus(old_adults@, current_adults@).len() == 0) ==> (r matches Some(c)
            && c.added@ == names_minus(current_adults@, old_adults@)
            && c.removed@ == names_minus(old_adults@, current_adults@)
            && c.remaining@ == names_common(old_adults@, current_adults@)),
{
    let added = filter_names(current_adults, old_adults, false);
    let removed = filter_names(old_adults, current_adults, false);
    if added.len() == 0 && removed.len() == 0 {
        return None;
    }
    let remaining = filter_names(old_adults, current_adults, true);
    Some(AdultsChanged { remaining, added, removed })
}

} // verus!
