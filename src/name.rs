use vstd::prelude::*;

verus! {

/// A 256-bit identifier in the network's name space, held as its high and low halves.
/// Names are ordered numerically, that is by `hi` first and then by `lo`.
#[derive(Clone, Copy, Debug, PartialEq, Eq, Structural, Hash)]
pub struct Name {
    pub hi: u128,
    pub lo: u128,
}

/// A peer: its name and the transport address it can be reached at.
#[derive(Clone, Copy, Debug, PartialEq, Eq, Structural, Hash)]
pub struct Peer {
    pub name: Name,
    pub addr: u64,
}

/// Numeric order on names.
pub open spec fn name_lt(a: Name, b: Name) -> bool {
    a.hi < b.hi || (a.hi == b.hi && a.lo < b.lo)
}

/// `a` is strictly closer than `b` to `target` by XOR distance.
pub open spec fn closer(a: Name, b: Name, target: Name) -> bool {
    (a.hi ^ target.hi) < (b.hi ^ target.hi) || ((a.hi ^ target.hi) == (b.hi ^ target.hi) && (a.lo
        ^ target.lo) < (b.lo ^ target.lo))
}

/// Bit `i` (counted from the most significant end) of a name.
pub open spec fn name_bit(n: Name, i: int) -> bool {
    if i < 128 {
        (n.hi >> ((127 - i) as u128)) & 1u128 == 1u128
    } else {
        (n.lo >> ((255 - i) as u128)) & 1u128 == 1u128
    }
}

impl Name {
    pub fn new(hi: u128, lo: u128) -> (r: Name)
        ensures
            r.hi == hi,
            r.lo == lo,
    {
        Name { hi, lo }
    }

    /// Bit `i` of this name, the most significant bit being bit 0.
    pub fn bit(&self, i: usize) -> (r: bool)
        requires
            i < 256,
        ensures
            r == name_bit(*self, i as int),
    {
        if i < 128 {
            (self.hi >> ((127 - i) as u128)) & 1u128 == 1u128
        } else {
            (self.lo >> ((255 - i) as u128)) & 1u128 == 1u128
        }
    }

    /// Whether `self` is numerically smaller than `other`.
    pub fn less_than(&self, other: &Name) -> (r: bool)
        ensures
            r == name_lt(*self, *other),
    {
        self.hi < other.hi || (self.hi == other.hi && self.lo < other.lo)
    }
}

/// Whether `a` is strictly closer than `b` to `target` by XOR distance.
pub fn closer_to_target(a: &Name, b: &Name, target: &Name) -> (r: bool)
    ensures
        r == closer(*a, *b, *target),
{
    let ah = a.hi ^ target.hi;
    let bh = b.hi ^ target.hi;
    ah < bh || (ah == bh && (a.lo ^ target.lo) < (b.lo ^ target.lo))
}

proof fn lemma_xor_cancel(x: u128, y: u128, t: u128)
    ensures
        (x ^ t) == (y ^ t) ==> x == y,
{
    assert((x ^ t) == (y ^ t) ==> x == y) by (bit_vector);
}

/// Two different names are never at the same distance from a target: of two distinct
/// names exactly one is the closer.
pub proof fn lemma_closer_total(a: Name, b: Name, t: Name)
    requires
        a != b,
    ensures
        closer(a, b, t) || closer(b, a, t),
        !(closer(a, b, t) && closer(b, a, t)),
{
    lemma_xor_cancel(a.hi, b.hi, t.hi);
    lemma_xor_cancel(a.lo, b.lo, t.lo);
}

/// Closeness to a target is transitive.
pub proof fn lemma_closer_transitive(a: Name, b: Name, c: Name, t: Name)
    requires
        closer(a, b, t),
        closer(b, c, t),
    ensures
        closer(a, c, t),
{
}

} // verus!
