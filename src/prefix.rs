use vstd::prelude::*;
use crate::name::{Name, name_bit};

verus! {

/// Longest prefix of the 256-bit name space.
pub const MAX_PREFIX_LEN: usize = 256;

/// A bit string naming a part of the name space: every name whose first bits are these bits.
#[derive(Clone, Debug)]
pub struct Prefix {
    pub bits: Vec<bool>,
}

impl View for Prefix {
    type V = Seq<bool>;

    open spec fn view(&self) -> Seq<bool> {
        self.bits@
    }
}

/// `a` is a (not necessarily strict) prefix of `b`.
pub open spec fn is_prefix_of(a: Seq<bool>, b: Seq<bool>) -> bool {
    a.len() <= b.len() && forall|i: int| 0 <= i < a.len() ==> a[i] == b[i]
}

/// The name lies in the part of the name space that `p` stands for.
pub open spec fn prefix_matches(p: Seq<bool>, n: Name) -> bool {
    forall|i: int| 0 <= i < p.len() ==> p[i] == name_bit(n, i)
}

/// One of the two prefixes is a prefix of the other: their parts of the name space overlap.
pub open spec fn compatible(a: Seq<bool>, b: Seq<bool>) -> bool {
    is_prefix_of(a, b) || is_prefix_of(b, a)
}

/// `a` is a strictly longer extension of `b`.
pub open spec fn extends(a: Seq<bool>, b: Seq<bool>) -> bool {
    b.len() < a.len() && is_prefix_of(b, a)
}

/// Number of positions below `n` at which `a` and `b` differ.
pub open spec fn diff_count(a: Seq<bool>, b: Seq<bool>, n: int) -> nat
    decreases n,
{
    if n <= 0 {
        0
    } else {
        diff_count(a, b, n - 1) + if a[n - 1] != b[n - 1] {
            1nat
        } else {
            0nat
        }
    }
}

pub open spec fn min_len(a: Seq<bool>, b: Seq<bool>) -> int {
    if a.len() <= b.len() {
        a.len() as int
    } else {
        b.len() as int
    }
}

/// The two prefixes differ in exactly one of the bits that both have.
pub open spec fn neighbours(a: Seq<bool>, b: Seq<bool>) -> bool {
    diff_count(a, b, min_len(a, b)) == 1
}

/// Views of a list of prefixes.
pub open spec fn prefix_views(ps: Seq<Prefix>) -> Seq<Seq<bool>> {
    ps.map_values(|p: Prefix| p@)
}

/// Length of the longest prefix of the list (0 for an empty list).
pub open spec fn max_len(ps: Seq<Seq<bool>>) -> int
    decreases ps.len(),
{
    if ps.len() == 0 {
        0
    } else {
        let m = max_len(ps.drop_last());
        if ps.last().len() > m {
            ps.last().len() as int
        } else {
            m
        }
    }
}

/// Every name under `p` lies under one of `ps`, examined down to prefixes of length `max`:
/// either one of `ps` is a prefix of `p`, or both halves of `p` are covered.
pub open spec fn covered(p: Seq<bool>, ps: Seq<Seq<bool>>, max: int) -> bool
    decreases max - p.len(),
{
    (exists|k: int| 0 <= k < ps.len() && is_prefix_of(#[trigger] ps[k], p)) || (p.len() < max
        && covered(p.push(false), ps, max) && covered(p.push(true), ps, max))
}

impl PartialEq for Prefix {
    fn eq(&self, other: &Prefix) -> (r: bool) {
        prefix_eq(&self.bits, &other.bits)
    }
}

impl vstd::std_specs::cmp::PartialEqSpecImpl for Prefix {
    open spec fn obeys_eq_spec() -> bool {
        true
    }

    open spec fn eq_spec(&self, other: &Prefix) -> bool {
        self@ == other@
    }
}

fn prefix_eq(a: &Vec<bool>, b: &Vec<bool>) -> (r: bool)
    ensures
        r == (a@ == b@),
{
    if a.len() != b.len() {
        return false;
    }
    let mut i: usize = 0;
    while i < a.len()
        invariant
            a@.len() == b@.len(),
            i <= a@.len(),
            forall|j: int| 0 <= j < i ==> a@[j] == b@[j],
        decreases a@.len() - i,
    {
        if a[i] != b[i] {
            return false;
        }
        i = i + 1;
    }
    assert(a@ =~= b@);
    true
}

/// Whether `a` is a prefix of `b`.
fn bits_prefix_of(a: &Vec<bool>, b: &Vec<bool>) -> (r: bool)
    ensures
        r == is_prefix_of(a@, b@),
{
    if a.len() > b.len() {
        return false;
    }
    let mut i: usize = 0;
    while i < a.len()
        invariant
            a@.len() <= b@.len(),
            i <= a@.len(),
            forall|j: int| 0 <= j < i ==> a@[j] == b@[j],
        decreases a@.len() - i,
    {
        if a[i] != b[i] {
            return false;
        }
        i = i + 1;
    }
    true
}

impl Prefix {
    /// Prefixes name parts of the 256-bit name space.
    pub open spec fn wf(&self) -> bool {
        self@.len() <= MAX_PREFIX_LEN
    }

    /// The empty prefix, which covers the whole name space.
    pub fn new() -> (r: Prefix)
        ensures
            r@ == Seq::<bool>::empty(),
            r.wf(),
    {
        Prefix { bits: Vec::new() }
    }

    /// A prefix with the given bits, if there are at most 256 of them.
    pub fn from_bits(bits: Vec<bool>) -> (r: Option<Prefix>)
        ensures
            bits@.len() <= MAX_PREFIX_LEN ==> r == Some(Prefix { bits }),
            bits@.len() > MAX_PREFIX_LEN ==> r.is_none(),
    {
        if bits.len() <= MAX_PREFIX_LEN {
            Some(Prefix { bits })
        } else {
            None
        }
    }

    pub fn bit_count(&self) -> (r: usize)
        ensures
            r == self@.len(),
    {
        self.bits.len()
    }

    /// Whether `name` lies under this prefix.
    pub fn matches(&self, name: &Name) -> (r: bool)
        requires
            self.wf(),
        ensures
            r == prefix_matches(self@, *name),
    {
        let mut i: usize = 0;
        while i < self.bits.len()
            invariant
                self.wf(),
                i <= self@.len(),
                forall|j: int| 0 <= j < i ==> self@[j] == name_bit(*name, j),
            decreases self@.len() - i,
        {
            if self.bits[i] != name.bit(i) {
                return false;
            }
            i = i + 1;
        }
        true
    }

    /// Whether one of the two prefixes is a prefix of the other.
    pub fn is_compatible(&self, other: &Prefix) -> (r: bool)
        ensures
            r == compatible(self@, other@),
    {
        bits_prefix_of(&self.bits, &other.bits) || bits_prefix_of(&other.bits, &self.bits)
    }

    /// Whether this prefix strictly extends `other`.
    pub fn is_extension_of(&self, other: &Prefix) -> (r: bool)
        ensures
            r == extends(self@, other@),
    {
        other.bits.len() < self.bits.len() && bits_prefix_of(&other.bits, &self.bits)
    }

    /// The child prefix with `bit` appended.
    pub fn pushed(&self, bit: bool) -> (r: Prefix)
        requires
            self@.len() < MAX_PREFIX_LEN,
        ensures
            r@ == self@.push(bit),
            r.wf(),
    {
        let mut bits = self.bits.clone();
        bits.push(bit);
        Prefix { bits }
    }

    /// Whether the two prefixes differ in exactly one of the bits they both have.
    pub fn is_neighbour(&self, other: &Prefix) -> (r: bool)
        ensures
            r == neighbours(self@, other@),
    {
        let n = if self.bits.len() <= other.bits.len() {
            self.bits.len()
        } else {
            other.bits.len()
        };
        let mut count: usize = 0;
        let mut i: usize = 0;
        while i < n
            invariant
                n == min_len(self@, other@),
                i <= n,
                count == diff_count(self@, other@, i as int),
                count <= i,
            decreases n - i,
        {
            if self.bits[i] != other.bits[i] {
                count = count + 1;
            }
            i = i + 1;
        }
        count == 1
    }

    /// Whether every name under this prefix lies under one of `prefixes`.
    pub fn is_covered_by(&self, prefixes: &Vec<Prefix>) -> (r: bool)
        ensures
            r == covered(self@, prefix_views(prefixes@), max_len(prefix_views(prefixes@))),
    {
        let mut max: usize = 0;
        let mut i: usize = 0;
        while i < prefixes.len()
            invariant
                i <= prefixes@.len(),
                max == max_len(prefix_views(prefixes@.subrange(0, i as int))),
            decreases prefixes@.len() - i,
        {
            proof {
                let s = prefix_views(prefixes@.subrange(0, i as int + 1));
                assert(s.drop_last() =~= prefix_views(prefixes@.subrange(0, i as int)));
                assert(s.last() == prefixes@[i as int]@);
            }
            if prefixes[i].bits.len() > max {
                max = prefixes[i].bits.len();
            }
            i = i + 1;
        }
        assert(prefixes@.subrange(0, prefixes@.len() as int) =~= prefixes@);
        covered_from(&self.bits, prefixes, max)
    }
}

fn covered_from(p: &Vec<bool>, prefixes: &Vec<Prefix>, max: usize) -> (r: bool)
    ensures
        r == covered(p@, prefix_views(prefixes@), max as int),
    decreases max - p@.len(),
{
    let ghost ps = prefix_views(prefixes@);
    let mut k: usize = 0;
    while k < prefixes.len()
        invariant
            k <= prefixes@.len(),
            ps == prefix_views(prefixes@),
            forall|j: int| 0 <= j < k ==> !is_prefix_of(#[trigger] ps[j], p@),
        decreases prefixes@.len() - k,
    {
        if bits_prefix_of(&prefixes[k].bits, p) {
            assert(is_prefix_of(ps[k as int], p@));
            return true;
        }
        k = k + 1;
    }
    if p.len() >= max {
        return false;
    }
    let mut p0 = p.clone();
    p0.push(false);
    let mut p1 = p.clone();
    p1.push(true);
    assert(p0@ =~= p@.push(false));
    assert(p1@ =~= p@.push(true));
    covered_from(&p0, prefixes, max) && covered_from(&p1, prefixes, max)
}

/// What coverage means: every name under a covered prefix lies under one of the covering
/// prefixes.
pub proof fn lemma_covered_names(p: Seq<bool>, ps: Seq<Seq<bool>>, max: int, n: Name)
    requires
        covered(p, ps, max),
        prefix_matches(p, n),
        max <= 256,
    ensures
        exists|k: int| 0 <= k < ps.len() && prefix_matches(#[trigger] ps[k], n),
    decreases max - p.len(),
{
    if exists|k: int| 0 <= k < ps.len() && is_prefix_of(#[trigger] ps[k], p) {
        let k = choose|k: int| 0 <= k < ps.len() && is_prefix_of(#[trigger] ps[k], p);
        assert(prefix_matches(ps[k], n));
    } else {
        let b = name_bit(n, p.len() as int);
        let c = p.push(b);
        assert(prefix_matches(c, n));
        lemma_covered_names(c, ps, max, n);
    }
}

proof fn lemma_set_bit(x: u128, k: u128, j: u128)
    requires
        k < 128,
        j < 128,
    ensures
        ((x | (1u128 << k)) >> j) & 1u128 == if j == k { 1u128 } else { (x >> j) & 1u128 },
{
    assert(((x | (1u128 << k)) >> j) & 1u128 == if j == k { 1u128 } else { (x >> j) & 1u128 }) by (bit_vector)
        requires
            k < 128,
            j < 128,
    ;
}

proof fn lemma_zero_bits(j: u128)
    requires
        j < 128,
    ensures
        (0u128 >> j) & 1u128 == 0u128,
{
    assert((0u128 >> j) & 1u128 == 0u128) by (bit_vector);
}

impl Prefix {
    /// The lowest name under this prefix: its bits followed by zeros.
    pub fn lower_bound(&self) -> (r: Name)
        requires
            self.wf(),
        ensures
            prefix_matches(self@, r),
            forall|i: int| self@.len() <= i < 256 ==> !name_bit(r, i),
    {
        let mut hi: u128 = 0;
        let mut lo: u128 = 0;
        let mut i: usize = 0;
        proof {
            assert forall|j: int| 0 <= j < 256 implies !name_bit(Name { hi: 0, lo: 0 }, j) by {
                if j < 128 {
                    lemma_zero_bits((127 - j) as u128);
                } else {
                    lemma_zero_bits((255 - j) as u128);
                }
            }
        }
        while i < self.bits.len()
            invariant
                self.wf(),
                i <= self@.len(),
                forall|j: int| 0 <= j < i ==> name_bit(Name { hi, lo }, j) == self@[j],
                forall|j: int| i <= j < 256 ==> !name_bit(Name { hi, lo }, j),
            decreases self@.len() - i,
        {
            if self.bits[i] {
                let ghost old_n = Name { hi, lo };
                if i < 128 {
                    hi = hi | (1u128 << ((127 - i) as u128));
                } else {
                    lo = lo | (1u128 << ((255 - i) as u128));
                }
                proof {
                    let n = Name { hi, lo };
                    assert forall|j: int| 0 <= j < 256 implies name_bit(n, j) == if j == i { true } else { name_bit(old_n, j) } by {
                        if i < 128 {
                            if j < 128 {
                                lemma_set_bit(old_n.hi, (127 - i) as u128, (127 - j) as u128);
                            }
                        } else {
                            if j >= 128 {
                                lemma_set_bit(old_n.lo, (255 - i) as u128, (255 - j) as u128);
                            }
                        }
                    }
                }
            }
            i = i + 1;
        }
        Name { hi, lo }
    }
}

} // verus!
