use vstd::prelude::*;
use crate::name::{Name, closer, closer_to_target, lemma_closer_total, lemma_closer_transitive};
use crate::capacity::contains_name;

verus! {

/// `n` is one of the candidates and is not excluded.
pub open spec fn eligible(cands: Seq<Name>, exclude: Seq<Name>, n: Name) -> bool {
    cands.contains(n) && !exclude.contains(n)
}

/// `r` lists eligible names, strictly closest to `target` first, every eligible name left out
/// is farther than all of them, and `r` holds `k` of them unless there are fewer.
pub open spec fn is_closest_selection(
    r: Seq<Name>,
    cands: Seq<Name>,
    exclude: Seq<Name>,
    target: Name,
    k: int,
) -> bool {
    &&& r.len() <= k
    &&& forall|i: int| 0 <= i < r.len() ==> eligible(cands, exclude, #[trigger] r[i])
    &&& forall|i: int, j: int| 0 <= i < j < r.len() ==> closer(r[i], r[j], target)
    &&& forall|n: Name, i: int|
        eligible(cands, exclude, n) && !r.contains(n) && 0 <= i < r.len() ==> #[trigger] closer(
            r[i],
            n,
            target,
        )
    &&& r.len() < k ==> forall|n: Name| eligible(cands, exclude, n) ==> #[trigger] r.contains(n)
}

/// A selection of closest names holds no name twice.
pub proof fn lemma_selection_distinct(r: Seq<Name>, cands: Seq<Name>, exclude: Seq<Name>, target: Name, k: int)
    requires
        is_closest_selection(r, cands, exclude, target, k),
    ensures
        r.no_duplicates(),
{
    assert forall|i: int, j: int| 0 <= i < r.len() && 0 <= j < r.len() && i != j implies r[i] != r[j] by {
        if i < j {
            assert(closer(r[i], r[j], target));
        } else {
            assert(closer(r[j], r[i], target));
        }
    }
}

/// Up to `k` of the candidates that are not in `exclude`, closest to `target` first.
pub fn closest_names(cands: &Vec<Name>, target: &Name, exclude: &Vec<Name>, k: usize) -> (r: Vec<
    Name,
>)
    ensures
        is_closest_selection(r@, cands@, exclude@, *target, k as int),
{
    let mut out: Vec<Name> = Vec::new();
    while out.len() < k
        invariant
            out@.len() <= k,
            forall|i: int| 0 <= i < out@.len() ==> eligible(cands@, exclude@, #[trigger] out@[i]),
            forall|i: int, j: int| 0 <= i < j < out@.len() ==> closer(out@[i], out@[j], *target),
            forall|n: Name, i: int|
                eligible(cands@, exclude@, n) && !out@.contains(n) && 0 <= i < out@.len()
                    ==> #[trigger] closer(out@[i], n, *target),
        decreases k - out@.len(),
    {
        let mut best: Option<Name> = None;
        let mut i: usize = 0;
        while i < cands.len()
            invariant
                i <= cands@.len(),
                match best {
                    Some(b) => eligible(cands@, exclude@, b) && !out@.contains(b) && forall|j: int|
                        0 <= j < i && !exclude@.contains(cands@[j]) && !out@.contains(
                            #[trigger] cands@[j],
                        ) ==> cands@[j] == b || closer(b, cands@[j], *target),
                    None => forall|j: int|
                        0 <= j < i ==> exclude@.contains(#[trigger] cands@[j]) || out@.contains(
                            cands@[j],
                        ),
                },
            decreases cands@.len() - i,
        {
            let c = cands[i];
            if !contains_name(exclude, &c) && !contains_name(&out, &c) {
                match best {
                    None => {
                        best = Some(c);
                    },
                    Some(b) => {
                        if closer_to_target(&c, &b, target) {
                            proof {
                                assert forall|j: int|
                                    0 <= j < i + 1 && !exclude@.contains(cands@[j])
                                        && !out@.contains(#[trigger] cands@[j]) implies cands@[j]
                                    == c || closer(c, cands@[j], *target) by {
                                    if j < i && cands@[j] != b && cands@[j] != c {
                                        lemma_closer_transitive(c, b, cands@[j], *target);
                                    }
                                }
                            }
                            best = Some(c);
                        } else {
                            proof {
                                if c != b {
                                    lemma_closer_total(c, b, *target);
                                }
                            }
                        }
                    },
                }
            }
            i = i + 1;
        }
        match best {
            None => {
                proof {
                    assert forall|n: Name| eligible(cands@, exclude@, n) implies #[trigger] out@.contains(
                        n,
                    ) by {
                        let j = choose|j: int| 0 <= j < cands@.len() && cands@[j] == n;
                    }
                }
                return out;
            },
            Some(b) => {
                let ghost before = out@;
                out.push(b);
                proof {
                    assert forall|i2: int| 0 <= i2 < out@.len() implies eligible(
                        cands@,
                        exclude@,
                        #[trigger] out@[i2],
                    ) by {
                        if i2 < before.len() {
                            assert(out@[i2] == before[i2]);
                        }
                    }
                    assert forall|a: int, c: int| 0 <= a < c < out@.len() implies closer(
                        out@[a],
                        out@[c],
                        *target,
                    ) by {
                        assert(out@[a] == before[a]);
                        if c < before.len() {
                            assert(out@[c] == before[c]);
                        }
                    }
                    assert forall|n: Name, a: int|
                        eligible(cands@, exclude@, n) && !out@.contains(n) && 0 <= a < out@.len()
                            implies #[trigger] closer(out@[a], n, *target) by {
                        assert(!before.contains(n)) by {
                            if before.contains(n) {
                                let q = choose|q: int| 0 <= q < before.len() && before[q] == n;
                                assert(out@[q] == n);
                            }
                        }
                        assert(n != b) by {
                            assert(out@[before.len() as int] == b);
                        }
                        if a < before.len() {
                            assert(out@[a] == before[a]);
                        } else {
                            let j = choose|j: int| 0 <= j < cands@.len() && cands@[j] == n;
                            assert(!exclude@.contains(cands@[j]) && !before.contains(cands@[j]));
                        }
                    }
                }
            },
        }
    }
    out
}

/// A list that holds every element of a list without repetitions is at least as long.
pub proof fn lemma_cover_len(s: Seq<Name>, r: Seq<Name>)
    requires
        s.no_duplicates(),
        forall|x: Name| s.contains(x) ==> r.contains(x),
    ensures
        s.len() <= r.len(),
{
    s.unique_seq_to_set();
    r.lemma_cardinality_of_set();
    assert(s.to_set().subset_of(r.to_set()));
    vstd::seq_lib::seq_to_set_is_finite(r);
    vstd::set_lib::lemma_len_subset(s.to_set(), r.to_set());
}

/// The first `m` names of a full closest selection are the closest `m`.
pub proof fn lemma_prefix_selection(sorted: Seq<Name>, cands: Seq<Name>, exclude: Seq<Name>, target: Name, m: int)
    requires
        is_closest_selection(sorted, cands, exclude, target, cands.len() as int),
        0 <= m,
    ensures
        is_closest_selection(
            sorted.subrange(0, if m < sorted.len() { m } else { sorted.len() as int }),
            cands,
            exclude,
            target,
            m,
        ),
{
    let l = if m < sorted.len() { m } else { sorted.len() as int };
    let r = sorted.subrange(0, l);
    lemma_selection_distinct(sorted, cands, exclude, target, cands.len() as int);
    assert forall|i: int| 0 <= i < r.len() implies eligible(cands, exclude, #[trigger] r[i]) by {
        assert(r[i] == sorted[i]);
    }
    assert forall|i: int, j: int| 0 <= i < j < r.len() implies closer(r[i], r[j], target) by {
        assert(r[i] == sorted[i] && r[j] == sorted[j]);
    }
    assert forall|n: Name, i: int| eligible(cands, exclude, n) && !r.contains(n) && 0 <= i < r.len()
        implies #[trigger] closer(r[i], n, target) by {
        assert(r[i] == sorted[i]);
        if sorted.contains(n) {
            let q = choose|q: int| 0 <= q < sorted.len() && sorted[q] == n;
            if q < l {
                assert(r[q] == n);
            }
        }
    }
    if r.len() < m {
        assert(r =~= sorted);
        assert forall|x: Name| eligible(cands, exclude, x) implies #[trigger] r.contains(x) by {
            if !sorted.contains(x) && sorted.len() >= cands.len() {
                let s2 = sorted.push(x);
                assert forall|a: int, b: int| 0 <= a < s2.len() && 0 <= b < s2.len() && a != b implies s2[a] != s2[b] by {
                    if a < sorted.len() && b < sorted.len() {
                    } else if a < sorted.len() {
                        assert(sorted.contains(s2[a]));
                    } else if b < sorted.len() {
                        assert(sorted.contains(s2[b]));
                    }
                }
                assert forall|y: Name| s2.contains(y) implies cands.contains(y) by {
                    let q = choose|q: int| 0 <= q < s2.len() && s2[q] == y;
                    if q < sorted.len() {
                        assert(eligible(cands, exclude, sorted[q]));
                    }
                }
                lemma_cover_len(s2, cands);
            }
        }
    }
}

} // verus!
