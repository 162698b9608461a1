//! The resolution vote: when auto-resize is requested, the normalizer decodes
//! every input once, counts how often each (width, height) pair occurs, and
//! picks the modal pair as the single target resolution. Ties break towards
//! the pair that first reached the maximum count, so the choice is
//! deterministic and reproducible.

use vstd::prelude::*;
use crate::scale::Dim;

verus! {

/// Occurrences of one resolution among the first `i` observations.
pub open spec fn occ_prefix(dims: Seq<Dim>, d: Dim, i: int) -> int
    decreases i,
{
    if i <= 0 {
        0
    } else {
        occ_prefix(dims, d, i - 1) + if dims[i - 1] == d { 1int } else { 0int }
    }
}

/// Occurrences of one resolution among all observations.
pub open spec fn occurrences(dims: Seq<Dim>, d: Dim) -> int {
    occ_prefix(dims, d, dims.len() as int)
}

/// The vote's running winner after the first `i` observations, with its count:
/// each observation displaces the winner only when its pair's count strictly
/// exceeds the winner's. This is exactly the "first pair to reach the maximum
/// count" tie-break.
pub open spec fn modal_prefix(dims: Seq<Dim>, i: int) -> Option<(Dim, int)>
    decreases i,
{
    if i <= 0 {
        None
    } else {
        let d = dims[i - 1];
        let c = occ_prefix(dims, d, i);
        match modal_prefix(dims, i - 1) {
            None => Some((d, c)),
            Some((b, bc)) => if c > bc {
                Some((d, c))
            } else {
                Some((b, bc))
            },
        }
    }
}

/// The resolution the vote selects: the modal pair, ties broken towards the
/// first pair that reached the maximum count. `None` only for no observations.
pub open spec fn modal_of(dims: Seq<Dim>) -> Option<Dim> {
    match modal_prefix(dims, dims.len() as int) {
        None => None,
        Some((d, _)) => Some(d),
    }
}

/// A count never exceeds the number of observations counted.
pub proof fn lemma_occ_prefix_le(dims: Seq<Dim>, d: Dim, i: int)
    requires
        i >= 0,
    ensures
        0 <= occ_prefix(dims, d, i) <= i,
    decreases i,
{
    if i > 0 {
        lemma_occ_prefix_le(dims, d, i - 1);
    }
}

/// A resolution counted at all occurs somewhere in the prefix.
pub proof fn lemma_occ_prefix_pos(dims: Seq<Dim>, d: Dim, i: int)
    requires
        occ_prefix(dims, d, i) > 0,
    ensures
        exists|j: int| 0 <= j < i && dims[j] == d,
    decreases i,
{
    if i > 0 && dims[i - 1] != d {
        lemma_occ_prefix_pos(dims, d, i - 1);
    }
}

/// The running winner always carries its own current count, and no resolution
/// has a higher one: the vote's winner is modal at every step.
pub proof fn lemma_modal_prefix_invariant(dims: Seq<Dim>, i: int)
    requires
        0 <= i,
    ensures
        match modal_prefix(dims, i) {
            None => i <= 0,
            Some((b, bc)) => bc == occ_prefix(dims, b, i)
                && forall|d: Dim| #[trigger] occ_prefix(dims, d, i) <= bc,
        },
    decreases i,
{
    if i > 0 {
        lemma_modal_prefix_invariant(dims, i - 1);
        let d = dims[i - 1];
        let c = occ_prefix(dims, d, i);
        match modal_prefix(dims, i - 1) {
            None => {
                assert(i == 1);
                assert(occ_prefix(dims, d, i - 1) == 0);
                assert(c == 1);
                assert(modal_prefix(dims, i) == Some((d, c)));
                assert forall|x: Dim| #[trigger] occ_prefix(dims, x, i) <= 1 by {
                    assert(occ_prefix(dims, x, i - 1) == 0);
                }
            }
            Some((b, bc)) => {
                assert(modal_prefix(dims, i) == (if c > bc { Some((d, c)) } else { Some((b, bc)) }));
                if c > bc {
                    assert forall|x: Dim| #[trigger] occ_prefix(dims, x, i) <= c by {
                        if x != d {
                            assert(occ_prefix(dims, x, i) <= occ_prefix(dims, x, i - 1) + 1);
                            assert(occ_prefix(dims, x, i - 1) <= bc);
                        }
                    }
                } else {
                    assert(b != d) by {
                        if b == d {
                            assert(c == bc + 1);
                        }
                    }
                    assert(occ_prefix(dims, b, i) == bc);
                    assert forall|x: Dim| #[trigger] occ_prefix(dims, x, i) <= bc by {
                        if x == d {
                            assert(occ_prefix(dims, x, i) == c);
                        } else {
                            assert(occ_prefix(dims, x, i) == occ_prefix(dims, x, i - 1));
                        }
                    }
                }
            }
        }
    }
}

/// Modal selection law: the selected resolution occurs at least as often as
/// every other resolution, and a selection exists whenever anything was
/// observed.
pub proof fn lemma_modal_maximal(dims: Seq<Dim>)
    ensures
        dims.len() > 0 ==> modal_of(dims) is Some,
        match modal_of(dims) {
            Some(m) => forall|d: Dim| #[trigger] occurrences(dims, d) <= occurrences(dims, m),
            None => dims.len() == 0,
        },
{
    lemma_modal_prefix_invariant(dims, dims.len() as int);
}

/// One row of the executable vote: a resolution and how often it was seen.
#[derive(Clone, Copy, PartialEq, Eq, Structural, Debug)]
pub struct VoteEntry {
    pub dim: Dim,
    pub count: usize,
}

/// Find the row holding one resolution, if there is one.
fn find_entry(counts: &Vec<VoteEntry>, d: Dim) -> (r: Option<usize>)
    ensures
        match r {
            Some(k) => k < counts@.len() && counts@[k as int].dim == d,
            None => forall|k: int| 0 <= k < counts@.len() ==> (#[trigger] counts@[k]).dim != d,
        },
{
    let mut k: usize = 0;
    while k < counts.len()
        invariant
            0 <= k <= counts@.len(),
            forall|k2: int| 0 <= k2 < k ==> (#[trigger] counts@[k2]).dim != d,
        decreases counts@.len() - k,
    {
        if counts[k].dim == d {
            return Some(k);
        }
        k += 1;
    }
    None
}

/// Run the vote over the observed resolutions and select the target
/// resolution: the modal pair, ties broken towards the pair that first
/// reached the maximum count.
pub fn modal_resolution(dims: &Vec<Dim>) -> (r: Option<Dim>)
    ensures
        r == modal_of(dims@),
{
    let n = dims.len();
    let mut counts: Vec<VoteEntry> = Vec::new();
    let mut best: Option<VoteEntry> = None;
    let mut i: usize = 0;
    while i < n
        invariant
            0 <= i <= n,
            n == dims@.len(),
            forall|k1: int, k2: int|
                0 <= k1 < k2 < counts@.len() ==> (#[trigger] counts@[k1]).dim != (#[trigger] counts@[k2]).dim,
            forall|k: int| 0 <= k < counts@.len()
                ==> (#[trigger] counts@[k]).count == occ_prefix(dims@, counts@[k].dim, i as int),
            forall|j: int| 0 <= j < i
                ==> exists|k: int| 0 <= k < counts@.len() && (#[trigger] counts@[k]).dim == #[trigger] dims@[j],
            match best {
                None => modal_prefix(dims@, i as int) is None,
                Some(e) => modal_prefix(dims@, i as int) == Some((e.dim, e.count as int)),
            },
        decreases n - i,
    {
        let d = dims[i];
        proof {
            assert(occ_prefix(dims@, d, i as int + 1) == occ_prefix(dims@, d, i as int) + 1);
        }
        let ghost prev = counts@;
        let c: usize = match find_entry(&counts, d) {
            Some(k) => {
                proof {
                    lemma_occ_prefix_le(dims@, d, i as int);
                }
                let e = counts[k];
                let c = e.count + 1;
                counts.set(k, VoteEntry { dim: d, count: c });
                proof {
                    assert(counts@ == prev.update(k as int, VoteEntry { dim: d, count: c }));
                    assert(counts@[k as int].dim == d);
                    assert(forall|k2: int| 0 <= k2 < counts@.len() && k2 != k
                        ==> #[trigger] counts@[k2] == prev[k2]);
                }
                c
            }
            None => {
                proof {
                    lemma_occ_prefix_le(dims@, d, i as int);
                    if occ_prefix(dims@, d, i as int) > 0 {
                        lemma_occ_prefix_pos(dims@, d, i as int);
                        let j = choose|j: int| 0 <= j < i && dims@[j] == d;
                        assert(exists|k: int|
                            0 <= k < counts@.len() && (#[trigger] counts@[k]).dim == dims@[j]);
                    }
                    assert(occ_prefix(dims@, d, i as int) == 0);
                }
                counts.push(VoteEntry { dim: d, count: 1 });
                proof {
                    assert(counts@ == prev.push(VoteEntry { dim: d, count: 1 }));
                    assert(counts@[counts@.len() - 1].dim == d);
                    assert(forall|k2: int| 0 <= k2 < prev.len()
                        ==> #[trigger] counts@[k2] == prev[k2]);
                }
                1
            }
        };
        proof {
            assert forall|x: Dim| x != d
                implies #[trigger] occ_prefix(dims@, x, i as int + 1) == occ_prefix(dims@, x, i as int) by {
                assert(dims@[i as int] != x);
            }
            assert(c as int == occ_prefix(dims@, d, i as int + 1));
            assert forall|k: int| 0 <= k < counts@.len()
                implies (#[trigger] counts@[k]).count == occ_prefix(dims@, counts@[k].dim, i as int + 1) by {
                if counts@[k].dim == d {
                    assert(counts@[k].count == c);
                } else {
                    assert(counts@[k].count == occ_prefix(dims@, counts@[k].dim, i as int));
                }
            }
            assert forall|j: int| 0 <= j < i + 1
                implies exists|k: int|
                    0 <= k < counts@.len() && (#[trigger] counts@[k]).dim == #[trigger] dims@[j] by {
                if j < i {
                    let k0 = choose|k0: int| 0 <= k0 < prev.len() && (#[trigger] prev[k0]).dim == dims@[j];
                    assert(counts@[k0].dim == dims@[j]);
                } else {
                    let kd = choose|kd: int| 0 <= kd < counts@.len() && (#[trigger] counts@[kd]).dim == d;
                    assert(counts@[kd].dim == dims@[j]);
                }
            }
            assert(modal_prefix(dims@, i as int + 1) == (match modal_prefix(dims@, i as int) {
                None => Some((d, c as int)),
                Some((b, bc)) => if c as int > bc {
                    Some((d, c as int))
                } else {
                    Some((b, bc))
                },
            }));
        }
        best = match best {
            None => Some(VoteEntry { dim: d, count: c }),
            Some(b) => {
                if c > b.count {
                    Some(VoteEntry { dim: d, count: c })
                } else {
                    Some(b)
                }
            }
        };
        i += 1;
    }
    match best {
        None => None,
        Some(e) => Some(e.dim),
    }
}

} // verus!
