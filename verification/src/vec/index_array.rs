//! Work on the sorted array of logical indices: the binary search that every
//! operation of a sparse vector starts with, and the renumbering that follows
//! an insertion or a removal.

use vstd::prelude::*;
use crate::vec::model::{lemma_rank_is, rank, shift_down, shift_up, stored, strictly_increasing};

verus! {

/// Searches the sorted `indices` for the logical index `index`.
///
/// `Ok(p)` says that the entry at physical position `p` carries `index`.
/// `Err(p)` says that no entry does, and that `p` is where one would have to
/// be inserted to keep the array sorted. Either way `p` is the number of
/// entries below `index`; for an empty array the result is `Err(0)`.
pub fn locate(indices: &Vec<usize>, index: usize) -> (r: Result<usize, usize>)
    requires
        strictly_increasing(indices@),
    ensures
        match r {
            Ok(p) => p < indices@.len() && indices@[p as int] == index,
            Err(p) => p <= indices@.len() && forall|k: int|
                0 <= k < indices@.len() ==> indices@[k] != index,
        },
        match r {
            Ok(p) => p == rank(indices@, index as int) && stored(indices@, index as int),
            Err(p) => p == rank(indices@, index as int) && !stored(indices@, index as int),
        },
{
    let n = indices.len();
    if n == 0 {
        assert(rank(indices@, index as int) == 0);
        return Err(0);
    }
    let mut left: usize = 0;
    let mut right: usize = n - 1;
    while left < right
        invariant
            n == indices@.len(),
            left <= right < n,
            strictly_increasing(indices@),
            forall|k: int| 0 <= k < left ==> indices@[k] < index,
            forall|k: int| right < k < n ==> indices@[k] > index,
        decreases right - left,
    {
        let mid = left + (right - left) / 2;
        let mid_index = indices[mid];
        if mid_index == index {
            proof {
                assert forall|k: int| 0 <= k < mid implies indices@[k] < index by {
                    assert(indices@[k] < indices@[mid as int]);
                }
                assert forall|k: int| mid <= k < n implies indices@[k] >= index by {
                    if k > mid {
                        assert(indices@[mid as int] < indices@[k]);
                    }
                }
                lemma_rank_is(indices@, index as int, mid as int);
            }
            return Ok(mid);
        } else if mid_index < index {
            proof {
                assert forall|k: int| 0 <= k < mid + 1 implies indices@[k] < index by {
                    if k < mid {
                        assert(indices@[k] < indices@[mid as int]);
                    }
                }
            }
            left = mid + 1;
        } else {
            proof {
                assert forall|k: int| mid < k < n implies indices@[k] > index by {
                    assert(indices@[mid as int] < indices@[k]);
                }
            }
            right = mid;
        }
    }
    let final_index = indices[left];
    let p: usize = if final_index < index {
        left + 1
    } else {
        left
    };
    proof {
        assert forall|k: int| 0 <= k < p implies indices@[k] < index by {}
        assert forall|k: int| p <= k < n implies indices@[k] >= index by {
            if k > left {
                assert(indices@[left as int] < indices@[k]);
            }
        }
        lemma_rank_is(indices@, index as int, p as int);
    }
    if final_index == index {
        Ok(left)
    } else {
        proof {
            assert forall|k: int| 0 <= k < n implies indices@[k] != index by {
                if k < left {
                    assert(indices@[k] < indices@[left as int]);
                } else if k > left {
                    assert(indices@[left as int] < indices@[k]);
                }
            }
        }
        Err(p)
    }
}

/// Adds one to every entry at physical position `from` or later: the logical
/// positions behind a newly opened slot all move up by one.
pub fn shift_up_from(indices: &mut Vec<usize>, from: usize)
    requires
        forall|k: int| from <= k < old(indices)@.len() ==> old(indices)@[k] < usize::MAX,
    ensures
        final(indices)@ == shift_up(old(indices)@, from as int),
{
    let n = indices.len();
    let mut k: usize = from;
    while k < n
        invariant
            n == indices@.len(),
            n == old(indices)@.len(),
            from <= k,
            forall|j: int| from <= j < n ==> old(indices)@[j] < usize::MAX,
            forall|j: int| 0 <= j < n && (j < from || j >= k) ==> indices@[j] == old(indices)@[j],
            forall|j: int| from <= j < k && j < n ==> indices@[j] == old(indices)@[j] + 1,
        decreases n - k,
    {
        let moved = indices[k] + 1;
        indices[k] = moved;
        k += 1;
    }
    assert(indices@ =~= shift_up(old(indices)@, from as int));
}

/// Takes one from every entry at physical position `from` or later: the
/// logical positions behind a closed slot all move down by one.
pub fn shift_down_from(indices: &mut Vec<usize>, from: usize)
    requires
        forall|k: int| from <= k < old(indices)@.len() ==> old(indices)@[k] > 0,
    ensures
        final(indices)@ == shift_down(old(indices)@, from as int),
{
    let n = indices.len();
    let mut k: usize = from;
    while k < n
        invariant
            n == indices@.len(),
            n == old(indices)@.len(),
            from <= k,
            forall|j: int| from <= j < n ==> old(indices)@[j] > 0,
            forall|j: int| 0 <= j < n && (j < from || j >= k) ==> indices@[j] == old(indices)@[j],
            forall|j: int| from <= j < k && j < n ==> indices@[j] == old(indices)@[j] - 1,
        decreases n - k,
    {
        let moved = indices[k] - 1;
        indices[k] = moved;
        k += 1;
    }
    assert(indices@ =~= shift_down(old(indices)@, from as int));
}

} // verus!
