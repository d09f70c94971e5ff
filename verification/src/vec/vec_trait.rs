//! The dot product of two sparse vectors of `u64`.
//!
//! The product is taken over the stored entries alone: a logical position
//! counts only where both vectors store a value for it. That is the dot
//! product of the dense sequences exactly when both vectors elide zero.

use vstd::prelude::*;
use crate::vec::default_sparse_vec::DefaultSparseVec;
use crate::vec::model::{
    dense, lemma_rank_of_entry, lemma_stored_iff_present, rank, stored, strictly_increasing,
    valid_parts,
};
use crate::vec::sparse_vec::ZeroSparseVec;

verus! {

/// What logical position `i` adds to the product: the product of the two
/// stored values where both vectors store one, and nothing otherwise.
pub open spec fn matched_term(
    ia: Seq<usize>,
    va: Seq<u64>,
    ib: Seq<usize>,
    vb: Seq<u64>,
    i: int,
) -> int {
    if stored(ia, i) && stored(ib, i) {
        va[rank(ia, i)] * vb[rank(ib, i)]
    } else {
        0
    }
}

/// The sum of `matched_term` over the logical positions below `n`.
pub open spec fn matched_dot(
    ia: Seq<usize>,
    va: Seq<u64>,
    ib: Seq<usize>,
    vb: Seq<u64>,
    n: nat,
) -> int
    decreases n,
{
    if n == 0 {
        0
    } else {
        matched_dot(ia, va, ib, vb, (n - 1) as nat) + matched_term(ia, va, ib, vb, n - 1)
    }
}

/// The dot product of the first `n` elements of two dense sequences.
pub open spec fn dense_dot(a: Seq<u64>, b: Seq<u64>, n: nat) -> int
    decreases n,
{
    if n == 0 {
        0
    } else {
        dense_dot(a, b, (n - 1) as nat) + a[n - 1] * b[n - 1]
    }
}

/// The sum never falls as more positions are counted: no term is negative.
pub proof fn lemma_matched_dot_grows(
    ia: Seq<usize>,
    va: Seq<u64>,
    ib: Seq<usize>,
    vb: Seq<u64>,
    lo: nat,
    hi: nat,
)
    requires
        lo <= hi,
    ensures
        0 <= matched_dot(ia, va, ib, vb, lo) <= matched_dot(ia, va, ib, vb, hi),
    decreases hi,
{
    if hi > 0 {
        let x = va[rank(ia, hi - 1)];
        let y = vb[rank(ib, hi - 1)];
        assert(0 <= x * y) by (nonlinear_arith)
            requires
                0 <= x,
                0 <= y,
        ;
        if lo < hi {
            lemma_matched_dot_grows(ia, va, ib, vb, lo, (hi - 1) as nat);
        } else {
            lemma_matched_dot_grows(ia, va, ib, vb, (lo - 1) as nat, (hi - 1) as nat);
        }
    }
}

/// Positions that the two vectors do not both store add nothing.
pub proof fn lemma_matched_dot_skips(
    ia: Seq<usize>,
    va: Seq<u64>,
    ib: Seq<usize>,
    vb: Seq<u64>,
    lo: nat,
    hi: nat,
)
    requires
        lo <= hi,
        forall|i: int| lo <= i < hi ==> !(stored(ia, i) && stored(ib, i)),
    ensures
        matched_dot(ia, va, ib, vb, hi) == matched_dot(ia, va, ib, vb, lo),
    decreases hi,
{
    if lo < hi {
        lemma_matched_dot_skips(ia, va, ib, vb, lo, (hi - 1) as nat);
    }
}

/// The merge over the two sorted index arrays: where both arrays carry the
/// same logical index the two values are multiplied and added up, and the
/// array with the smaller index moves on. `None` says that the sum does not
/// fit in a `u64`.
pub fn checked_dot(
    ia: &[usize],
    va: &[u64],
    ib: &[usize],
    vb: &[u64],
    len: usize,
) -> (r: Option<u64>)
    requires
        valid_parts(len as nat, ia@, va@),
        strictly_increasing(ib@),
        ib@.len() == vb@.len(),
    ensures
        match r {
            Some(sum) => sum == matched_dot(ia@, va@, ib@, vb@, len as nat),
            None => matched_dot(ia@, va@, ib@, vb@, len as nat) > u64::MAX,
        },
{
    let na = ia.len();
    let nb = ib.len();
    let mut pa: usize = 0;
    let mut pb: usize = 0;
    let mut sum: u64 = 0;
    let ghost mut m: nat = 0;
    while pa < na && pb < nb
        invariant
            valid_parts(len as nat, ia@, va@),
            strictly_increasing(ib@),
            ib@.len() == vb@.len(),
            na == ia@.len(),
            nb == ib@.len(),
            pa <= na,
            pb <= nb,
            m <= len,
            forall|k: int| 0 <= k < pa ==> ia@[k] < m,
            forall|k: int| pa <= k < na ==> ia@[k] >= m,
            forall|k: int| 0 <= k < pb ==> ib@[k] < m,
            forall|k: int| pb <= k < nb ==> ib@[k] >= m,
            sum == matched_dot(ia@, va@, ib@, vb@, m),
        decreases (na - pa) + (nb - pb),
    {
        let x = ia[pa];
        let y = ib[pb];
        if x < y {
            proof {
                assert forall|i: int| m <= i < x + 1 implies !(stored(ia@, i) && stored(ib@, i)) by {
                    lemma_stored_iff_present(ib@, i);
                }
                lemma_matched_dot_skips(ia@, va@, ib@, vb@, m, (x + 1) as nat);
                assert forall|k: int| pa + 1 <= k < na implies ia@[k] >= x + 1 by {
                    assert(ia@[pa as int] < ia@[k]);
                }
                m = (x + 1) as nat;
            }
            pa += 1;
        } else if x > y {
            proof {
                assert forall|i: int| m <= i < y + 1 implies !(stored(ia@, i) && stored(ib@, i)) by {
                    lemma_stored_iff_present(ia@, i);
                }
                lemma_matched_dot_skips(ia@, va@, ib@, vb@, m, (y + 1) as nat);
                assert forall|k: int| pb + 1 <= k < nb implies ib@[k] >= y + 1 by {
                    assert(ib@[pb as int] < ib@[k]);
                }
                m = (y + 1) as nat;
            }
            pb += 1;
        } else {
            proof {
                assert forall|i: int| m <= i < x implies !(stored(ia@, i) && stored(ib@, i)) by {
                    lemma_stored_iff_present(ia@, i);
                }
                lemma_matched_dot_skips(ia@, va@, ib@, vb@, m, x as nat);
                lemma_rank_of_entry(ia@, pa as int);
                lemma_rank_of_entry(ib@, pb as int);
                assert(matched_dot(ia@, va@, ib@, vb@, (x + 1) as nat) == sum + va@[pa as int]
                    * vb@[pb as int]);
                lemma_matched_dot_grows(ia@, va@, ib@, vb@, (x + 1) as nat, len as nat);
                lemma_matched_dot_grows(ia@, va@, ib@, vb@, 0, m);
                assert forall|k: int| pa + 1 <= k < na implies ia@[k] >= x + 1 by {
                    assert(ia@[pa as int] < ia@[k]);
                }
                assert forall|k: int| pb + 1 <= k < nb implies ib@[k] >= x + 1 by {
                    assert(ib@[pb as int] < ib@[k]);
                }
            }
            let product = match va[pa].checked_mul(vb[pb]) {
                Some(product) => product,
                None => {
                    return None;
                },
            };
            sum = match sum.checked_add(product) {
                Some(total) => total,
                None => {
                    return None;
                },
            };
            proof {
                m = (x + 1) as nat;
            }
            pa += 1;
            pb += 1;
        }
    }
    proof {
        assert forall|i: int| m <= i < len implies !(stored(ia@, i) && stored(ib@, i)) by {
            lemma_stored_iff_present(ia@, i);
            lemma_stored_iff_present(ib@, i);
        }
        lemma_matched_dot_skips(ia@, va@, ib@, vb@, m, len as nat);
    }
    Some(sum)
}

/// The dot product as a capability of a container of numbers.
pub trait Math<T> {
    /// The container is in a state in which its dot product can be taken.
    spec fn math_wf(&self) -> bool;

    /// The dot product of `self` and `other` as an integer: the sum, over the
    /// logical positions of `self`, of the products of the values that both
    /// containers store there.
    spec fn spec_dot(&self, other: &Self) -> int;

    /// The dot product, where it fits in a `u64`.
    fn u64_dot(&self, other: &Self) -> (r: u64)
        requires
            self.math_wf(),
            other.math_wf(),
            self.spec_dot(other) <= u64::MAX,
        ensures
            r == self.spec_dot(other),
    ;

    /// The dot product, or `None` where it does not fit in a `u64`.
    fn checked_u64_dot(&self, other: &Self) -> (r: Option<u64>)
        requires
            self.math_wf(),
            other.math_wf(),
        ensures
            match r {
                Some(sum) => sum == self.spec_dot(other),
                None => self.spec_dot(other) > u64::MAX,
            },
    ;
}

impl Math<u64> for DefaultSparseVec<u64> {
    open spec fn math_wf(&self) -> bool {
        self.wf()
    }

    open spec fn spec_dot(&self, other: &Self) -> int {
        matched_dot(
            self.spec_indices(),
            self.spec_values(),
            other.spec_indices(),
            other.spec_values(),
            self.spec_len() as nat,
        )
    }

    fn u64_dot(&self, other: &Self) -> (r: u64) {
        match self.checked_u64_dot(other) {
            Some(sum) => sum,
            None => vstd::pervasive::unreached(),
        }
    }

    fn checked_u64_dot(&self, other: &Self) -> (r: Option<u64>) {
        checked_dot(
            self.as_slice_ind(),
            self.as_slice_val(),
            other.as_slice_ind(),
            other.as_slice_val(),
            self.len(),
        )
    }
}

impl Math<u64> for ZeroSparseVec<u64> {
    open spec fn math_wf(&self) -> bool {
        self.wf()
    }

    open spec fn spec_dot(&self, other: &Self) -> int {
        matched_dot(
            self.spec_indices(),
            self.spec_values(),
            other.spec_indices(),
            other.spec_values(),
            self.spec_len() as nat,
        )
    }

    fn u64_dot(&self, other: &Self) -> (r: u64) {
        match self.checked_u64_dot(other) {
            Some(sum) => sum,
            None => vstd::pervasive::unreached(),
        }
    }

    fn checked_u64_dot(&self, other: &Self) -> (r: Option<u64>) {
        checked_dot(
            self.sparse_indices(),
            self.sparse_values(),
            other.sparse_indices(),
            other.sparse_values(),
            self.len(),
        )
    }
}

} // verus!
