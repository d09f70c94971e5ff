//! What holds of the sparse vector across its operations.

use vstd::prelude::*;
use vstd::std_specs::cmp::PartialEqSpec;
use crate::vec::default_sparse_vec::DefaultSparseVec;
use crate::vec::model::{
    clones_of, dense, lemma_insert_stored, lemma_rank_of_entry, lemma_rank_splits, lookup,
    rank, stored,
};
use crate::vec::vec_trait::{dense_dot, matched_dot, matched_term, Math};

verus! {

/// Turning a dense sequence into a sparse vector and back gives the sequence
/// again, for an element type whose equality with the default is identity and
/// whose clones are exact.
///
/// `sparse` stands for the vector made from `items`, `back` for the dense
/// vector made from `sparse`.
pub proof fn law_round_trip<T: Default + PartialEq + Clone>(
    items: Seq<T>,
    sparse: DefaultSparseVec<T>,
    back: Seq<T>,
)
    requires
        sparse.is_sparse_of(items),
        clones_of(sparse@, back),
        T::obeys_eq_spec(),
        forall|x: T| #[trigger] x.eq_spec(&sparse.spec_default()) ==> x == sparse.spec_default(),
        forall|a: T, b: T| #[trigger] cloned(a, b) ==> a == b,
    ensures
        sparse@ == items,
        back == items,
{
    let d = sparse.spec_default();
    assert forall|i: int| 0 <= i < items.len() implies sparse@[i] == items[i] by {
        assert(sparse.stores(i) <==> !items[i].eq_spec(&d));
        assert(sparse.stores(i) == stored(sparse.spec_indices(), 0 + i));
    }
    assert(sparse@ =~= items);
    assert forall|i: int| 0 <= i < back.len() implies back[i] == sparse@[i] by {
        assert(cloned(sparse@[i], back[i]));
    }
    assert(back =~= sparse@);
}

/// Removing at the position at which a non-default element was just inserted
/// gives the element back and leaves the vector as it was before: the same
/// dense sequence, and the same stored entries.
///
/// `mid` stands for the vector after the insertion, `after` for the vector
/// after the removal and `taken` for the value that the removal returned.
pub proof fn law_insert_then_remove<T: Default + PartialEq + Clone>(
    before: DefaultSparseVec<T>,
    mid: DefaultSparseVec<T>,
    after: DefaultSparseVec<T>,
    index: usize,
    elem: T,
    taken: T,
)
    requires
        before.wf(),
        index <= before.len(),
        before.len() < usize::MAX,
        T::obeys_eq_spec(),
        !elem.eq_spec(&before.spec_default()),
        before.inserted(&mid, index, elem),
        mid.removed(&after, index, taken),
    ensures
        taken == elem,
        after@ == before@,
        after.len() == before.len(),
        after.nnz() == before.nnz(),
        after.spec_indices() == before.spec_indices(),
        after.spec_values() == before.spec_values(),
        after.spec_default() == before.spec_default(),
{
    let ind = before.spec_indices();
    let val = before.spec_values();
    let p = rank(ind, index as int);
    lemma_rank_splits(ind, index as int);
    lemma_insert_stored(
        before.len() as nat,
        ind,
        val,
        before.spec_default(),
        index as int,
        elem,
    );
    let ind1 = mid.spec_indices();
    assert(ind1[p] == index);
    lemma_rank_of_entry(ind1, p);
    assert(after.spec_indices() =~= ind);
    assert(after.spec_values() =~= val);
    assert(before@.insert(index as int, elem).remove(index as int) =~= before@);
}

/// Reading a position after `get_mut` handed out a reference to it, and the
/// reference was not written through, gives the value that the reference
/// showed.
///
/// `after` stands for the vector once the reference is given back, and `shown`
/// for the value it showed.
pub proof fn law_get_after_get_mut<T: Default + PartialEq + Clone>(
    before: DefaultSparseVec<T>,
    after: DefaultSparseVec<T>,
    index: usize,
    shown: T,
)
    requires
        before.wf(),
        index < before.len(),
        before.opened_at(&after, index, shown, shown),
    ensures
        index < after.len(),
        after@[index as int] == shown,
        forall|i: int| 0 <= i < before.len() && i != index ==> after@[i] == before@[i],
{
}

/// For two vectors of one length that both elide zero, the dot product over
/// the stored entries is the dot product of the dense sequences.
pub proof fn law_dot_of_dense(a: DefaultSparseVec<u64>, b: DefaultSparseVec<u64>)
    requires
        a.wf(),
        b.wf(),
        a.len() == b.len(),
        a.spec_default() == 0,
        b.spec_default() == 0,
    ensures
        a.spec_dot(&b) == dense_dot(a@, b@, a.len() as nat),
{
    lemma_matched_is_dense(
        a.spec_indices(),
        a.spec_values(),
        b.spec_indices(),
        b.spec_values(),
        a.len() as nat,
        a.len() as nat,
    );
}

/// Below `n`, the sum over the matched entries is the dot product of the two
/// dense sequences that elide zero.
pub proof fn lemma_matched_is_dense(
    ia: Seq<usize>,
    va: Seq<u64>,
    ib: Seq<usize>,
    vb: Seq<u64>,
    len: nat,
    n: nat,
)
    requires
        n <= len,
    ensures
        matched_dot(ia, va, ib, vb, n) == dense_dot(
            dense(len, ia, va, 0u64),
            dense(len, ib, vb, 0u64),
            n,
        ),
    decreases n,
{
    if n > 0 {
        lemma_matched_is_dense(ia, va, ib, vb, len, (n - 1) as nat);
        let i = n - 1;
        let x = lookup(ia, va, 0u64, i);
        let y = lookup(ib, vb, 0u64, i);
        assert(dense(len, ia, va, 0u64)[i] == x);
        assert(dense(len, ib, vb, 0u64)[i] == y);
        assert(matched_term(ia, va, ib, vb, i) == x * y) by {
            if !stored(ia, i) {
                assert(x * y == 0) by (nonlinear_arith)
                    requires
                        x == 0,
                ;
            } else if !stored(ib, i) {
                assert(x * y == 0) by (nonlinear_arith)
                    requires
                        y == 0,
                ;
            }
        }
    }
}

} // verus!
