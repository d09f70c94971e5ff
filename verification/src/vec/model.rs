//! The mathematical model of a sparse vector.
//!
//! A sparse vector of logical length `len` is described by two parallel
//! sequences: `ind`, the logical indices of the stored entries, and `val`,
//! their values. Every logical position that `ind` does not mention holds the
//! default value `d`. The functions below say what the dense sequence of such a
//! pair is, and how the pair changes under the edits a vector offers.

use vstd::prelude::*;
use vstd::std_specs::cmp::PartialEqSpec;

verus! {

/// Every entry is smaller than the one after it.
pub open spec fn strictly_increasing(ind: Seq<usize>) -> bool {
    forall|a: int, b: int| 0 <= a < b < ind.len() ==> ind[a] < ind[b]
}

/// Every entry is a position of a vector of length `len`.
pub open spec fn all_below(ind: Seq<usize>, len: nat) -> bool {
    forall|k: int| 0 <= k < ind.len() ==> ind[k] < len
}

/// The structural invariant of the stored entries: one value per index, the
/// indices sorted without repetition, and each inside the logical length.
pub open spec fn valid_parts<T>(len: nat, ind: Seq<usize>, val: Seq<T>) -> bool {
    &&& ind.len() == val.len()
    &&& strictly_increasing(ind)
    &&& all_below(ind, len)
}

/// How many entries of `ind` are smaller than `i`. For sorted indices this is
/// the physical position at which logical index `i` is stored, or at which it
/// would have to be stored.
pub open spec fn rank(ind: Seq<usize>, i: int) -> int
    decreases ind.len(),
{
    if ind.len() == 0 {
        0
    } else {
        rank(ind.drop_last(), i) + if ind.last() < i {
            1int
        } else {
            0int
        }
    }
}

/// Logical index `i` has a stored entry.
pub open spec fn stored(ind: Seq<usize>, i: int) -> bool {
    0 <= rank(ind, i) < ind.len() && ind[rank(ind, i)] == i
}

/// The value at logical position `i`: the stored one if there is one, else `d`.
pub open spec fn lookup<T>(ind: Seq<usize>, val: Seq<T>, d: T, i: int) -> T {
    if stored(ind, i) {
        val[rank(ind, i)]
    } else {
        d
    }
}

/// The dense sequence that the stored entries and the default stand for.
pub open spec fn dense<T>(len: nat, ind: Seq<usize>, val: Seq<T>, d: T) -> Seq<T> {
    Seq::new(len, |i: int| lookup(ind, val, d, i))
}

/// `ind` with one added to every entry at physical position `p` or later.
pub open spec fn shift_up(ind: Seq<usize>, p: int) -> Seq<usize> {
    Seq::new(
        ind.len(),
        |k: int|
            if k >= p {
                (ind[k] + 1) as usize
            } else {
                ind[k]
            },
    )
}

/// `ind` with one taken from every entry at physical position `p` or later.
pub open spec fn shift_down(ind: Seq<usize>, p: int) -> Seq<usize> {
    Seq::new(
        ind.len(),
        |k: int|
            if k >= p {
                (ind[k] - 1) as usize
            } else {
                ind[k]
            },
    )
}

/// `ind` with `by` added to every entry.
pub open spec fn moved_up(ind: Seq<usize>, by: nat) -> Seq<usize> {
    Seq::new(ind.len(), |k: int| (ind[k] + by) as usize)
}

/// `rank` stays inside the sequence.
pub proof fn lemma_rank_bounds(ind: Seq<usize>, i: int)
    ensures
        0 <= rank(ind, i) <= ind.len(),
    decreases ind.len(),
{
    if ind.len() > 0 {
        lemma_rank_bounds(ind.drop_last(), i);
    }
}

/// In sorted indices, `rank` splits the entries into those below `i` and
/// those at or above it.
pub proof fn lemma_rank_splits(ind: Seq<usize>, i: int)
    requires
        strictly_increasing(ind),
    ensures
        0 <= rank(ind, i) <= ind.len(),
        forall|k: int| 0 <= k < rank(ind, i) ==> ind[k] < i,
        forall|k: int| rank(ind, i) <= k < ind.len() ==> ind[k] >= i,
    decreases ind.len(),
{
    lemma_rank_bounds(ind, i);
    if ind.len() > 0 {
        let front = ind.drop_last();
        assert(strictly_increasing(front)) by {
            assert forall|a: int, b: int| 0 <= a < b < front.len() implies front[a] < front[b] by {
                assert(front[a] == ind[a] && front[b] == ind[b]);
            }
        }
        lemma_rank_splits(front, i);
        let r = rank(front, i);
        assert forall|k: int| 0 <= k < rank(ind, i) implies ind[k] < i by {
            if k < front.len() {
                assert(front[k] == ind[k]);
                if k >= r {
                    // only possible when the last entry is below `i`
                    assert(ind[k] < ind[ind.len() - 1]);
                }
            }
        }
        assert forall|k: int| rank(ind, i) <= k < ind.len() implies ind[k] >= i by {
            if k < front.len() {
                assert(front[k] == ind[k]);
            }
        }
    }
}

/// A position that splits sorted indices as `rank` does is the rank.
pub proof fn lemma_rank_is(ind: Seq<usize>, i: int, p: int)
    requires
        strictly_increasing(ind),
        0 <= p <= ind.len(),
        forall|k: int| 0 <= k < p ==> ind[k] < i,
        forall|k: int| p <= k < ind.len() ==> ind[k] >= i,
    ensures
        rank(ind, i) == p,
{
    lemma_rank_splits(ind, i);
    let r = rank(ind, i);
    if r < p {
        assert(ind[r] < i);
        assert(ind[r] >= i);
    } else if p < r {
        assert(ind[p] >= i);
        assert(ind[p] < i);
    }
}

/// The entry at physical position `k` is found again under its logical index.
pub proof fn lemma_rank_of_entry(ind: Seq<usize>, k: int)
    requires
        strictly_increasing(ind),
        0 <= k < ind.len(),
    ensures
        rank(ind, ind[k] as int) == k,
        stored(ind, ind[k] as int),
{
    lemma_rank_is(ind, ind[k] as int, k);
}

/// A logical index is stored exactly when some entry carries it.
pub proof fn lemma_stored_iff_present(ind: Seq<usize>, i: int)
    requires
        strictly_increasing(ind),
    ensures
        stored(ind, i) <==> exists|k: int| 0 <= k < ind.len() && ind[k] == i,
{
    if exists|k: int| 0 <= k < ind.len() && ind[k] == i {
        let k = choose|k: int| 0 <= k < ind.len() && ind[k] == i;
        lemma_rank_of_entry(ind, k);
    }
    if stored(ind, i) {
        assert(0 <= rank(ind, i) < ind.len() && ind[rank(ind, i)] == i);
    }
}

/// Sorted indices below `len` number at most `len`.
pub proof fn lemma_count_at_most_len(ind: Seq<usize>, len: nat)
    requires
        strictly_increasing(ind),
        all_below(ind, len),
    ensures
        ind.len() <= len,
{
    lemma_entry_at_least_position(ind);
    if ind.len() > 0 {
        assert(ind[ind.len() - 1] >= ind.len() - 1);
    }
}

/// In sorted indices the entry at position `k` is at least `k`.
pub proof fn lemma_entry_at_least_position(ind: Seq<usize>)
    requires
        strictly_increasing(ind),
    ensures
        forall|k: int| 0 <= k < ind.len() ==> ind[k] >= k,
    decreases ind.len(),
{
    if ind.len() > 0 {
        let front = ind.drop_last();
        assert(strictly_increasing(front)) by {
            assert forall|a: int, b: int| 0 <= a < b < front.len() implies front[a] < front[b] by {
                assert(front[a] == ind[a] && front[b] == ind[b]);
            }
        }
        lemma_entry_at_least_position(front);
        assert forall|k: int| 0 <= k < ind.len() implies ind[k] >= k by {
            if k < front.len() {
                assert(front[k] == ind[k]);
            } else if k > 0 {
                assert(front[k - 1] == ind[k - 1]);
                assert(ind[k - 1] < ind[k]);
            }
        }
    }
}

/// What `lookup` gives, said by the entries themselves: the value of the entry
/// that carries `i`, and the default where no entry does.
pub proof fn lemma_lookup<T>(ind: Seq<usize>, val: Seq<T>, d: T, i: int)
    requires
        strictly_increasing(ind),
    ensures
        forall|k: int| 0 <= k < ind.len() && ind[k] == i ==> lookup(ind, val, d, i) == val[k],
        (forall|k: int| 0 <= k < ind.len() ==> ind[k] != i) ==> lookup(ind, val, d, i) == d,
{
    assert forall|k: int| 0 <= k < ind.len() && ind[k] == i implies lookup(ind, val, d, i)
        == val[k] by {
        lemma_rank_of_entry(ind, k);
    }
}

/// Appending a stored entry at the end appends its value to the dense sequence.
pub proof fn lemma_push_stored<T>(len: nat, ind: Seq<usize>, val: Seq<T>, d: T, x: T)
    requires
        valid_parts(len, ind, val),
        len < usize::MAX,
    ensures
        valid_parts(len + 1, ind.push(len as usize), val.push(x)),
        dense(len + 1, ind.push(len as usize), val.push(x), d) == dense(len, ind, val, d).push(x),
        stored(ind.push(len as usize), len as int),
{
    let ind2 = ind.push(len as usize);
    let val2 = val.push(x);
    assert(strictly_increasing(ind2));
    lemma_rank_of_entry(ind2, ind.len() as int);
    assert forall|j: int| 0 <= j < len + 1 implies lookup(ind2, val2, d, j) == dense(
        len,
        ind,
        val,
        d,
    ).push(x)[j] by {
        lemma_lookup(ind2, val2, d, j);
        lemma_lookup(ind, val, d, j);
        if j == len {
            assert(ind2[ind.len() as int] == j);
        } else if stored(ind, j) {
            assert(ind2[rank(ind, j)] == j);
        } else {
            assert forall|k: int| 0 <= k < ind2.len() implies ind2[k] != j by {
                if k < ind.len() && ind[k] == j {
                    lemma_rank_of_entry(ind, k);
                }
            }
        }
    }
    assert(dense(len + 1, ind2, val2, d) =~= dense(len, ind, val, d).push(x));
}

/// Lengthening the vector without storing anything appends the default.
pub proof fn lemma_push_absent<T>(len: nat, ind: Seq<usize>, val: Seq<T>, d: T)
    requires
        valid_parts(len, ind, val),
    ensures
        valid_parts(len + 1, ind, val),
        dense(len + 1, ind, val, d) == dense(len, ind, val, d).push(d),
        !stored(ind, len as int),
{
    lemma_stored_iff_present(ind, len as int);
    assert forall|j: int| 0 <= j < len + 1 implies lookup(ind, val, d, j) == dense(
        len,
        ind,
        val,
        d,
    ).push(d)[j] by {
        if j == len {
            lemma_lookup(ind, val, d, j);
        }
    }
    assert(dense(len + 1, ind, val, d) =~= dense(len, ind, val, d).push(d));
}

/// The last logical position is stored exactly when the last entry carries it.
pub open spec fn last_stored(len: nat, ind: Seq<usize>) -> bool {
    ind.len() > 0 && ind.last() == len - 1
}

/// Dropping the last logical position, where it is stored.
pub proof fn lemma_pop_stored<T>(len: nat, ind: Seq<usize>, val: Seq<T>, d: T)
    requires
        valid_parts(len, ind, val),
        len > 0,
        last_stored(len, ind),
    ensures
        valid_parts((len - 1) as nat, ind.drop_last(), val.drop_last()),
        dense((len - 1) as nat, ind.drop_last(), val.drop_last(), d) == dense(
            len,
            ind,
            val,
            d,
        ).drop_last(),
        dense(len, ind, val, d).last() == val.last(),
        stored(ind, len - 1),
{
    let ind2 = ind.drop_last();
    let val2 = val.drop_last();
    let n = ind.len() - 1;
    assert(strictly_increasing(ind2));
    assert(all_below(ind2, (len - 1) as nat)) by {
        assert forall|k: int| 0 <= k < ind2.len() implies ind2[k] < len - 1 by {
            assert(ind[k] < ind[n]);
        }
    }
    lemma_rank_of_entry(ind, n);
    assert forall|j: int| 0 <= j < len - 1 implies lookup(ind2, val2, d, j) == lookup(
        ind,
        val,
        d,
        j,
    ) by {
        lemma_lookup(ind2, val2, d, j);
        lemma_lookup(ind, val, d, j);
        if stored(ind, j) {
            assert(ind2[rank(ind, j)] == j);
        } else {
            assert forall|k: int| 0 <= k < ind2.len() implies ind2[k] != j by {
                if ind[k] == j {
                    lemma_rank_of_entry(ind, k);
                }
            }
        }
    }
    assert(dense((len - 1) as nat, ind2, val2, d) =~= dense(len, ind, val, d).drop_last());
}

/// Dropping the last logical position, where nothing is stored for it.
pub proof fn lemma_pop_absent<T>(len: nat, ind: Seq<usize>, val: Seq<T>, d: T)
    requires
        valid_parts(len, ind, val),
        len > 0,
        !last_stored(len, ind),
    ensures
        valid_parts((len - 1) as nat, ind, val),
        dense((len - 1) as nat, ind, val, d) == dense(len, ind, val, d).drop_last(),
        dense(len, ind, val, d).last() == d,
        !stored(ind, len - 1),
{
    assert(all_below(ind, (len - 1) as nat)) by {
        assert forall|k: int| 0 <= k < ind.len() implies ind[k] < len - 1 by {
            if k < ind.len() - 1 {
                assert(ind[k] < ind[ind.len() - 1]);
            }
        }
    }
    lemma_lookup(ind, val, d, len - 1);
    lemma_stored_iff_present(ind, len - 1);
    assert(dense((len - 1) as nat, ind, val, d) =~= dense(len, ind, val, d).drop_last());
}

/// Opening a logical slot at `index` and storing `x` in it inserts `x` into
/// the dense sequence.
pub proof fn lemma_insert_stored<T>(
    len: nat,
    ind: Seq<usize>,
    val: Seq<T>,
    d: T,
    index: int,
    x: T,
)
    requires
        valid_parts(len, ind, val),
        0 <= index <= len,
        len < usize::MAX,
    ensures
        valid_parts(
            len + 1,
            shift_up(ind, rank(ind, index)).insert(rank(ind, index), index as usize),
            val.insert(rank(ind, index), x),
        ),
        dense(
            len + 1,
            shift_up(ind, rank(ind, index)).insert(rank(ind, index), index as usize),
            val.insert(rank(ind, index), x),
            d,
        ) == dense(len, ind, val, d).insert(index, x),
        stored(shift_up(ind, rank(ind, index)).insert(rank(ind, index), index as usize), index),
{
    let p = rank(ind, index);
    lemma_rank_splits(ind, index);
    let ind2 = shift_up(ind, p).insert(p, index as usize);
    let val2 = val.insert(p, x);
    assert forall|k: int| 0 <= k < ind2.len() implies ind2[k] == (if k < p {
        ind[k] as int
    } else if k == p {
        index
    } else {
        ind[k - 1] + 1
    }) by {}
    assert(strictly_increasing(ind2)) by {
        assert forall|a: int, b: int| 0 <= a < b < ind2.len() implies ind2[a] < ind2[b] by {
            if a > p {
                assert(ind[a - 1] < ind[b - 1]);
            } else if b < p {
                assert(ind[a] < ind[b]);
            }
        }
    }
    assert(all_below(ind2, len + 1));
    lemma_rank_of_entry(ind2, p);
    let target = dense(len, ind, val, d).insert(index, x);
    assert forall|j: int| 0 <= j < len + 1 implies lookup(ind2, val2, d, j) == target[j] by {
        lemma_lookup(ind2, val2, d, j);
        if j == index {
            assert(ind2[p] == j);
        } else {
            let j0 = if j < index {
                j
            } else {
                j - 1
            };
            lemma_lookup(ind, val, d, j0);
            if stored(ind, j0) {
                let k0 = rank(ind, j0);
                let k2 = if j < index {
                    k0
                } else {
                    k0 + 1
                };
                assert(ind2[k2] == j);
                assert(val2[k2] == val[k0]);
            } else {
                assert forall|k: int| 0 <= k < ind2.len() implies ind2[k] != j by {
                    if ind2[k] == j {
                        let k0 = if k < p {
                            k
                        } else {
                            k - 1
                        };
                        assert(ind[k0] == j0);
                        lemma_rank_of_entry(ind, k0);
                    }
                }
            }
        }
    }
    assert(dense(len + 1, ind2, val2, d) =~= target);
}

/// Opening a logical slot at `index` and storing nothing in it inserts the
/// default into the dense sequence.
pub proof fn lemma_insert_absent<T>(len: nat, ind: Seq<usize>, val: Seq<T>, d: T, index: int)
    requires
        valid_parts(len, ind, val),
        0 <= index <= len,
        len < usize::MAX,
    ensures
        valid_parts(len + 1, shift_up(ind, rank(ind, index)), val),
        dense(len + 1, shift_up(ind, rank(ind, index)), val, d) == dense(len, ind, val, d).insert(
            index,
            d,
        ),
        !stored(shift_up(ind, rank(ind, index)), index),
{
    let p = rank(ind, index);
    lemma_rank_splits(ind, index);
    let ind2 = shift_up(ind, p);
    lemma_stored_iff_present(ind2, index);
    assert(strictly_increasing(ind2)) by {
        assert forall|a: int, b: int| 0 <= a < b < ind2.len() implies ind2[a] < ind2[b] by {
            assert(ind[a] < ind[b]);
        }
    }
    assert(all_below(ind2, len + 1));
    let target = dense(len, ind, val, d).insert(index, d);
    assert forall|j: int| 0 <= j < len + 1 implies lookup(ind2, val, d, j) == target[j] by {
        lemma_lookup(ind2, val, d, j);
        if j == index {
            assert forall|k: int| 0 <= k < ind2.len() implies ind2[k] != j by {}
        } else {
            let j0 = if j < index {
                j
            } else {
                j - 1
            };
            lemma_lookup(ind, val, d, j0);
            if stored(ind, j0) {
                assert(ind2[rank(ind, j0)] == j);
            } else {
                assert forall|k: int| 0 <= k < ind2.len() implies ind2[k] != j by {
                    if ind2[k] == j {
                        assert(ind[k] == j0);
                        lemma_rank_of_entry(ind, k);
                    }
                }
            }
        }
    }
    assert(dense(len + 1, ind2, val, d) =~= target);
}

/// Closing the logical slot at `index`, where it is stored, removes its value
/// from the dense sequence.
pub proof fn lemma_remove_stored<T>(len: nat, ind: Seq<usize>, val: Seq<T>, d: T, index: int)
    requires
        valid_parts(len, ind, val),
        0 <= index < len,
        stored(ind, index),
    ensures
        valid_parts(
            (len - 1) as nat,
            shift_down(ind.remove(rank(ind, index)), rank(ind, index)),
            val.remove(rank(ind, index)),
        ),
        dense(
            (len - 1) as nat,
            shift_down(ind.remove(rank(ind, index)), rank(ind, index)),
            val.remove(rank(ind, index)),
            d,
        ) == dense(len, ind, val, d).remove(index),
        dense(len, ind, val, d)[index] == val[rank(ind, index)],
{
    let p = rank(ind, index);
    lemma_rank_splits(ind, index);
    let ind2 = shift_down(ind.remove(p), p);
    let val2 = val.remove(p);
    assert forall|k: int| 0 <= k < ind2.len() implies ind2[k] == (if k < p {
        ind[k] as int
    } else {
        ind[k + 1] - 1
    }) && (k >= p ==> ind[k + 1] > index) by {
        if k >= p {
            assert(ind[p] < ind[k + 1]);
        }
    }
    assert(strictly_increasing(ind2)) by {
        assert forall|a: int, b: int| 0 <= a < b < ind2.len() implies ind2[a] < ind2[b] by {
            if a >= p {
                assert(ind[a + 1] < ind[b + 1]);
            } else if b < p {
                assert(ind[a] < ind[b]);
            } else {
                assert(ind[a] < ind[p]);
            }
        }
    }
    assert(all_below(ind2, (len - 1) as nat));
    let target = dense(len, ind, val, d).remove(index);
    assert forall|j: int| 0 <= j < len - 1 implies lookup(ind2, val2, d, j) == target[j] by {
        lemma_lookup(ind2, val2, d, j);
        let j0 = if j < index {
            j
        } else {
            j + 1
        };
        lemma_lookup(ind, val, d, j0);
        if stored(ind, j0) {
            let k0 = rank(ind, j0);
            let k2 = if j < index {
                k0
            } else {
                k0 - 1
            };
            if j >= index && k0 <= p {
                assert(ind[k0] <= ind[p]);
            }
            assert(ind2[k2] == j);
            assert(val2[k2] == val[k0]);
        } else {
            assert forall|k: int| 0 <= k < ind2.len() implies ind2[k] != j by {
                if ind2[k] == j {
                    let k0 = if k < p {
                        k
                    } else {
                        k + 1
                    };
                    assert(ind[k0] == j0);
                    lemma_rank_of_entry(ind, k0);
                }
            }
        }
    }
    assert(dense((len - 1) as nat, ind2, val2, d) =~= target);
}

/// Closing the logical slot at `index`, where nothing is stored for it,
/// removes a default from the dense sequence.
pub proof fn lemma_remove_absent<T>(len: nat, ind: Seq<usize>, val: Seq<T>, d: T, index: int)
    requires
        valid_parts(len, ind, val),
        0 <= index < len,
        !stored(ind, index),
    ensures
        valid_parts((len - 1) as nat, shift_down(ind, rank(ind, index)), val),
        dense((len - 1) as nat, shift_down(ind, rank(ind, index)), val, d) == dense(
            len,
            ind,
            val,
            d,
        ).remove(index),
        dense(len, ind, val, d)[index] == d,
{
    let p = rank(ind, index);
    lemma_rank_splits(ind, index);
    let ind2 = shift_down(ind, p);
    assert forall|k: int| p <= k < ind.len() implies ind[k] > index by {
        if ind[k] == index {
            lemma_rank_of_entry(ind, k);
        }
    }
    assert(strictly_increasing(ind2)) by {
        assert forall|a: int, b: int| 0 <= a < b < ind2.len() implies ind2[a] < ind2[b] by {
            assert(ind[a] < ind[b]);
        }
    }
    assert(all_below(ind2, (len - 1) as nat));
    let target = dense(len, ind, val, d).remove(index);
    assert forall|j: int| 0 <= j < len - 1 implies lookup(ind2, val, d, j) == target[j] by {
        lemma_lookup(ind2, val, d, j);
        let j0 = if j < index {
            j
        } else {
            j + 1
        };
        lemma_lookup(ind, val, d, j0);
        if stored(ind, j0) {
            assert(ind2[rank(ind, j0)] == j);
        } else {
            assert forall|k: int| 0 <= k < ind2.len() implies ind2[k] != j by {
                if ind2[k] == j {
                    assert(ind[k] == j0);
                    lemma_rank_of_entry(ind, k);
                }
            }
        }
    }
    assert(dense((len - 1) as nat, ind2, val, d) =~= target);
}

/// Giving a position that has no entry an entry of its own sets that position
/// of the dense sequence and no other.
pub proof fn lemma_materialize<T>(
    len: nat,
    ind: Seq<usize>,
    val: Seq<T>,
    d: T,
    index: int,
    x: T,
)
    requires
        valid_parts(len, ind, val),
        0 <= index < len <= usize::MAX,
        !stored(ind, index),
    ensures
        valid_parts(
            len,
            ind.insert(rank(ind, index), index as usize),
            val.insert(rank(ind, index), x),
        ),
        dense(
            len,
            ind.insert(rank(ind, index), index as usize),
            val.insert(rank(ind, index), x),
            d,
        ) == dense(len, ind, val, d).update(index, x),
        rank(ind.insert(rank(ind, index), index as usize), index) == rank(ind, index),
        stored(ind.insert(rank(ind, index), index as usize), index),
{
    let p = rank(ind, index);
    lemma_rank_splits(ind, index);
    let ind2 = ind.insert(p, index as usize);
    let val2 = val.insert(p, x);
    assert forall|k: int| p <= k < ind.len() implies ind[k] > index by {
        if ind[k] == index {
            lemma_rank_of_entry(ind, k);
        }
    }
    assert(strictly_increasing(ind2)) by {
        assert forall|a: int, b: int| 0 <= a < b < ind2.len() implies ind2[a] < ind2[b] by {
            if a > p {
                assert(ind[a - 1] < ind[b - 1]);
            } else if b < p {
                assert(ind[a] < ind[b]);
            }
        }
    }
    assert(all_below(ind2, len));
    lemma_rank_of_entry(ind2, p);
    let target = dense(len, ind, val, d).update(index, x);
    assert forall|j: int| 0 <= j < len implies lookup(ind2, val2, d, j) == target[j] by {
        lemma_lookup(ind2, val2, d, j);
        if j == index {
            assert(ind2[p] == j);
        } else {
            lemma_lookup(ind, val, d, j);
            if stored(ind, j) {
                let k0 = rank(ind, j);
                let k2 = if k0 < p {
                    k0
                } else {
                    k0 + 1
                };
                assert(ind2[k2] == j);
                assert(val2[k2] == val[k0]);
            } else {
                assert forall|k: int| 0 <= k < ind2.len() implies ind2[k] != j by {
                    if ind2[k] == j {
                        let k0 = if k < p {
                            k
                        } else {
                            k - 1
                        };
                        assert(ind[k0] == j);
                        lemma_rank_of_entry(ind, k0);
                    }
                }
            }
        }
    }
    assert(dense(len, ind2, val2, d) =~= target);
}

/// Overwriting the value of a stored entry sets that position of the dense
/// sequence and no other.
pub proof fn lemma_overwrite<T>(len: nat, ind: Seq<usize>, val: Seq<T>, d: T, index: int, x: T)
    requires
        valid_parts(len, ind, val),
        0 <= index < len,
        stored(ind, index),
    ensures
        dense(len, ind, val.update(rank(ind, index), x), d) == dense(len, ind, val, d).update(
            index,
            x,
        ),
{
    let p = rank(ind, index);
    let val2 = val.update(p, x);
    let target = dense(len, ind, val, d).update(index, x);
    assert forall|j: int| 0 <= j < len implies lookup(ind, val2, d, j) == target[j] by {
        if j != index && stored(ind, j) {
            lemma_rank_of_entry(ind, rank(ind, j));
        }
    }
    assert(dense(len, ind, val2, d) =~= target);
}

/// Storing the entries of a second vector behind those of a first, each index
/// moved up by the first one's length, concatenates the dense sequences.
pub proof fn lemma_append<T>(
    len1: nat,
    ind1: Seq<usize>,
    val1: Seq<T>,
    len2: nat,
    ind2: Seq<usize>,
    val2: Seq<T>,
    d: T,
)
    requires
        valid_parts(len1, ind1, val1),
        valid_parts(len2, ind2, val2),
        len1 + len2 <= usize::MAX,
    ensures
        valid_parts(len1 + len2, ind1 + moved_up(ind2, len1), val1 + val2),
        dense(len1 + len2, ind1 + moved_up(ind2, len1), val1 + val2, d) == dense(len1, ind1, val1, d)
            + dense(len2, ind2, val2, d),
{
    let ind3 = ind1 + moved_up(ind2, len1);
    let val3 = val1 + val2;
    let n1 = ind1.len() as int;
    assert forall|k: int| 0 <= k < ind3.len() implies ind3[k] == (if k < n1 {
        ind1[k] as int
    } else {
        ind2[k - n1] + len1
    }) by {}
    assert(strictly_increasing(ind3)) by {
        assert forall|a: int, b: int| 0 <= a < b < ind3.len() implies ind3[a] < ind3[b] by {
            if b < n1 {
                assert(ind1[a] < ind1[b]);
            } else if a >= n1 {
                assert(ind2[a - n1] < ind2[b - n1]);
            }
        }
    }
    assert(all_below(ind3, len1 + len2));
    let target = dense(len1, ind1, val1, d) + dense(len2, ind2, val2, d);
    assert forall|j: int| 0 <= j < len1 + len2 implies lookup(ind3, val3, d, j) == target[j] by {
        lemma_lookup(ind3, val3, d, j);
        if j < len1 {
            lemma_lookup(ind1, val1, d, j);
            if stored(ind1, j) {
                assert(ind3[rank(ind1, j)] == j);
            } else {
                assert forall|k: int| 0 <= k < ind3.len() implies ind3[k] != j by {
                    if ind3[k] == j {
                        lemma_rank_of_entry(ind1, k);
                    }
                }
            }
        } else {
            let j0 = j - len1;
            lemma_lookup(ind2, val2, d, j0);
            if stored(ind2, j0) {
                let k0 = rank(ind2, j0);
                assert(ind3[n1 + k0] == j);
                assert(val3[n1 + k0] == val2[k0]);
            } else {
                assert forall|k: int| 0 <= k < ind3.len() implies ind3[k] != j by {
                    if ind3[k] == j {
                        assert(ind2[k - n1] == j0);
                        lemma_rank_of_entry(ind2, k - n1);
                    }
                }
            }
        }
    }
    assert(dense(len1 + len2, ind3, val3, d) =~= target);
}

/// The dense sequence that pushing `items` behind position `base` adds, for a
/// vector whose stored indices are `ind` afterwards: the item where its
/// position got an entry, the default where it did not.
pub open spec fn pushed_tail<T>(ind: Seq<usize>, base: nat, items: Seq<T>, d: T) -> Seq<T> {
    Seq::new(
        items.len(),
        |i: int|
            if stored(ind, base + i) {
                items[i]
            } else {
                d
            },
    )
}

/// A new entry at the end does not change which earlier positions are stored.
pub proof fn lemma_push_keeps_stored(len: nat, ind: Seq<usize>)
    requires
        strictly_increasing(ind),
        all_below(ind, len),
        len < usize::MAX,
    ensures
        forall|i: int| 0 <= i < len ==> stored(ind.push(len as usize), i) == stored(ind, i),
{
    let ind2 = ind.push(len as usize);
    assert(strictly_increasing(ind2));
    assert forall|i: int| 0 <= i < len implies stored(ind2, i) == stored(ind, i) by {
        lemma_stored_iff_present(ind, i);
        lemma_stored_iff_present(ind2, i);
        if stored(ind, i) {
            assert(ind2[rank(ind, i)] == i);
        }
        if stored(ind2, i) {
            assert(ind[rank(ind2, i)] == i);
        }
    }
}

/// `items` is `src` cloned element by element.
pub open spec fn clones_of<T: Clone>(src: Seq<T>, items: Seq<T>) -> bool {
    &&& items.len() == src.len()
    &&& forall|i: int| 0 <= i < src.len() ==> cloned(src[i], #[trigger] items[i])
}

/// Taking the entry at physical position `p` away elides its logical
/// position and leaves every other position as it was.
pub proof fn lemma_drop_entry<T>(len: nat, ind: Seq<usize>, val: Seq<T>, d: T, p: int)
    requires
        valid_parts(len, ind, val),
        0 <= p < ind.len(),
    ensures
        valid_parts(len, ind.remove(p), val.remove(p)),
        forall|i: int| stored(ind.remove(p), i) <==> stored(ind, i) && i != ind[p],
        forall|i: int|
            stored(ind.remove(p), i) ==> lookup(ind.remove(p), val.remove(p), d, i) == lookup(
                ind,
                val,
                d,
                i,
            ),
{
    let ind2 = ind.remove(p);
    let val2 = val.remove(p);
    assert forall|k: int| 0 <= k < ind2.len() implies ind2[k] == (if k < p {
        ind[k]
    } else {
        ind[k + 1]
    }) by {}
    assert(strictly_increasing(ind2)) by {
        assert forall|a: int, b: int| 0 <= a < b < ind2.len() implies ind2[a] < ind2[b] by {
            let a0 = if a < p {
                a
            } else {
                a + 1
            };
            let b0 = if b < p {
                b
            } else {
                b + 1
            };
            assert(ind[a0] < ind[b0]);
        }
    }
    assert(all_below(ind2, len));
    assert forall|i: int| (stored(ind2, i) <==> stored(ind, i) && i != ind[p]) && (stored(ind2, i)
        ==> lookup(ind2, val2, d, i) == lookup(ind, val, d, i)) by {
        lemma_stored_iff_present(ind, i);
        lemma_stored_iff_present(ind2, i);
        if stored(ind2, i) {
            let k = rank(ind2, i);
            let k0 = if k < p {
                k
            } else {
                k + 1
            };
            assert(ind[k0] == i);
            lemma_rank_of_entry(ind, k0);
            if k0 < p {
                assert(ind[k0] < ind[p]);
            } else {
                assert(ind[p] < ind[k0]);
            }
            assert(val2[k] == val[k0]);
        }
        if stored(ind, i) && i != ind[p] {
            let k0 = rank(ind, i);
            let k = if k0 < p {
                k0
            } else {
                k0 - 1
            };
            assert(ind2[k] == i);
        }
    }
}

/// What a position holds after `x` was offered to it: the default where `x`
/// equals the default, else `x`.
pub open spec fn kept<T: PartialEq>(x: T, d: T) -> T {
    if x.eq_spec(&d) {
        d
    } else {
        x
    }
}

/// The dense sequence that inserting the pairs, first to last, into an empty
/// vector gives: each pair is a logical position and the element to insert
/// there.
pub open spec fn inserted_all<T: PartialEq>(pairs: Seq<(usize, T)>, d: T) -> Seq<T>
    decreases pairs.len(),
{
    if pairs.len() == 0 {
        Seq::empty()
    } else {
        inserted_all(pairs.drop_last(), d).insert(pairs.last().0 as int, kept(pairs.last().1, d))
    }
}

} // verus!
