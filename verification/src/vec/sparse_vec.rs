//! A sparse vector that elides the default value of its element type, with
//! its two arrays open to the caller.
//!
//! `ZeroSparseVec` keeps the same two sorted arrays as `DefaultSparseVec`, but
//! hands out its parts: it can be built from them, and its length, indices and
//! values can be borrowed mutably. Whether such a vector is well-formed is
//! therefore the caller's matter, and `wf` says when it is.

use vstd::prelude::*;
use vstd::std_specs::cmp::PartialEqSpec;
use crate::vec::index_array::locate;
use crate::vec::model::{
    clones_of, dense, lemma_count_at_most_len, lemma_drop_entry, lemma_materialize,
    lemma_overwrite, lemma_pop_absent, lemma_pop_stored, lemma_push_absent,
    lemma_push_keeps_stored, lemma_push_stored, lemma_rank_of_entry, lemma_rank_splits,
    lemma_stored_iff_present, lookup, pushed_tail, rank, stored, valid_parts,
};

verus! {

/// A sequence that keeps only the elements that differ from `T::default()`.
#[derive(Debug, Clone, PartialEq, Eq, Hash)]
pub struct ZeroSparseVec<T: Default + PartialEq + Clone> {
    len: usize,
    indices: Vec<usize>,
    values: Vec<T>,
    default_value: T,
}

impl<T: Default + PartialEq + Clone> View for ZeroSparseVec<T> {
    type V = Seq<T>;

    /// The dense sequence: every logical position with its value, the elided
    /// ones with the default.
    open spec fn view(&self) -> Seq<T> {
        dense(
            self.spec_len() as nat,
            self.spec_indices(),
            self.spec_values(),
            self.spec_default(),
        )
    }
}

impl<T: Default + PartialEq + Clone> ZeroSparseVec<T> {
    /// The logical indices of the stored entries, in physical order.
    pub closed spec fn spec_indices(&self) -> Seq<usize> {
        self.indices@
    }

    /// The values of the stored entries, in physical order.
    pub closed spec fn spec_values(&self) -> Seq<T> {
        self.values@
    }

    /// The logical length.
    pub closed spec fn spec_len(&self) -> usize {
        self.len
    }

    /// The elided value.
    pub closed spec fn spec_default(&self) -> T {
        self.default_value
    }

    /// The number of stored values.
    pub open spec fn spec_nnz(&self) -> usize {
        self.spec_values().len() as usize
    }

    pub open spec fn spec_is_empty(&self) -> bool {
        self.spec_len() == 0
    }

    /// The structural invariant: one value per stored index, the indices
    /// strictly increasing and inside the logical length, and so no more
    /// entries than positions.
    pub open spec fn wf(&self) -> bool {
        &&& valid_parts(self.spec_len() as nat, self.spec_indices(), self.spec_values())
        &&& self.spec_indices().len() <= self.spec_len()
    }

    /// The sparsity invariant: no stored value equals the default.
    pub open spec fn is_compact(&self) -> bool {
        forall|k: int|
            0 <= k < self.spec_values().len() ==> !(#[trigger] self.spec_values()[k]).eq_spec(
                &self.spec_default(),
            )
    }

    /// Logical position `i` has a stored entry.
    pub open spec fn stores(&self, i: int) -> bool {
        stored(self.spec_indices(), i)
    }

    /// The physical position at which logical position `i` is stored, or
    /// would be.
    pub open spec fn slot(&self, i: int) -> int {
        rank(self.spec_indices(), i)
    }

    /// What handing out a mutable reference to position `index` does to a
    /// vector: `self` is the vector before, `after` the vector once the
    /// reference is given back, `shown` the value the reference showed at
    /// first and `left` the value it held at last.
    ///
    /// A stored position shows its value; an elided one gets an entry of its
    /// own that shows a clone of the default. Afterwards the position is
    /// stored and holds `left`, and nothing else has changed.
    pub open spec fn opened_at(&self, after: &Self, index: usize, shown: T, left: T) -> bool {
        &&& self.stores(index as int) ==> shown == self@[index as int]
        &&& !self.stores(index as int) ==> cloned(self.spec_default(), shown)
        &&& after.wf()
        &&& after.len() == self.len()
        &&& after.spec_default() == self.spec_default()
        &&& after.stores(index as int)
        &&& after.nnz() == if self.stores(index as int) {
            self.nnz() as int
        } else {
            self.nnz() + 1
        }
        &&& after.spec_indices() == if self.stores(index as int) {
            self.spec_indices()
        } else {
            self.spec_indices().insert(self.slot(index as int), index)
        }
        &&& after.spec_values() == if self.stores(index as int) {
            self.spec_values().update(self.slot(index as int), left)
        } else {
            self.spec_values().insert(self.slot(index as int), left)
        }
        &&& after@ == self@.update(index as int, left)
    }

    /// What pushing `items`, first to last, does to a vector: `self` is the
    /// vector before and `after` the vector afterwards.
    ///
    /// Each item takes the next logical position. Whether that position gets
    /// a stored entry is decided by comparing the item with the default; a
    /// stored position holds the item, an elided one the default. The
    /// positions that were there before stay as they were.
    pub open spec fn pushed_all(&self, after: &Self, items: Seq<T>) -> bool {
        &&& after.wf()
        &&& after.len() == self.len() + items.len()
        &&& after.spec_default() == self.spec_default()
        &&& forall|i: int| 0 <= i < self.len() ==> after.stores(i) == self.stores(i)
        &&& T::obeys_eq_spec() ==> forall|i: int|
            0 <= i < items.len() ==> (after.stores(self.len() + i) <==> !items[i].eq_spec(
                &self.spec_default(),
            ))
        &&& after@ == self@ + pushed_tail(
            after.spec_indices(),
            self.len() as nat,
            items,
            self.spec_default(),
        )
        &&& T::obeys_eq_spec() && self.is_compact() ==> after.is_compact()
    }

    /// The vector is the sparse form of the dense sequence `items`: as long
    /// as `items`, with a stored entry exactly where the item differs from
    /// the default, holding the item.
    pub open spec fn is_sparse_of(&self, items: Seq<T>) -> bool {
        &&& self.wf()
        &&& self.len() == items.len()
        &&& T::obeys_eq_spec() ==> forall|i: int|
            0 <= i < items.len() ==> (self.stores(i) <==> !items[i].eq_spec(&self.spec_default()))
        &&& self@ == pushed_tail(self.spec_indices(), 0, items, self.spec_default())
        &&& T::obeys_eq_spec() ==> self.is_compact()
    }

    /// A vector of logical length `len` made of the given parts, taken as
    /// they are. It is well-formed exactly if the parts are valid.
    pub fn new(len: usize, indices: Vec<usize>, values: Vec<T>) -> (r: Self)
        ensures
            r.len() == len,
            r.spec_indices() == indices@,
            r.spec_values() == values@,
            call_ensures(T::default, (), r.spec_default()),
            r.wf() <==> valid_parts(len as nat, indices@, values@),
    {
        proof {
            if valid_parts(len as nat, indices@, values@) {
                lemma_count_at_most_len(indices@, len as nat);
            }
        }
        ZeroSparseVec { len, indices, values, default_value: T::default() }
    }

    /// An empty vector whose arrays have room for `sparse_capacity` entries.
    pub fn with_capacity(sparse_capacity: usize) -> (r: Self)
        ensures
            r.wf(),
            r.is_compact(),
            r.len() == 0,
            r.nnz() == 0,
            r@ == Seq::<T>::empty(),
            call_ensures(T::default, (), r.spec_default()),
    {
        let r = ZeroSparseVec {
            len: 0,
            indices: Vec::with_capacity(sparse_capacity),
            values: Vec::with_capacity(sparse_capacity),
            default_value: T::default(),
        };
        assert(r@ =~= Seq::<T>::empty());
        r
    }

    /// Removes every element.
    pub fn clear(&mut self)
        ensures
            final(self).wf(),
            final(self).is_compact(),
            final(self).len() == 0,
            final(self).nnz() == 0,
            final(self)@ == Seq::<T>::empty(),
            final(self).spec_default() == old(self).spec_default(),
    {
        self.indices.clear();
        self.values.clear();
        self.len = 0;
        assert(self@ =~= Seq::<T>::empty());
    }

    #[verifier::when_used_as_spec(spec_len)]
    pub fn len(&self) -> (r: usize)
        ensures
            r == self.spec_len(),
    {
        self.len
    }

    #[verifier::when_used_as_spec(spec_is_empty)]
    pub fn is_empty(&self) -> (r: bool)
        ensures
            r == (self.spec_len() == 0),
    {
        self.len == 0
    }

    /// The number of stored entries. Where the arrays differ in length this
    /// is the number of values.
    #[verifier::when_used_as_spec(spec_nnz)]
    pub fn nnz(&self) -> (r: usize)
        ensures
            r == self.spec_values().len(),
    {
        self.values.len()
    }

    /// The elided value.
    pub fn default_value(&self) -> (r: &T)
        ensures
            *r == self.spec_default(),
    {
        &self.default_value
    }

    /// The logical length, open to change. The vector is well-formed
    /// afterwards only if every stored index is below the new length.
    pub fn sparse_len_mut(&mut self) -> (r: &mut usize)
        ensures
            *r == old(self).len(),
            final(self).len() == *final(r),
            final(self).spec_indices() == old(self).spec_indices(),
            final(self).spec_values() == old(self).spec_values(),
            final(self).spec_default() == old(self).spec_default(),
    {
        &mut self.len
    }

    /// The logical indices of the stored entries, in physical order.
    pub fn sparse_indices(&self) -> (r: &[usize])
        ensures
            r@ == self.spec_indices(),
    {
        self.indices.as_slice()
    }

    /// The logical indices of the stored entries, open to change. The vector
    /// is well-formed afterwards only if the caller leaves them sorted,
    /// without repetition and inside the logical length.
    pub fn sparse_indices_mut(&mut self) -> (r: &mut [usize])
        ensures
            r@ == old(self).spec_indices(),
            final(self).spec_indices() == final(r)@,
            final(self).spec_values() == old(self).spec_values(),
            final(self).len() == old(self).len(),
            final(self).spec_default() == old(self).spec_default(),
    {
        self.indices.as_mut_slice()
    }

    /// The values of the stored entries, in physical order.
    pub fn sparse_values(&self) -> (r: &[T])
        ensures
            r@ == self.spec_values(),
    {
        self.values.as_slice()
    }

    /// The values of the stored entries, open to change. Nothing keeps the
    /// caller from writing the default into one of them.
    pub fn sparse_values_mut(&mut self) -> (r: &mut [T])
        ensures
            r@ == old(self).spec_values(),
            final(self).spec_values() == final(r)@,
            final(self).spec_indices() == old(self).spec_indices(),
            final(self).len() == old(self).len(),
            final(self).spec_default() == old(self).spec_default(),
    {
        self.values.as_mut_slice()
    }

    /// The element at logical position `index`, or `None` where `index` is
    /// not a position of the vector. An elided position gives the default.
    pub fn get(&self, index: &usize) -> (r: Option<&T>)
        requires
            self.wf(),
        ensures
            r == if *index < self.len() {
                Some(&self@[*index as int])
            } else {
                None
            },
    {
        if *index < self.len {
            match locate(&self.indices, *index) {
                Ok(pos) => Some(&self.values[pos]),
                Err(_) => Some(&self.default_value),
            }
        } else {
            None
        }
    }

    /// A mutable reference to the element at logical position `index`, or
    /// `None` where `index` is not a position of the vector.
    ///
    /// An elided position first gets a stored entry of its own, holding a
    /// clone of the default; unless the caller writes a non-default value the
    /// vector is no longer compact.
    pub fn get_mut(&mut self, index: &usize) -> (r: Option<&mut T>)
        requires
            old(self).wf(),
        ensures
            *index >= old(self).len() ==> r is None && *final(self) == *old(self),
            *index < old(self).len() ==> match r {
                Some(elem) => old(self).opened_at(final(self), *index, *elem, *final(elem)),
                None => false,
            },
    {
        if *index >= self.len {
            return None;
        }
        match locate(&self.indices, *index) {
            Ok(pos) => {
                let val = &mut self.values[pos];
                proof {
                    lemma_overwrite(
                        old(self).len as nat,
                        old(self).indices@,
                        old(self).values@,
                        old(self).default_value,
                        *index as int,
                        *final(val),
                    );
                }
                Some(val)
            },
            Err(pos) => {
                let fresh = self.default_value.clone();
                proof {
                    lemma_materialize(
                        self.len as nat,
                        self.indices@,
                        self.values@,
                        self.default_value,
                        *index as int,
                        fresh,
                    );
                }
                proof {
                    lemma_count_at_most_len(
                        self.indices@.insert(pos as int, *index),
                        self.len as nat,
                    );
                }
                self.indices.insert(pos, *index);
                self.values.insert(pos, fresh);
                let ghost mid_values = self.values@;
                let val = &mut self.values[pos];
                proof {
                    lemma_overwrite(
                        self.len as nat,
                        self.indices@,
                        mid_values,
                        self.default_value,
                        *index as int,
                        *final(val),
                    );
                    assert(mid_values.update(pos as int, *final(val)) =~= old(self).values@.insert(
                        pos as int,
                        *final(val),
                    ));
                    assert(old(self)@.update(*index as int, fresh).update(*index as int, *final(val))
                        =~= old(self)@.update(*index as int, *final(val)));
                }
                Some(val)
            },
        }
    }

    /// The same as `get`.
    pub fn index(&self, index: &usize) -> (r: Option<&T>)
        requires
            self.wf(),
        ensures
            r == if *index < self.len() {
                Some(&self@[*index as int])
            } else {
                None
            },
    {
        self.get(index)
    }

    /// Appends `value` as the new last element. It is stored only if it
    /// differs from the default.
    pub fn push(&mut self, value: T)
        requires
            old(self).wf(),
            old(self).len() < usize::MAX,
        ensures
            final(self).wf(),
            final(self).len() == old(self).len() + 1,
            final(self).spec_default() == old(self).spec_default(),
            T::obeys_eq_spec() ==> (final(self).stores(old(self).len() as int) <==> !value.eq_spec(
                &old(self).spec_default(),
            )),
            final(self).nnz() == if final(self).stores(old(self).len() as int) {
                old(self).nnz() + 1
            } else {
                old(self).nnz() as int
            },
            final(self).spec_indices() == if final(self).stores(old(self).len() as int) {
                old(self).spec_indices().push(old(self).len())
            } else {
                old(self).spec_indices()
            },
            final(self).spec_values() == if final(self).stores(old(self).len() as int) {
                old(self).spec_values().push(value)
            } else {
                old(self).spec_values()
            },
            final(self)@ == old(self)@.push(
                if final(self).stores(old(self).len() as int) {
                    value
                } else {
                    old(self).spec_default()
                },
            ),
            T::obeys_eq_spec() && old(self).is_compact() ==> final(self).is_compact(),
    {
        if value != self.default_value {
            proof {
                lemma_push_stored(
                    self.len as nat,
                    self.indices@,
                    self.values@,
                    self.default_value,
                    value,
                );
            }
            self.indices.push(self.len);
            self.values.push(value);
        } else {
            proof {
                lemma_push_absent(self.len as nat, self.indices@, self.values@, self.default_value);
            }
        }
        self.len += 1;
    }

    /// Removes the last element and returns it, or `None` from an empty
    /// vector. Where the last position was elided the result is a clone of
    /// the default.
    pub fn pop(&mut self) -> (r: Option<T>)
        requires
            old(self).wf(),
        ensures
            final(self).wf(),
            final(self).spec_default() == old(self).spec_default(),
            old(self).len() == 0 ==> r is None && *final(self) == *old(self),
            old(self).len() > 0 ==> r is Some && final(self).len() == old(self).len() - 1
                && final(self)@ == old(self)@.drop_last(),
            final(self).nnz() == if old(self).len() > 0 && old(self).stores(old(self).len() - 1) {
                old(self).nnz() - 1
            } else {
                old(self).nnz() as int
            },
            old(self).len() > 0 && old(self).stores(old(self).len() - 1) ==> r == Some(
                old(self)@.last(),
            ) && final(self).spec_indices() == old(self).spec_indices().drop_last()
                && final(self).spec_values() == old(self).spec_values().drop_last(),
            old(self).len() > 0 && !old(self).stores(old(self).len() - 1) ==> cloned(
                old(self).spec_default(),
                r.unwrap(),
            ) && final(self).spec_indices() == old(self).spec_indices() && final(self).spec_values()
                == old(self).spec_values(),
            old(self).is_compact() ==> final(self).is_compact(),
    {
        if self.len == 0 {
            return None;
        }
        let held = self.indices.len();
        let popped = if held > 0 && self.indices[held - 1] == self.len - 1 {
            proof {
                lemma_pop_stored(self.len as nat, self.indices@, self.values@, self.default_value);
            }
            self.indices.pop();
            self.values.pop()
        } else {
            proof {
                lemma_pop_absent(self.len as nat, self.indices@, self.values@, self.default_value);
            }
            Some(self.default_value.clone())
        };
        self.len -= 1;
        proof {
            lemma_count_at_most_len(self.indices@, self.len as nat);
        }
        popped
    }

    /// The first element, or `None` from an empty vector.
    pub fn first(&self) -> (r: Option<&T>)
        requires
            self.wf(),
        ensures
            r == if self.len() > 0 {
                Some(&self@[0])
            } else {
                None
            },
    {
        self.get(&0)
    }

    /// The last element, or `None` from an empty vector.
    pub fn last(&self) -> (r: Option<&T>)
        requires
            self.wf(),
        ensures
            r == if self.len() > 0 {
                Some(&self@[self.len() - 1])
            } else {
                None
            },
    {
        if self.len == 0 {
            return None;
        }
        let at = self.len - 1;
        self.get(&at)
    }

    /// The same as `get_mut`.
    pub fn index_mut(&mut self, index: &usize) -> (r: Option<&mut T>)
        requires
            old(self).wf(),
        ensures
            *index >= old(self).len() ==> r is None && *final(self) == *old(self),
            *index < old(self).len() ==> match r {
                Some(elem) => old(self).opened_at(final(self), *index, *elem, *final(elem)),
                None => false,
            },
    {
        self.get_mut(index)
    }

    /// A mutable reference to the first element, or `None` from an empty
    /// vector: `get_mut` at position 0.
    pub fn first_mut(&mut self) -> (r: Option<&mut T>)
        requires
            old(self).wf(),
        ensures
            old(self).len() == 0 ==> r is None && *final(self) == *old(self),
            old(self).len() > 0 ==> match r {
                Some(elem) => old(self).opened_at(final(self), 0, *elem, *final(elem)),
                None => false,
            },
    {
        self.get_mut(&0)
    }

    /// A mutable reference to the last element, or `None` from an empty
    /// vector: `get_mut` at the last position.
    pub fn last_mut(&mut self) -> (r: Option<&mut T>)
        requires
            old(self).wf(),
        ensures
            old(self).len() == 0 ==> r is None && *final(self) == *old(self),
            old(self).len() > 0 ==> match r {
                Some(elem) => old(self).opened_at(
                    final(self),
                    (old(self).len() - 1) as usize,
                    *elem,
                    *final(elem),
                ),
                None => false,
            },
    {
        if self.len == 0 {
            return None;
        }
        let at = self.len - 1;
        self.get_mut(&at)
    }

    /// The dense sequence as references: every position in order, the elided
    /// ones pointing at the default.
    pub fn iter(&self) -> (r: Vec<&T>)
        requires
            self.wf(),
        ensures
            r@.len() == self.len(),
            forall|i: int| 0 <= i < r@.len() ==> *(#[trigger] r@[i]) == self@[i],
    {
        let mut all: Vec<&T> = Vec::new();
        let mut i: usize = 0;
        while i < self.len
            invariant
                self.wf(),
                i <= self.len(),
                all@.len() == i,
                forall|k: int| 0 <= k < i ==> *(#[trigger] all@[k]) == self@[k],
            decreases self.len() - i,
        {
            match self.get(&i) {
                Some(elem) => {
                    all.push(elem);
                },
                None => {},
            }
            i += 1;
        }
        all
    }

    /// The stored entries, each as its logical index and its value, in
    /// physical order. Elided positions do not appear.
    pub fn sparse_iter(&self) -> (r: Vec<(&usize, &T)>)
        requires
            self.spec_indices().len() == self.spec_values().len(),
        ensures
            r@.len() == self.nnz(),
            forall|k: int|
                0 <= k < r@.len() ==> *(#[trigger] r@[k]).0 == self.spec_indices()[k] && *r@[k].1
                    == self.spec_values()[k],
    {
        let mut entries: Vec<(&usize, &T)> = Vec::new();
        let held = self.indices.len();
        let mut i: usize = 0;
        while i < held
            invariant
                i <= held == self.indices@.len() == self.values@.len(),
                entries@.len() == i,
                forall|k: int|
                    0 <= k < i ==> *(#[trigger] entries@[k]).0 == self.indices@[k]
                        && *entries@[k].1 == self.values@[k],
            decreases held - i,
        {
            entries.push((&self.indices[i], &self.values[i]));
            i += 1;
        }
        entries
    }

    /// Both arrays of stored entries at once, open to change, to be walked
    /// side by side: the logical indices and, position by position, their
    /// values.
    pub fn sparse_iter_mut(&mut self) -> (r: (&mut [usize], &mut [T]))
        ensures
            r.0@ == old(self).spec_indices(),
            r.1@ == old(self).spec_values(),
            final(self).spec_indices() == final(r.0)@,
            final(self).spec_values() == final(r.1)@,
            final(self).len() == old(self).len(),
            final(self).spec_default() == old(self).spec_default(),
    {
        (self.indices.as_mut_slice(), self.values.as_mut_slice())
    }

    /// Pushes the elements of `items`, first to last.
    fn push_all(&mut self, items: Vec<T>)
        requires
            old(self).wf(),
            old(self).len() + items.len() <= usize::MAX,
        ensures
            old(self).pushed_all(final(self), items@),
    {
        let ghost total = items.len();
        let ghost base = self.len as nat;
        let ghost d = self.default_value;
        assert(self@ =~= old(self)@ + pushed_tail(self.spec_indices(), base, items@.take(0), d));
        for elem in it: items
            invariant
                self.wf(),
                it.seq() == items@,
                total == items@.len(),
                base == old(self).len(),
                base + total <= usize::MAX,
                self.len() == base + it.index(),
                d == old(self).spec_default(),
                self.spec_default() == d,
                forall|i: int| 0 <= i < base ==> self.stores(i) == old(self).stores(i),
                T::obeys_eq_spec() ==> forall|i: int|
                    0 <= i < it.index() ==> (self.stores(base + i) <==> !items@[i].eq_spec(&d)),
                self@ == old(self)@ + pushed_tail(
                    self.spec_indices(),
                    base,
                    items@.take(it.index() as int),
                    d,
                ),
                T::obeys_eq_spec() && old(self).is_compact() ==> self.is_compact(),
        {
            let ghost prev = *self;
            let ghost done = it.index() as int;
            proof {
                lemma_push_keeps_stored(self.len as nat, self.indices@);
            }
            self.push(elem);
            proof {
                let tail0 = pushed_tail(prev.spec_indices(), base, items@.take(done), d);
                let tail1 = pushed_tail(self.spec_indices(), base, items@.take(done + 1), d);
                assert forall|i: int| 0 <= i < done + 1 implies tail1[i] == (if i < done {
                    tail0[i]
                } else if self.stores(base + done) {
                    elem
                } else {
                    d
                }) by {}
                assert(self@ =~= old(self)@ + tail1);
            }
        }
        assert(items@.take(total as int) =~= items@);
    }

    /// Pushes a clone of every element of `other`, first to last.
    pub fn extend(&mut self, other: &Vec<T>)
        requires
            old(self).wf(),
            old(self).len() + other.len() <= usize::MAX,
        ensures
            exists|items: Seq<T>| clones_of(other@, items) && old(self).pushed_all(final(self), items),
    {
        let mut items: Vec<T> = Vec::new();
        let mut i: usize = 0;
        while i < other.len()
            invariant
                i <= other.len(),
                items@.len() == i,
                forall|k: int| 0 <= k < i ==> cloned(other@[k], #[trigger] items@[k]),
            decreases other.len() - i,
        {
            items.push(other[i].clone());
            i += 1;
        }
        assert(clones_of(other@, items@));
        self.push_all(items);
    }

    /// Moves the elements of `other` behind those of `self`, first to last,
    /// and leaves `other` empty.
    pub fn append(&mut self, other: &mut Vec<T>)
        requires
            old(self).wf(),
            old(self).len() + old(other).len() <= usize::MAX,
        ensures
            old(self).pushed_all(final(self), old(other)@),
            final(other)@ == Seq::<T>::empty(),
    {
        let mut items: Vec<T> = Vec::new();
        items.append(other);
        assert(items@ =~= old(other)@);
        self.push_all(items);
    }

    /// Pushes a clone of every element of the dense sequence of `other`,
    /// first to last.
    pub fn sparse_extend(&mut self, other: &Self)
        requires
            old(self).wf(),
            other.wf(),
            old(self).len() + other.len() <= usize::MAX,
        ensures
            exists|items: Seq<T>| clones_of(other@, items) && old(self).pushed_all(final(self), items),
    {
        let items = other.to_vec();
        self.push_all(items);
    }

    /// Pushes a clone of every element of the dense sequence of `other`,
    /// first to last, and leaves `other` empty.
    pub fn sparse_append(&mut self, other: &mut Self)
        requires
            old(self).wf(),
            old(other).wf(),
            old(self).len() + old(other).len() <= usize::MAX,
        ensures
            exists|items: Seq<T>|
                clones_of(old(other)@, items) && old(self).pushed_all(final(self), items),
            final(other).wf(),
            final(other).len() == 0,
            final(other).nnz() == 0,
            final(other).spec_default() == old(other).spec_default(),
    {
        self.sparse_extend(other);
        other.clear();
    }

    /// The dense sequence as a vector of its own: a clone of every element,
    /// the elided ones included.
    pub fn to_vec(&self) -> (r: Vec<T>)
        requires
            self.wf(),
        ensures
            clones_of(self@, r@),
    {
        let mut full_vec: Vec<T> = Vec::new();
        let mut i: usize = 0;
        while i < self.len
            invariant
                self.wf(),
                i <= self.len(),
                full_vec@.len() == i,
                forall|k: int| 0 <= k < i ==> cloned(self@[k], #[trigger] full_vec@[k]),
            decreases self.len() - i,
        {
            match self.get(&i) {
                Some(elem) => {
                    full_vec.push(elem.clone());
                },
                None => {},
            }
            i += 1;
        }
        full_vec
    }

    /// The part of the vector between logical positions `range.start` and
    /// `range.end`, as a vector of its own with the positions counted from
    /// `range.start`. Stored values are cloned; positions past the end of
    /// `self` are elided.
    pub fn subset(&self, range: std::ops::Range<usize>) -> (r: Self)
        requires
            self.wf(),
            range.start <= range.end,
        ensures
            r.wf(),
            r.len() == range.end - range.start,
            call_ensures(T::default, (), r.spec_default()),
            forall|i: int| 0 <= i < r.len() ==> r.stores(i) == self.stores(range.start + i),
            forall|i: int|
                0 <= i < r.len() && r.stores(i) ==> cloned(
                    self@[range.start + i],
                    #[trigger] r@[i],
                ),
            r.nnz() == self.slot(range.end as int) - self.slot(range.start as int),
    {
        let mut indices: Vec<usize> = Vec::new();
        let mut values: Vec<T> = Vec::new();
        let ghost p0 = rank(self.indices@, range.start as int);
        let ghost p1 = rank(self.indices@, range.end as int);
        proof {
            lemma_rank_splits(self.indices@, range.start as int);
            lemma_rank_splits(self.indices@, range.end as int);
            if p1 < p0 {
                assert(self.indices@[p1] >= range.end);
                assert(self.indices@[p1] < range.start);
            }
        }
        let held = self.indices.len();
        let mut k: usize = 0;
        while k < held
            invariant
                self.wf(),
                held == self.indices@.len(),
                k <= held,
                range.start <= range.end,
                p0 == rank(self.indices@, range.start as int),
                p1 == rank(self.indices@, range.end as int),
                0 <= p0 <= p1 <= held,
                forall|j: int| 0 <= j < p0 ==> self.indices@[j] < range.start,
                forall|j: int| p0 <= j < held ==> self.indices@[j] >= range.start,
                forall|j: int| 0 <= j < p1 ==> self.indices@[j] < range.end,
                forall|j: int| p1 <= j < held ==> self.indices@[j] >= range.end,
                indices@.len() == values@.len(),
                indices@.len() == (if k <= p0 {
                    0
                } else if k <= p1 {
                    k - p0
                } else {
                    p1 - p0
                }),
                forall|j: int|
                    0 <= j < indices@.len() ==> (#[trigger] indices@[j]) == self.indices@[p0 + j]
                        - range.start,
                forall|j: int|
                    0 <= j < indices@.len() ==> cloned(
                        self.values@[p0 + j],
                        #[trigger] values@[j],
                    ),
            decreases held - k,
        {
            let index = self.indices[k];
            if range.start <= index && index < range.end {
                indices.push(index - range.start);
                values.push(self.values[k].clone());
            }
            k += 1;
        }
        let len = range.end - range.start;
        let r = ZeroSparseVec { len, indices, values, default_value: T::default() };
        proof {
            let ind = self.indices@;
            let out = r.indices@;
            assert forall|a: int, b: int| 0 <= a < b < out.len() implies out[a] < out[b] by {
                assert(ind[p0 + a] < ind[p0 + b]);
            }
            assert forall|j: int| 0 <= j < out.len() implies out[j] < len by {}
            lemma_count_at_most_len(out, len as nat);
            assert forall|i: int| 0 <= i < len implies (r.stores(i) == self.stores(range.start + i))
                && (r.stores(i) ==> cloned(self@[range.start + i], r@[i])) by {
                lemma_stored_iff_present(ind, range.start + i);
                lemma_stored_iff_present(out, i);
                if stored(out, i) {
                    let j = rank(out, i);
                    assert(ind[p0 + j] == range.start + i);
                    lemma_rank_of_entry(ind, p0 + j);
                }
                if stored(ind, range.start + i) {
                    let j0 = rank(ind, range.start + i);
                    assert(out[j0 - p0] == i);
                }
            }
        }
        r
    }

    /// Takes away every stored entry whose value equals the default, so that
    /// the vector is compact again. The dense sequence changes only where
    /// such a value is replaced by the default itself.
    pub fn compress(&mut self)
        requires
            old(self).wf(),
        ensures
            final(self).wf(),
            final(self).len() == old(self).len(),
            final(self).spec_default() == old(self).spec_default(),
            forall|i: int|
                final(self).stores(i) ==> old(self).stores(i) && lookup(
                    final(self).spec_indices(),
                    final(self).spec_values(),
                    final(self).spec_default(),
                    i,
                ) == lookup(
                    old(self).spec_indices(),
                    old(self).spec_values(),
                    old(self).spec_default(),
                    i,
                ),
            T::obeys_eq_spec() ==> forall|i: int|
                old(self).stores(i) ==> (final(self).stores(i) <==> !lookup(
                    old(self).spec_indices(),
                    old(self).spec_values(),
                    old(self).spec_default(),
                    i,
                ).eq_spec(&old(self).spec_default())),
            T::obeys_eq_spec() ==> final(self).is_compact(),
    {
        let ghost ind0 = self.indices@;
        let ghost val0 = self.values@;
        let ghost d = self.default_value;
        let mut k: usize = self.indices.len();
        while k > 0
            invariant
                self.wf(),
                self.len() == old(self).len(),
                self.spec_default() == d,
                d == old(self).spec_default(),
                ind0 == old(self).spec_indices(),
                val0 == old(self).spec_values(),
                k <= self.indices@.len(),
                forall|i: int|
                    self.stores(i) ==> stored(ind0, i) && lookup(self.indices@, self.values@, d, i)
                        == lookup(ind0, val0, d, i),
                T::obeys_eq_spec() ==> forall|i: int|
                    stored(ind0, i) && !self.stores(i) ==> lookup(ind0, val0, d, i).eq_spec(&d),
                T::obeys_eq_spec() ==> forall|j: int|
                    k <= j < self.values@.len() ==> !(#[trigger] self.values@[j]).eq_spec(&d),
            decreases k,
        {
            k -= 1;
            if self.values[k] == self.default_value {
                proof {
                    lemma_drop_entry(self.len as nat, self.indices@, self.values@, d, k as int);
                    lemma_rank_of_entry(self.indices@, k as int);
                }
                let ghost before = *self;
                self.indices.remove(k);
                self.values.remove(k);
                proof {
                    assert forall|j: int| k <= j < self.values@.len() implies before.values@[j + 1]
                        == self.values@[j] by {}
                }
            }
        }
    }
}

impl<T: Default + PartialEq + Clone> Default for ZeroSparseVec<T> {
    /// The empty vector.
    fn default() -> (r: Self)
        ensures
            r.wf(),
            r.is_compact(),
            r.len() == 0,
            r.nnz() == 0,
            r@ == Seq::<T>::empty(),
            call_ensures(T::default, (), r.spec_default()),
    {
        Self::with_capacity(0)
    }
}

impl<T: Default + PartialEq + Clone> From<Vec<T>> for ZeroSparseVec<T> {
    /// The sparse vector whose dense sequence is `data`, but for the elements
    /// that equal the default: their positions are elided.
    fn from(data: Vec<T>) -> (r: Self)
        ensures
            r.is_sparse_of(data@),
            call_ensures(T::default, (), r.spec_default()),
    {
        let mut svec = Self::with_capacity(0);
        svec.push_all(data);
        assert(Seq::<T>::empty() + pushed_tail(svec.spec_indices(), 0, data@, svec.spec_default())
            =~= pushed_tail(svec.spec_indices(), 0, data@, svec.spec_default()));
        svec
    }
}

impl<T: Default + PartialEq + Clone> vstd::std_specs::convert::FromSpecImpl<Vec<T>> for ZeroSparseVec<T> {
    open spec fn obeys_from_spec() -> bool {
        false
    }

    open spec fn from_spec(v: Vec<T>) -> Self {
        arbitrary()
    }
}

} // verus!
