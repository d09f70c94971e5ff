//! A vector that stores only the elements that differ from a default value.
//!
//! To its user a `DefaultSparseVec` is a sequence of `len()` elements, its
//! view. Physically it keeps the non-default elements in one array and their
//! logical indices, sorted, in a second one.

use vstd::prelude::*;
use vstd::std_specs::cmp::PartialEqSpec;
use crate::vec::index_array::{locate, shift_down_from, shift_up_from};
use crate::vec::model::{
    dense, inserted_all, lemma_append, lemma_count_at_most_len, lemma_insert_absent,
    lemma_insert_stored, lemma_materialize, lemma_overwrite, lemma_pop_absent,
    lemma_pop_stored, lemma_push_absent, lemma_push_keeps_stored, lemma_push_stored,
    lemma_rank_is, lemma_rank_splits, lemma_remove_absent, lemma_remove_stored, moved_up,
    pushed_tail, rank, shift_down, shift_up, stored, valid_parts,
};

verus! {

/// The capacity that a vector of `T` starts with: none, or no limit where the
/// elements take no room.
pub open spec fn initial_capacity<T>() -> usize {
    if vstd::layout::size_of::<T>() == 0 {
        usize::MAX
    } else {
        0
    }
}

/// The capacity after one step of growth from `cap`: one slot where there was
/// none, else twice as many, and `usize::MAX` where twice as many cannot be
/// counted.
pub open spec fn grown(cap: usize) -> usize {
    if cap == 0 {
        1
    } else if cap <= usize::MAX / 2 {
        (2 * cap) as usize
    } else {
        usize::MAX
    }
}

/// The capacity after `n` pushes onto a vector of capacity `cap` and logical
/// length `base`, where `ind` are the stored indices once all are pushed.
/// Each push finds `rank(ind, base + k)` entries stored, and takes a step of
/// growth if that is all the capacity has room for.
pub open spec fn capacity_after(cap: usize, ind: Seq<usize>, base: nat, n: nat) -> usize
    decreases n,
{
    if n == 0 {
        cap
    } else {
        let before = capacity_after(cap, ind, base, (n - 1) as nat);
        if rank(ind, base + n - 1) == before {
            grown(before)
        } else {
            before
        }
    }
}

/// An entry pushed at or behind position `base + n` leaves the capacity after
/// the first `n` pushes as it was.
proof fn lemma_capacity_after_ignores_later(
    cap: usize,
    ind: Seq<usize>,
    base: nat,
    n: nat,
    x: usize,
)
    requires
        x >= base + n,
    ensures
        capacity_after(cap, ind.push(x), base, n) == capacity_after(cap, ind, base, n),
    decreases n,
{
    if n > 0 {
        lemma_capacity_after_ignores_later(cap, ind, base, (n - 1) as nat, x);
        assert(ind.push(x).drop_last() =~= ind);
    }
}

/// The two backing arrays and the capacity reserved for both.
#[derive(Clone)]
struct RawDefaultSparseVec<T> {
    indices: Vec<usize>,
    values: Vec<T>,
    cap: usize,
}

impl<T> RawDefaultSparseVec<T> {
    spec fn wf(&self) -> bool {
        &&& self.indices@.len() == self.values@.len()
        &&& self.indices@.len() <= self.cap
    }

    /// Empty storage, with nothing reserved yet.
    fn new() -> (r: Self)
        ensures
            r.indices@ == Seq::<usize>::empty(),
            r.values@ == Seq::<T>::empty(),
            r.cap == initial_capacity::<T>(),
    {
        let cap = if core::mem::size_of::<T>() == 0 {
            usize::MAX
        } else {
            0
        };
        RawDefaultSparseVec { indices: Vec::new(), values: Vec::new(), cap }
    }

    /// One step of growth, for both arrays together.
    fn grow(&mut self)
        requires
            old(self).wf(),
        ensures
            final(self).indices@ == old(self).indices@,
            final(self).values@ == old(self).values@,
            final(self).cap == grown(old(self).cap),
            final(self).wf(),
            old(self).indices@.len() < usize::MAX ==> old(self).indices@.len() < final(self).cap,
    {
        let new_cap = if self.cap == 0 {
            1
        } else if self.cap <= usize::MAX / 2 {
            self.cap * 2
        } else {
            usize::MAX
        };
        self.cap = new_cap;
        self.re_cap_set();
    }

    /// Reserves `self.cap` slots in both arrays of storage that holds nothing.
    fn cap_set(&mut self)
        requires
            old(self).indices@.len() == 0,
            old(self).values@.len() == 0,
        ensures
            final(self).indices@ == old(self).indices@,
            final(self).values@ == old(self).values@,
            final(self).cap == old(self).cap,
    {
        self.indices = Vec::with_capacity(self.cap);
        self.values = Vec::with_capacity(self.cap);
    }

    /// Brings both arrays to `self.cap` slots, keeping what they hold.
    fn re_cap_set(&mut self)
        requires
            old(self).wf(),
        ensures
            final(self).indices@ == old(self).indices@,
            final(self).values@ == old(self).values@,
            final(self).cap == old(self).cap,
    {
        let held = self.indices.len();
        if held < self.cap {
            self.indices.reserve(self.cap - held);
            self.values.reserve(self.cap - held);
        } else {
            shrink_to_fit(&mut self.indices);
            shrink_to_fit(&mut self.values);
        }
    }
}

/// `Vec::shrink_to_fit` of the standard library: gives back the room that the
/// vector does not use. Taken on trust: the elements stay as they are.
#[verifier::external_body]
fn shrink_to_fit<E>(v: &mut Vec<E>)
    ensures
        final(v)@ == old(v)@,
{
    v.shrink_to_fit();
}

/// Why two vectors cannot be joined.
#[derive(Clone, Copy, Debug, PartialEq, Eq)]
pub enum AppendError {
    /// The vectors elide different default values.
    DefaultMismatch,
}

/// A sequence that keeps only its non-default elements in memory.
#[derive(Clone)]
pub struct DefaultSparseVec<T: Default + PartialEq + Clone> {
    buf: RawDefaultSparseVec<T>,
    len: usize,
    default: T,
}

impl<T: Default + PartialEq + Clone> View for DefaultSparseVec<T> {
    type V = Seq<T>;

    /// The dense sequence: every logical position with its value, the elided
    /// ones with the default.
    open spec fn view(&self) -> Seq<T> {
        dense(
            self.spec_len() as nat,
            self.spec_indices(),
            self.spec_values(),
            self.spec_default(),
        )
    }
}

impl<T: Default + PartialEq + Clone> DefaultSparseVec<T> {
    /// The logical indices of the stored entries, in physical order.
    pub closed spec fn spec_indices(&self) -> Seq<usize> {
        self.buf.indices@
    }

    /// The values of the stored entries, in physical order.
    pub closed spec fn spec_values(&self) -> Seq<T> {
        self.buf.values@
    }

    /// The logical length.
    pub closed spec fn spec_len(&self) -> usize {
        self.len
    }

    /// The elided value.
    pub closed spec fn spec_default(&self) -> T {
        self.default
    }

    /// The number of entries that both backing arrays have room for.
    pub closed spec fn spec_capacity(&self) -> usize {
        self.buf.cap
    }

    /// The number of stored entries.
    pub open spec fn spec_nnz(&self) -> usize {
        self.spec_indices().len() as usize
    }

    pub open spec fn spec_is_empty(&self) -> bool {
        self.spec_len() == 0
    }

    /// The structural invariant: one value per stored index, the indices
    /// strictly increasing and inside the logical length, and neither more
    /// entries than positions nor more than the capacity.
    pub open spec fn wf(&self) -> bool {
        &&& valid_parts(self.spec_len() as nat, self.spec_indices(), self.spec_values())
        &&& self.spec_indices().len() <= self.spec_len()
        &&& self.spec_indices().len() <= self.spec_capacity()
    }

    /// The sparsity invariant: no stored value equals the default.
    pub open spec fn is_compact(&self) -> bool {
        forall|k: int|
            0 <= k < self.spec_values().len() ==> !(#[trigger] self.spec_values()[k]).eq_spec(
                &self.spec_default(),
            )
    }

    /// Logical position `i` has a stored entry.
    pub open spec fn stores(&self, i: int) -> bool {
        stored(self.spec_indices(), i)
    }

    /// The physical position at which logical position `i` is stored, or
    /// would be.
    pub open spec fn slot(&self, i: int) -> int {
        rank(self.spec_indices(), i)
    }

    /// What `get_mut` at a position of the vector does: `self` is the vector
    /// before, `after` the vector once the reference is given back, `shown`
    /// the value the reference showed at first and `left` the value it held
    /// at last.
    ///
    /// A stored position shows its value; an elided one gets an entry of its
    /// own that shows a clone of the default, after a step of growth if the
    /// arrays were full. Afterwards the position is stored and holds `left`,
    /// and nothing else has changed.
    pub open spec fn opened_at(&self, after: &Self, index: usize, shown: T, left: T) -> bool {
        &&& self.stores(index as int) ==> shown == self@[index as int]
        &&& !self.stores(index as int) ==> cloned(self.spec_default(), shown)
        &&& after.wf()
        &&& after.len() == self.len()
        &&& after.spec_default() == self.spec_default()
        &&& after.capacity() == if !self.stores(index as int) && self.nnz() == self.capacity() {
            grown(self.capacity())
        } else {
            self.capacity()
        }
        &&& after.stores(index as int)
        &&& after.nnz() == if self.stores(index as int) {
            self.nnz() as int
        } else {
            self.nnz() + 1
        }
        &&& after.spec_indices() == if self.stores(index as int) {
            self.spec_indices()
        } else {
            self.spec_indices().insert(self.slot(index as int), index)
        }
        &&& after.spec_values() == if self.stores(index as int) {
            self.spec_values().update(self.slot(index as int), left)
        } else {
            self.spec_values().insert(self.slot(index as int), left)
        }
        &&& after@ == self@.update(index as int, left)
    }

    /// What `insert` of `elem` at `index` does: `self` is the vector before
    /// and `after` the vector afterwards.
    ///
    /// The logical length grows by one, after a step of growth if the arrays
    /// were full. Every stored index at or behind `index` moves up by one.
    /// The new position gets a stored entry exactly if `elem` differs from the
    /// default; in the dense sequence it holds `elem` if stored and the
    /// default if not.
    pub open spec fn inserted(&self, after: &Self, index: usize, elem: T) -> bool {
        &&& after.wf()
        &&& after.len() == self.len() + 1
        &&& after.spec_default() == self.spec_default()
        &&& after.capacity() == if self.nnz() == self.capacity() {
            grown(self.capacity())
        } else {
            self.capacity()
        }
        &&& T::obeys_eq_spec() ==> (after.stores(index as int) <==> !elem.eq_spec(
            &self.spec_default(),
        ))
        &&& after.nnz() == if after.stores(index as int) {
            self.nnz() + 1
        } else {
            self.nnz() as int
        }
        &&& after.spec_indices() == if after.stores(index as int) {
            shift_up(self.spec_indices(), self.slot(index as int)).insert(
                self.slot(index as int),
                index,
            )
        } else {
            shift_up(self.spec_indices(), self.slot(index as int))
        }
        &&& after.spec_values() == if after.stores(index as int) {
            self.spec_values().insert(self.slot(index as int), elem)
        } else {
            self.spec_values()
        }
        &&& after@ == self@.insert(
            index as int,
            if after.stores(index as int) {
                elem
            } else {
                self.spec_default()
            },
        )
        &&& T::obeys_eq_spec() && self.is_compact() ==> after.is_compact()
    }

    /// What `remove` at `index` does: `self` is the vector before, `after` the
    /// vector afterwards and `taken` the value returned.
    ///
    /// The logical length shrinks by one and every stored index behind
    /// `index` moves down by one. A stored entry for `index` leaves the arrays
    /// and its value is returned; for an elided position the arrays keep
    /// their entries and a clone of the default is returned.
    pub open spec fn removed(&self, after: &Self, index: usize, taken: T) -> bool {
        &&& after.wf()
        &&& after.len() == self.len() - 1
        &&& after.spec_default() == self.spec_default()
        &&& after.capacity() == self.capacity()
        &&& after@ == self@.remove(index as int)
        &&& self.stores(index as int) ==> taken == self@[index as int]
        &&& !self.stores(index as int) ==> cloned(self.spec_default(), taken)
        &&& after.nnz() == if self.stores(index as int) {
            self.nnz() - 1
        } else {
            self.nnz() as int
        }
        &&& after.spec_indices() == if self.stores(index as int) {
            shift_down(
                self.spec_indices().remove(self.slot(index as int)),
                self.slot(index as int),
            )
        } else {
            shift_down(self.spec_indices(), self.slot(index as int))
        }
        &&& after.spec_values() == if self.stores(index as int) {
            self.spec_values().remove(self.slot(index as int))
        } else {
            self.spec_values()
        }
        &&& self.is_compact() ==> after.is_compact()
    }

    /// The vector is the sparse form of the dense sequence `items`: as long
    /// as `items`, with a stored entry exactly where the item differs from
    /// the default, holding the item.
    pub open spec fn is_sparse_of(&self, items: Seq<T>) -> bool {
        &&& self.wf()
        &&& self.len() == items.len()
        &&& T::obeys_eq_spec() ==> forall|i: int|
            0 <= i < items.len() ==> (self.stores(i) <==> !items[i].eq_spec(&self.spec_default()))
        &&& self@ == pushed_tail(self.spec_indices(), 0, items, self.spec_default())
        &&& T::obeys_eq_spec() ==> self.is_compact()
    }

    fn ind_binary_search(&self, index: &usize) -> (r: Result<usize, usize>)
        requires
            self.wf(),
        ensures
            match r {
                Ok(p) => p == self.slot(*index as int) && self.stores(*index as int),
                Err(p) => p == self.slot(*index as int) && !self.stores(*index as int),
            },
            match r {
                Ok(p) => p < self.spec_indices().len(),
                Err(p) => p <= self.spec_indices().len(),
            },
    {
        locate(&self.buf.indices, *index)
    }

    /// An empty vector that elides the default value of `T`.
    pub fn new() -> (r: Self)
        ensures
            r.wf(),
            r.is_compact(),
            r.len() == 0,
            r.nnz() == 0,
            r@ == Seq::<T>::empty(),
            r.capacity() == initial_capacity::<T>(),
            call_ensures(T::default, (), r.spec_default()),
    {
        let r = DefaultSparseVec { buf: RawDefaultSparseVec::new(), len: 0, default: T::default() };
        assert(r@ =~= Seq::<T>::empty());
        r
    }

    /// An empty vector that elides `default`.
    pub fn with_default(default: T) -> (r: Self)
        ensures
            r.wf(),
            r.is_compact(),
            r.len() == 0,
            r.nnz() == 0,
            r@ == Seq::<T>::empty(),
            r.capacity() == initial_capacity::<T>(),
            r.spec_default() == default,
    {
        let r = DefaultSparseVec { buf: RawDefaultSparseVec::new(), len: 0, default };
        assert(r@ =~= Seq::<T>::empty());
        r
    }

    /// An empty vector with room for `cap` stored entries.
    pub fn with_capacity(cap: usize) -> (r: Self)
        ensures
            r.wf(),
            r.is_compact(),
            r.len() == 0,
            r.nnz() == 0,
            r@ == Seq::<T>::empty(),
            r.capacity() == cap,
            call_ensures(T::default, (), r.spec_default()),
    {
        let mut vec = DefaultSparseVec {
            buf: RawDefaultSparseVec::new(),
            len: 0,
            default: T::default(),
        };
        vec.buf.cap = cap;
        vec.buf.cap_set();
        assert(vec@ =~= Seq::<T>::empty());
        vec
    }

    #[verifier::when_used_as_spec(spec_is_empty)]
    pub fn is_empty(&self) -> (r: bool)
        ensures
            r == (self.spec_len() == 0),
    {
        self.len == 0
    }

    #[verifier::when_used_as_spec(spec_capacity)]
    pub fn capacity(&self) -> (r: usize)
        ensures
            r == self.spec_capacity(),
    {
        self.buf.cap
    }

    #[verifier::when_used_as_spec(spec_nnz)]
    pub fn nnz(&self) -> (r: usize)
        ensures
            r == self.spec_indices().len(),
    {
        self.buf.indices.len()
    }

    #[verifier::when_used_as_spec(spec_len)]
    pub fn len(&self) -> (r: usize)
        ensures
            r == self.spec_len(),
    {
        self.len
    }

    /// The elided value.
    pub fn default_value(&self) -> (r: &T)
        ensures
            *r == self.spec_default(),
    {
        &self.default
    }

    /// Appends `elem` as the new last element.
    ///
    /// The element is stored only if it differs from the default; the logical
    /// length grows by one either way. Capacity grows first if the arrays are
    /// full.
    pub fn push(&mut self, elem: T)
        requires
            old(self).wf(),
            old(self).len() < usize::MAX,
        ensures
            final(self).wf(),
            final(self).len() == old(self).len() + 1,
            final(self).spec_default() == old(self).spec_default(),
            final(self).capacity() == if old(self).nnz() == old(self).capacity() {
                grown(old(self).capacity())
            } else {
                old(self).capacity()
            },
            T::obeys_eq_spec() ==> (final(self).stores(old(self).len() as int) <==> !elem.eq_spec(
                &old(self).spec_default(),
            )),
            final(self).nnz() == if final(self).stores(old(self).len() as int) {
                old(self).nnz() + 1
            } else {
                old(self).nnz() as int
            },
            final(self).spec_indices() == if final(self).stores(old(self).len() as int) {
                old(self).spec_indices().push(old(self).len())
            } else {
                old(self).spec_indices()
            },
            final(self).spec_values() == if final(self).stores(old(self).len() as int) {
                old(self).spec_values().push(elem)
            } else {
                old(self).spec_values()
            },
            final(self)@ == old(self)@.push(
                if final(self).stores(old(self).len() as int) {
                    elem
                } else {
                    old(self).spec_default()
                },
            ),
            T::obeys_eq_spec() && old(self).is_compact() ==> final(self).is_compact(),
    {
        if self.buf.indices.len() == self.buf.cap {
            self.buf.grow();
        }
        if elem != self.default {
            proof {
                lemma_push_stored(
                    self.len as nat,
                    self.buf.indices@,
                    self.buf.values@,
                    self.default,
                    elem,
                );
            }
            self.buf.indices.push(self.len);
            self.buf.values.push(elem);
        } else {
            proof {
                lemma_push_absent(
                    self.len as nat,
                    self.buf.indices@,
                    self.buf.values@,
                    self.default,
                );
            }
        }
        self.len += 1;
    }

    /// Removes the last element and returns it, or `None` from an empty
    /// vector. Where the last position was elided the result is a clone of
    /// the default.
    pub fn pop(&mut self) -> (r: Option<T>)
        requires
            old(self).wf(),
        ensures
            final(self).wf(),
            final(self).spec_default() == old(self).spec_default(),
            final(self).capacity() == old(self).capacity(),
            old(self).len() == 0 ==> r is None && *final(self) == *old(self),
            old(self).len() > 0 ==> r is Some && final(self).len() == old(self).len() - 1
                && final(self)@ == old(self)@.drop_last(),
            final(self).nnz() == if old(self).len() > 0 && old(self).stores(old(self).len() - 1) {
                old(self).nnz() - 1
            } else {
                old(self).nnz() as int
            },
            old(self).len() > 0 && old(self).stores(old(self).len() - 1) ==> r == Some(
                old(self)@.last(),
            ) && final(self).spec_indices() == old(self).spec_indices().drop_last() && final(self).spec_values() == old(self).spec_values().drop_last(),
            old(self).len() > 0 && !old(self).stores(old(self).len() - 1) ==> cloned(
                old(self).spec_default(),
                r.unwrap(),
            ) && final(self).spec_indices() == old(self).spec_indices() && final(self).spec_values() == old(self).spec_values(),
            old(self).is_compact() ==> final(self).is_compact(),
    {
        if self.len == 0 {
            return None;
        }
        let held = self.buf.indices.len();
        let pop_elem = if held > 0 && self.buf.indices[held - 1] == self.len - 1 {
            proof {
                lemma_pop_stored(
                    self.len as nat,
                    self.buf.indices@,
                    self.buf.values@,
                    self.default,
                );
            }
            self.buf.indices.pop();
            self.buf.values.pop()
        } else {
            proof {
                lemma_pop_absent(
                    self.len as nat,
                    self.buf.indices@,
                    self.buf.values@,
                    self.default,
                );
            }
            Some(self.default.clone())
        };
        self.len -= 1;
        proof {
            lemma_count_at_most_len(self.buf.indices@, self.len as nat);
        }
        pop_elem
    }

    /// The element at logical position `index`, or `None` where `index` is
    /// not a position of the vector. An elided position gives the default;
    /// nothing is stored for it.
    pub fn get(&self, index: usize) -> (r: Option<&T>)
        requires
            self.wf(),
        ensures
            r == if index < self.len() {
                Some(&self@[index as int])
            } else {
                None
            },
    {
        if index >= self.len {
            return None;
        }
        match self.ind_binary_search(&index) {
            Ok(i) => Some(&self.buf.values[i]),
            Err(_) => Some(&self.default),
        }
    }

    /// A mutable reference to the element at logical position `index`, or
    /// `None` where `index` is not a position of the vector.
    ///
    /// Costly, and best avoided: an elided position first gets a stored entry
    /// of its own, holding a clone of the default, so that there is something
    /// to refer to. The arrays behind it shift, and unless the caller writes
    /// a non-default value the vector is no longer compact.
    pub fn get_mut(&mut self, index: usize) -> (r: Option<&mut T>)
        requires
            old(self).wf(),
        ensures
            index >= old(self).len() ==> r is None && *final(self) == *old(self),
            index < old(self).len() ==> match r {
                Some(elem) => old(self).opened_at(final(self), index, *elem, *final(elem)),
                None => false,
            },
    {
        if index >= self.len {
            return None;
        }
        match self.ind_binary_search(&index) {
            Ok(i) => {
                let val = &mut self.buf.values[i];
                proof {
                    lemma_overwrite(
                        old(self).len as nat,
                        old(self).buf.indices@,
                        old(self).buf.values@,
                        old(self).default,
                        index as int,
                        *final(val),
                    );
                }
                Some(val)
            },
            Err(i) => {
                if self.buf.indices.len() == self.buf.cap {
                    self.buf.grow();
                }
                let fresh = self.default.clone();
                proof {
                    lemma_materialize(
                        self.len as nat,
                        self.buf.indices@,
                        self.buf.values@,
                        self.default,
                        index as int,
                        fresh,
                    );
                    lemma_count_at_most_len(
                        self.buf.indices@.insert(i as int, index),
                        self.len as nat,
                    );
                }
                self.buf.indices.insert(i, index);
                self.buf.values.insert(i, fresh);
                let ghost mid_values = self.buf.values@;
                let val = &mut self.buf.values[i];
                proof {
                    lemma_overwrite(
                        self.len as nat,
                        self.buf.indices@,
                        mid_values,
                        self.default,
                        index as int,
                        *final(val),
                    );
                    assert(mid_values.update(i as int, *final(val)) =~= old(self).buf.values@.insert(
                        i as int,
                        *final(val),
                    ));
                    assert(old(self)@.update(index as int, fresh).update(index as int, *final(val))
                        =~= old(self)@.update(index as int, *final(val)));
                }
                Some(val)
            },
        }
    }

    /// Inserts `elem` at logical position `index`; every element at or behind
    /// that position moves up by one.
    ///
    /// The element is stored only if it differs from the default. An entry
    /// stored for `index` before the call is not overwritten: it moves up
    /// with the rest.
    pub fn insert(&mut self, index: usize, elem: T)
        requires
            old(self).wf(),
            index <= old(self).len(),
            old(self).len() < usize::MAX,
        ensures
            old(self).inserted(final(self), index, elem),
    {
        let ghost ind0 = self.buf.indices@;
        let ghost val0 = self.buf.values@;
        self.len += 1;
        if self.buf.indices.len() == self.buf.cap {
            self.buf.grow();
        }
        let i = match locate(&self.buf.indices, index) {
            Ok(pos) => pos,
            Err(pos) => pos,
        };
        if elem != self.default {
            proof {
                lemma_insert_stored(old(self).len as nat, ind0, val0, self.default, index as int, elem);
            }
            self.buf.indices.insert(i, index);
            self.buf.values.insert(i, elem);
            shift_up_from(&mut self.buf.indices, i + 1);
            assert(self.buf.indices@ =~= shift_up(ind0, i as int).insert(i as int, index));
            proof {
                if T::obeys_eq_spec() && old(self).is_compact() {
                    assert forall|k: int| 0 <= k < self.buf.values@.len() implies !(
                    #[trigger] self.buf.values@[k]).eq_spec(&self.default) by {
                        if k < i {
                            assert(self.buf.values@[k] == val0[k]);
                        } else if k > i {
                            assert(self.buf.values@[k] == val0[k - 1]);
                        }
                    }
                }
            }
        } else {
            proof {
                lemma_insert_absent(old(self).len as nat, ind0, val0, self.default, index as int);
            }
            shift_up_from(&mut self.buf.indices, i);
        }
        proof {
            lemma_count_at_most_len(self.buf.indices@, self.len as nat);
        }
    }

    /// Removes the element at logical position `index` and returns it; every
    /// element behind that position moves down by one. Where the position
    /// was elided the result is a clone of the default.
    pub fn remove(&mut self, index: usize) -> (r: T)
        requires
            old(self).wf(),
            index < old(self).len(),
        ensures
            old(self).removed(final(self), index, r),
    {
        let ghost ind0 = self.buf.indices@;
        let ghost val0 = self.buf.values@;
        self.len -= 1;
        proof {
            lemma_rank_splits(ind0, index as int);
        }
        match locate(&self.buf.indices, index) {
            Ok(i) => {
                proof {
                    lemma_remove_stored(old(self).len as nat, ind0, val0, self.default, index as int);
                }
                let removed_val = self.buf.values.remove(i);
                self.buf.indices.remove(i);
                proof {
                    assert forall|k: int| i <= k < self.buf.indices@.len() implies
                        self.buf.indices@[k] > 0 by {
                        assert(ind0[i as int] < ind0[k + 1]);
                    }
                }
                shift_down_from(&mut self.buf.indices, i);
                proof {
                    lemma_count_at_most_len(self.buf.indices@, self.len as nat);
                    if old(self).is_compact() {
                        assert forall|k: int| 0 <= k < self.buf.values@.len() implies !(
                        #[trigger] self.buf.values@[k]).eq_spec(&self.default) by {
                            if k < i {
                                assert(self.buf.values@[k] == val0[k]);
                            } else {
                                assert(self.buf.values@[k] == val0[k + 1]);
                            }
                        }
                    }
                }
                removed_val
            },
            Err(i) => {
                proof {
                    lemma_remove_absent(old(self).len as nat, ind0, val0, self.default, index as int);
                }
                shift_down_from(&mut self.buf.indices, i);
                proof {
                    lemma_count_at_most_len(self.buf.indices@, self.len as nat);
                }
                self.default.clone()
            },
        }
    }

    /// Makes room for `additional` stored entries beyond those held now.
    /// Does nothing if the capacity already suffices.
    pub fn reserve(&mut self, additional: usize)
        requires
            old(self).wf(),
            old(self).nnz() + additional <= usize::MAX,
        ensures
            final(self).wf(),
            final(self).len() == old(self).len(),
            final(self).spec_indices() == old(self).spec_indices(),
            final(self).spec_values() == old(self).spec_values(),
            final(self).spec_default() == old(self).spec_default(),
            final(self).capacity() == if old(self).nnz() + additional > old(self).capacity() {
                (old(self).nnz() + additional) as usize
            } else {
                old(self).capacity()
            },
    {
        let new_cap = self.buf.indices.len() + additional;
        if new_cap > self.buf.cap {
            self.buf.cap = new_cap;
            self.buf.re_cap_set();
        }
    }

    /// Lowers the capacity to the number of stored entries.
    pub fn shrink_to_fit(&mut self)
        requires
            old(self).wf(),
        ensures
            final(self).wf(),
            final(self).len() == old(self).len(),
            final(self).spec_indices() == old(self).spec_indices(),
            final(self).spec_values() == old(self).spec_values(),
            final(self).spec_default() == old(self).spec_default(),
            final(self).capacity() == old(self).nnz(),
    {
        if self.buf.indices.len() < self.buf.cap {
            self.buf.cap = self.buf.indices.len();
            self.buf.re_cap_set();
        }
    }

    /// Removes every element, by popping until none is left. The capacity
    /// stays.
    pub fn clear(&mut self)
        requires
            old(self).wf(),
        ensures
            final(self).wf(),
            final(self).is_compact(),
            final(self).len() == 0,
            final(self).nnz() == 0,
            final(self)@ == Seq::<T>::empty(),
            final(self).spec_default() == old(self).spec_default(),
            final(self).capacity() == old(self).capacity(),
    {
        loop
            invariant
                self.wf(),
                self.spec_default() == old(self).spec_default(),
                self.capacity() == old(self).capacity(),
            ensures
                self.wf(),
                self.len() == 0,
                self.spec_default() == old(self).spec_default(),
                self.capacity() == old(self).capacity(),
            decreases self.len(),
        {
            match self.pop() {
                Some(_) => {},
                None => {
                    break ;
                },
            }
        }
        assert(self@ =~= Seq::<T>::empty());
    }

    /// Moves the elements of `other` behind those of `self`.
    ///
    /// Nothing happens where `other` is empty. Otherwise both vectors must
    /// elide the same default value: if they do not, the call fails and
    /// `self` stays as it was. On success the stored entries of `other` follow
    /// those of `self`, each logical index moved up by the old length of
    /// `self`, and the capacity is raised, if need be, to hold them all.
    pub fn append(&mut self, other: Self) -> (r: Result<(), AppendError>)
        requires
            old(self).wf(),
            other.wf(),
            old(self).len() + other.len() <= usize::MAX,
        ensures
            final(self).wf(),
            final(self).spec_default() == old(self).spec_default(),
            other.len() == 0 ==> r is Ok,
            T::obeys_eq_spec() ==> (r is Err <==> other.len() > 0 && !old(self).spec_default().eq_spec(&other.spec_default())),
            r is Err || other.len() == 0 ==> *final(self) == *old(self),
            r is Err ==> r == Err::<(), AppendError>(AppendError::DefaultMismatch),
            r is Ok && other.len() > 0 ==> {
                &&& final(self).len() == old(self).len() + other.len()
                &&& final(self).spec_indices() == old(self).spec_indices() + moved_up(
                    other.spec_indices(),
                    old(self).len() as nat,
                )
                &&& final(self).spec_values() == old(self).spec_values() + other.spec_values()
                &&& final(self)@ == old(self)@ + dense(
                    other.len() as nat,
                    other.spec_indices(),
                    other.spec_values(),
                    old(self).spec_default(),
                )
                &&& final(self).capacity() == if old(self).nnz() + other.nnz() > old(self).capacity() {
                    (old(self).nnz() + other.nnz()) as usize
                } else {
                    old(self).capacity()
                }
            },
            r is Ok && vstd::laws_eq::obeys_eq::<T>() && old(self).is_compact()
                && other.is_compact() ==> final(self).is_compact(),
    {
        let other_len = other.len();
        let other_raw_len = other.nnz();

        if other_len == 0 {
            return Ok(());
        }
        if !(self.default == other.default) {
            return Err(AppendError::DefaultMismatch);
        }
        let offset = self.len;
        let ghost ind0 = self.buf.indices@;
        let ghost val0 = self.buf.values@;
        proof {
            lemma_append(
                self.len as nat,
                ind0,
                val0,
                other.len as nat,
                other.buf.indices@,
                other.buf.values@,
                self.default,
            );
        }
        self.len += other_len;

        if self.buf.indices.len() + other_raw_len > self.buf.cap {
            self.buf.cap = self.buf.indices.len() + other_raw_len;
            self.buf.re_cap_set();
        }
        let DefaultSparseVec { buf: other_buf, len: _, default: _ } = other;
        let RawDefaultSparseVec { indices: other_indices, values: mut other_values, cap: _ } =
            other_buf;
        let ghost before_copy = *self;
        let mut k: usize = 0;
        while k < other_raw_len
            invariant
                k <= other_raw_len == other_indices@.len(),
                offset + other_len <= usize::MAX,
                forall|j: int| 0 <= j < other_indices@.len() ==> other_indices@[j] < other_len,
                self.buf.indices@ == ind0 + moved_up(other_indices@, offset as nat).take(k as int),
                self.buf.values == before_copy.buf.values,
                self.buf.cap == before_copy.buf.cap,
                self.len == before_copy.len,
                self.default == before_copy.default,
            decreases other_raw_len - k,
        {
            self.buf.indices.push(other_indices[k] + offset);
            proof {
                let moved = moved_up(other_indices@, offset as nat);
                assert(moved.take(k + 1) =~= moved.take(k as int).push(moved[k as int]));
                assert(self.buf.indices@ =~= ind0 + moved.take(k + 1));
            }
            k += 1;
        }
        proof {
            let moved = moved_up(other_indices@, offset as nat);
            assert(moved.take(k as int) =~= moved);
        }
        self.buf.values.append(&mut other_values);
        proof {
            lemma_count_at_most_len(self.buf.indices@, self.len as nat);
            if vstd::laws_eq::obeys_eq::<T>() && old(self).is_compact() && other.is_compact() {
                reveal(vstd::laws_eq::obeys_eq_spec_properties);
                assert forall|j: int| 0 <= j < self.buf.values@.len() implies !(
                #[trigger] self.buf.values@[j]).eq_spec(&self.default) by {
                    if j >= val0.len() {
                        let v = other.buf.values@[j - val0.len()];
                        assert(self.buf.values@[j] == v);
                        assert(!v.eq_spec(&other.default));
                        if v.eq_spec(&self.default) {
                            assert(self.default.eq_spec(&other.default));
                            assert(v.eq_spec(&other.default));
                        }
                    } else {
                        assert(self.buf.values@[j] == val0[j]);
                    }
                }
            }
        }
        Ok(())
    }

    /// Pushes the elements of `items`, first to last.
    pub fn extend(&mut self, items: Vec<T>)
        requires
            old(self).wf(),
            old(self).len() + items.len() <= usize::MAX,
        ensures
            final(self).wf(),
            final(self).len() == old(self).len() + items.len(),
            final(self).spec_default() == old(self).spec_default(),
            final(self).capacity() == capacity_after(
                old(self).capacity(),
                final(self).spec_indices(),
                old(self).len() as nat,
                items.len() as nat,
            ),
            forall|i: int| 0 <= i < old(self).len() ==> final(self).stores(i) == old(self).stores(i),
            T::obeys_eq_spec() ==> forall|i: int|
                0 <= i < items.len() ==> (final(self).stores(old(self).len() + i)
                    <==> !items[i].eq_spec(&old(self).spec_default())),
            final(self)@ == old(self)@ + pushed_tail(
                final(self).spec_indices(),
                old(self).len() as nat,
                items@,
                old(self).spec_default(),
            ),
            T::obeys_eq_spec() && old(self).is_compact() ==> final(self).is_compact(),
    {
        let ghost total = items.len();
        let ghost base = self.len as nat;
        let ghost d = self.default;
        assert(self@ =~= old(self)@ + pushed_tail(self.spec_indices(), base, items@.take(0), d));
        for elem in it: items
            invariant
                self.wf(),
                it.seq() == items@,
                total == items@.len(),
                base == old(self).len(),
                base + total <= usize::MAX,
                self.len() == base + it.index(),
                d == old(self).spec_default(),
                self.spec_default() == d,
                self.capacity() == capacity_after(
                    old(self).capacity(),
                    self.spec_indices(),
                    base,
                    it.index() as nat,
                ),
                forall|i: int| 0 <= i < base ==> self.stores(i) == old(self).stores(i),
                T::obeys_eq_spec() ==> forall|i: int|
                    0 <= i < it.index() ==> (self.stores(base + i) <==> !items@[i].eq_spec(&d)),
                self@ == old(self)@ + pushed_tail(
                    self.spec_indices(),
                    base,
                    items@.take(it.index() as int),
                    d,
                ),
                T::obeys_eq_spec() && old(self).is_compact() ==> self.is_compact(),
        {
            let ghost prev = *self;
            let ghost done = it.index() as int;
            proof {
                lemma_push_keeps_stored(self.len as nat, self.buf.indices@);
                lemma_rank_is(
                    self.buf.indices@,
                    self.len as int,
                    self.buf.indices@.len() as int,
                );
                lemma_capacity_after_ignores_later(
                    old(self).capacity(),
                    self.buf.indices@,
                    base,
                    done as nat,
                    self.len,
                );
                assert(self.buf.indices@.push(self.len).drop_last() =~= self.buf.indices@);
            }
            self.push(elem);
            proof {
                let tail0 = pushed_tail(prev.spec_indices(), base, items@.take(done), d);
                let tail1 = pushed_tail(self.spec_indices(), base, items@.take(done + 1), d);
                assert forall|i: int| 0 <= i < done + 1 implies tail1[i] == (if i < done {
                    tail0[i]
                } else if self.stores(base + done) {
                    elem
                } else {
                    d
                }) by {}
                assert(self@ =~= old(self)@ + tail1);
            }
        }
        assert(items@.take(total as int) =~= items@);
    }

    /// The stored entries, each as its logical index and its value, in
    /// increasing order of the index. Elided positions do not appear.
    pub fn iter(&self) -> (r: Vec<(usize, &T)>)
        requires
            self.wf(),
        ensures
            r@.len() == self.nnz(),
            forall|k: int|
                0 <= k < r@.len() ==> (#[trigger] r@[k]).0 == self.spec_indices()[k] && *r@[k].1
                    == self.spec_values()[k],
    {
        let mut entries: Vec<(usize, &T)> = Vec::new();
        let held = self.buf.indices.len();
        let mut i: usize = 0;
        while i < held
            invariant
                i <= held == self.buf.indices@.len() == self.buf.values@.len(),
                entries@.len() == i,
                forall|k: int|
                    0 <= k < i ==> (#[trigger] entries@[k]).0 == self.buf.indices@[k]
                        && *entries@[k].1 == self.buf.values@[k],
            decreases held - i,
        {
            entries.push((self.buf.indices[i], &self.buf.values[i]));
            i += 1;
        }
        entries
    }

    /// The values of the stored entries, in physical order.
    pub fn as_slice_val(&self) -> (r: &[T])
        ensures
            r@ == self.spec_values(),
    {
        self.buf.values.as_slice()
    }

    /// The logical indices of the stored entries, in physical order.
    pub fn as_slice_ind(&self) -> (r: &[usize])
        ensures
            r@ == self.spec_indices(),
    {
        self.buf.indices.as_slice()
    }

    /// The values of the stored entries, open to change. Nothing keeps the
    /// caller from writing the default into one of them.
    pub fn as_mut_slice_val(&mut self) -> (r: &mut [T])
        ensures
            r@ == old(self).spec_values(),
            final(self).spec_values() == final(r)@,
            final(self).spec_indices() == old(self).spec_indices(),
            final(self).len() == old(self).len(),
            final(self).spec_default() == old(self).spec_default(),
            final(self).capacity() == old(self).capacity(),
    {
        self.buf.values.as_mut_slice()
    }

    /// The logical indices of the stored entries, open to change. The vector
    /// is well-formed afterwards only if the caller leaves them sorted,
    /// without repetition and inside the logical length.
    pub fn as_mut_slice_ind(&mut self) -> (r: &mut [usize])
        ensures
            r@ == old(self).spec_indices(),
            final(self).spec_indices() == final(r)@,
            final(self).spec_values() == old(self).spec_values(),
            final(self).len() == old(self).len(),
            final(self).spec_default() == old(self).spec_default(),
            final(self).capacity() == old(self).capacity(),
    {
        self.buf.indices.as_mut_slice()
    }

    /// Both arrays of stored entries at once, open to change: the logical
    /// indices and, position by position, their values.
    pub fn as_mut_slices(&mut self) -> (r: (&mut [usize], &mut [T]))
        ensures
            r.0@ == old(self).spec_indices(),
            r.1@ == old(self).spec_values(),
            final(self).spec_indices() == final(r.0)@,
            final(self).spec_values() == final(r.1)@,
            final(self).len() == old(self).len(),
            final(self).spec_default() == old(self).spec_default(),
            final(self).capacity() == old(self).capacity(),
    {
        (self.buf.indices.as_mut_slice(), self.buf.values.as_mut_slice())
    }

    /// The vector that inserting the pairs, first to last, into an empty
    /// vector gives: each pair is a logical position and the element to
    /// insert there. The capacity is then lowered to what is stored.
    pub fn from_pairs(pairs: Vec<(usize, T)>) -> (r: Self)
        requires
            forall|k: int| 0 <= k < pairs.len() ==> (#[trigger] pairs[k]).0 <= k,
        ensures
            r.wf(),
            r.len() == pairs.len(),
            r.capacity() == r.nnz(),
            call_ensures(T::default, (), r.spec_default()),
            T::obeys_eq_spec() ==> r@ == inserted_all(pairs@, r.spec_default()),
            T::obeys_eq_spec() ==> r.is_compact(),
    {
        let mut svec = DefaultSparseVec::new();
        let ghost d = svec.default;
        let ghost total = pairs.len();
        for pair in it: pairs
            invariant
                svec.wf(),
                it.seq() == pairs@,
                total == pairs@.len(),
                svec.len() == it.index(),
                svec.spec_default() == d,
                call_ensures(T::default, (), d),
                forall|k: int| 0 <= k < pairs.len() ==> (#[trigger] pairs[k]).0 <= k,
                T::obeys_eq_spec() ==> svec@ == inserted_all(pairs@.take(it.index() as int), d),
                T::obeys_eq_spec() ==> svec.is_compact(),
        {
            let ghost done = it.index() as int;
            proof {
                assert(pairs[done].0 <= done);
                assert(pairs@.take(done + 1).drop_last() =~= pairs@.take(done));
            }
            svec.insert(pair.0, pair.1);
        }
        proof {
            assert(pairs@.take(pairs.len() as int) =~= pairs@);
        }
        svec.shrink_to_fit();
        svec
    }

    /// The dense sequence as a vector of its own: a clone of every element,
    /// the elided ones included.
    pub fn to_vec(&self) -> (r: Vec<T>)
        requires
            self.wf(),
        ensures
            r@.len() == self.len(),
            forall|i: int| 0 <= i < r@.len() ==> cloned(self@[i], #[trigger] r@[i]),
    {
        let mut vec: Vec<T> = Vec::new();
        let mut i: usize = 0;
        while i < self.len
            invariant
                self.wf(),
                i <= self.len(),
                vec@.len() == i,
                forall|k: int| 0 <= k < i ==> cloned(self@[k], #[trigger] vec@[k]),
            decreases self.len() - i,
        {
            match self.get(i) {
                Some(elem) => {
                    vec.push(elem.clone());
                },
                None => {},
            }
            i += 1;
        }
        vec
    }
}

impl<T: Default + PartialEq + Clone> Default for DefaultSparseVec<T> {
    /// The empty vector of `new`.
    fn default() -> (r: Self)
        ensures
            r.wf(),
            r.is_compact(),
            r.len() == 0,
            r.nnz() == 0,
            r@ == Seq::<T>::empty(),
            r.capacity() == initial_capacity::<T>(),
            call_ensures(T::default, (), r.spec_default()),
    {
        Self::new()
    }
}

impl<T: Default + PartialEq + Clone> From<Vec<T>> for DefaultSparseVec<T> {
    /// The sparse vector whose dense sequence is `vec`, but for the elements
    /// that equal the default: their positions are elided.
    fn from(vec: Vec<T>) -> (r: Self)
        ensures
            r.is_sparse_of(vec@),
            r.capacity() == r.nnz(),
            call_ensures(T::default, (), r.spec_default()),
    {
        let mut svec = DefaultSparseVec::new();
        svec.extend(vec);
        svec.shrink_to_fit();
        assert(Seq::<T>::empty() + pushed_tail(svec.spec_indices(), 0, vec@, svec.spec_default())
            =~= pushed_tail(svec.spec_indices(), 0, vec@, svec.spec_default()));
        svec
    }
}

impl<T: Default + PartialEq + Clone> vstd::std_specs::convert::FromSpecImpl<Vec<T>> for DefaultSparseVec<T> {
    open spec fn obeys_from_spec() -> bool {
        false
    }

    open spec fn from_spec(v: Vec<T>) -> Self {
        arbitrary()
    }
}

} // verus!
