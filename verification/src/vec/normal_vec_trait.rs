//! The operations of an ordinary vector, for containers that store their
//! elements in some other way.

use vstd::prelude::*;
use vstd::std_specs::cmp::PartialEqSpec;
use crate::vec::default_sparse_vec::DefaultSparseVec;
use crate::vec::model::kept;

verus! {

/// A container that can be used as an ordinary vector of `T` would be: its
/// dense sequence grows and shrinks at the end, and takes insertions anywhere.
///
/// A container may keep one distinguished value, its default, in a cheaper
/// form. An element pushed or inserted then reads back either as itself or as
/// that default; the container says which when it knows how `T` compares.
pub trait NormalVecMethods<T> {
    /// The container is in a state in which it can be used.
    spec fn normal_wf(&self) -> bool;

    /// The elements, as an ordinary vector would hold them.
    spec fn normal_view(&self) -> Seq<T>;

    /// The value that the container may put in the place of an element that
    /// equals it.
    spec fn normal_default(&self) -> T;

    /// Appends `elem`.
    fn n_push(&mut self, elem: T)
        requires
            old(self).normal_wf(),
            old(self).normal_view().len() < usize::MAX,
        ensures
            final(self).normal_wf(),
            final(self).normal_default() == old(self).normal_default(),
            final(self).normal_view() == old(self).normal_view().push(elem) || final(self).normal_view() == old(self).normal_view().push(old(self).normal_default()),
    ;

    /// Removes the last element and returns it, or `None` from an empty
    /// container. Where the container kept the default in its place, the
    /// result is a clone of the default.
    fn n_pop(&mut self) -> (r: Option<T>)
        requires
            old(self).normal_wf(),
        ensures
            final(self).normal_wf(),
            final(self).normal_default() == old(self).normal_default(),
            old(self).normal_view().len() == 0 ==> r is None && final(self).normal_view() == old(self).normal_view(),
            old(self).normal_view().len() > 0 ==> r is Some && final(self).normal_view() == old(self).normal_view().drop_last(),
    ;

    /// Inserts `elem` at position `index`; the elements at or behind that
    /// position move up by one.
    fn n_insert(&mut self, index: usize, elem: T)
        requires
            old(self).normal_wf(),
            index <= old(self).normal_view().len(),
            old(self).normal_view().len() < usize::MAX,
        ensures
            final(self).normal_wf(),
            final(self).normal_default() == old(self).normal_default(),
            final(self).normal_view() == old(self).normal_view().insert(index as int, elem)
                || final(self).normal_view() == old(self).normal_view().insert(
                index as int,
                old(self).normal_default(),
            ),
    ;
}

impl<T: Default + PartialEq + Clone> NormalVecMethods<T> for DefaultSparseVec<T> {
    open spec fn normal_wf(&self) -> bool {
        self.wf()
    }

    open spec fn normal_view(&self) -> Seq<T> {
        self@
    }

    open spec fn normal_default(&self) -> T {
        self.spec_default()
    }

    /// `push`: the element reads back as the default exactly if it equals it.
    fn n_push(&mut self, elem: T)
        ensures
            T::obeys_eq_spec() ==> final(self)@ == old(self)@.push(
                kept(elem, old(self).spec_default()),
            ),
            T::obeys_eq_spec() && old(self).is_compact() ==> final(self).is_compact(),
    {
        self.push(elem);
    }

    /// `pop`: the last element itself where it was stored, else a clone of
    /// the default.
    fn n_pop(&mut self) -> (r: Option<T>)
        ensures
            old(self).len() > 0 && old(self).stores(old(self).len() - 1) ==> r == Some(
                old(self)@.last(),
            ),
            old(self).len() > 0 && !old(self).stores(old(self).len() - 1) ==> cloned(
                old(self).spec_default(),
                r.unwrap(),
            ),
            old(self).is_compact() ==> final(self).is_compact(),
    {
        self.pop()
    }

    /// `insert`: the element reads back as the default exactly if it equals
    /// it.
    fn n_insert(&mut self, index: usize, elem: T)
        ensures
            T::obeys_eq_spec() ==> final(self)@ == old(self)@.insert(
                index as int,
                kept(elem, old(self).spec_default()),
            ),
            T::obeys_eq_spec() && old(self).is_compact() ==> final(self).is_compact(),
    {
        self.insert(index, elem);
    }
}

} // verus!
