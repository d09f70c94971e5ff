use vec_plus::vec::default_sparse_vec::{AppendError, DefaultSparseVec};
use vec_plus::vec::index_array::{locate, shift_down_from, shift_up_from};

fn sparse(items: Vec<i32>) -> DefaultSparseVec<i32> {
    DefaultSparseVec::from(items)
}

fn entries(v: &DefaultSparseVec<i32>) -> Vec<(usize, i32)> {
    v.iter().into_iter().map(|(i, x)| (i, *x)).collect()
}

#[test]
fn locate_in_empty_array_is_not_found_at_zero() {
    assert_eq!(locate(&vec![], 7), Err(0));
}

#[test]
fn locate_finds_every_entry() {
    let indices = vec![1, 4, 6, 9, 12];
    for (p, i) in indices.iter().enumerate() {
        assert_eq!(locate(&indices, *i), Ok(p));
    }
}

#[test]
fn locate_gives_the_insertion_position() {
    let indices = vec![1, 4, 6, 9, 12];
    assert_eq!(locate(&indices, 0), Err(0));
    assert_eq!(locate(&indices, 2), Err(1));
    assert_eq!(locate(&indices, 5), Err(2));
    assert_eq!(locate(&indices, 8), Err(3));
    assert_eq!(locate(&indices, 10), Err(4));
    assert_eq!(locate(&indices, 13), Err(5));
    assert_eq!(locate(&vec![3], 3), Ok(0));
    assert_eq!(locate(&vec![3], 2), Err(0));
    assert_eq!(locate(&vec![3], 4), Err(1));
}

#[test]
fn shift_up_and_down_renumber_the_tail() {
    let mut indices = vec![1, 4, 6, 9];
    shift_up_from(&mut indices, 2);
    assert_eq!(indices, vec![1, 4, 7, 10]);
    shift_down_from(&mut indices, 1);
    assert_eq!(indices, vec![1, 3, 6, 9]);
    shift_up_from(&mut indices, 4);
    assert_eq!(indices, vec![1, 3, 6, 9]);
}

#[test]
fn new_is_empty() {
    let v = DefaultSparseVec::<i32>::new();
    assert_eq!(v.len(), 0);
    assert_eq!(v.nnz(), 0);
    assert!(v.is_empty());
    assert_eq!(v.capacity(), 0);
    assert_eq!(*v.default_value(), 0);
    assert_eq!(v.get(0), None);
}

#[test]
fn new_of_a_zero_sized_type_has_unbounded_capacity() {
    let mut v = DefaultSparseVec::<()>::new();
    assert_eq!(v.capacity(), usize::MAX);
    v.push(());
    assert_eq!(v.len(), 1);
    assert_eq!(v.nnz(), 0);
}

#[test]
fn with_default_elides_the_given_value() {
    let mut v = DefaultSparseVec::with_default(7);
    v.push(7);
    v.push(0);
    assert_eq!(v.nnz(), 1);
    assert_eq!(v.to_vec(), vec![7, 0]);
    assert_eq!(entries(&v), vec![(1, 0)]);
}

#[test]
fn with_capacity_reserves() {
    let v = DefaultSparseVec::<i32>::with_capacity(5);
    assert_eq!(v.capacity(), 5);
    assert_eq!(v.len(), 0);
    assert_eq!(v.nnz(), 0);
}

#[test]
fn push_stores_only_non_default() {
    let mut v = DefaultSparseVec::<i32>::new();
    v.push(0);
    assert_eq!((v.len(), v.nnz()), (1, 0));
    v.push(5);
    assert_eq!((v.len(), v.nnz()), (2, 1));
    assert_eq!(entries(&v), vec![(1, 5)]);
    assert_eq!(v.as_slice_ind(), &[1]);
    assert_eq!(v.as_slice_val(), &[5]);
}

#[test]
fn capacity_doubles_from_one() {
    let mut v = DefaultSparseVec::<i32>::new();
    assert_eq!(v.capacity(), 0);
    v.push(1);
    assert_eq!(v.capacity(), 1);
    v.push(2);
    assert_eq!(v.capacity(), 2);
    v.push(3);
    assert_eq!(v.capacity(), 4);
    v.push(4);
    assert_eq!(v.capacity(), 4);
    v.push(5);
    assert_eq!(v.capacity(), 8);
}

#[test]
fn push_of_a_default_grows_full_arrays_too() {
    let mut v = DefaultSparseVec::<i32>::new();
    v.push(0);
    assert_eq!(v.capacity(), 1);
    v.push(0);
    assert_eq!(v.capacity(), 1);
}

#[test]
fn pop_on_empty_is_none() {
    let mut v = DefaultSparseVec::<i32>::new();
    assert_eq!(v.pop(), None);
    assert_eq!(v.len(), 0);
}

#[test]
fn pop_returns_stored_and_default_elements() {
    let mut v = sparse(vec![3, 0, 4, 0]);
    assert_eq!(v.pop(), Some(0));
    assert_eq!((v.len(), v.nnz()), (3, 2));
    assert_eq!(v.pop(), Some(4));
    assert_eq!((v.len(), v.nnz()), (2, 1));
    assert_eq!(v.pop(), Some(0));
    assert_eq!(v.pop(), Some(3));
    assert_eq!((v.len(), v.nnz()), (0, 0));
    assert_eq!(v.pop(), None);
}

#[test]
fn pop_takes_a_stored_last_element_behind_elided_ones() {
    let mut v = sparse(vec![0, 5]);
    assert_eq!(v.nnz(), 1);
    assert_eq!(v.pop(), Some(5));
    assert_eq!((v.len(), v.nnz()), (1, 0));
    assert_eq!(v.to_vec(), vec![0]);
    assert_eq!(v.pop(), Some(0));
    assert_eq!(v.pop(), None);
}

#[test]
fn get_reads_stored_default_and_absent() {
    let v = sparse(vec![0, 8, 0]);
    assert_eq!(v.get(0), Some(&0));
    assert_eq!(v.get(1), Some(&8));
    assert_eq!(v.get(2), Some(&0));
    assert_eq!(v.get(3), None);
    assert_eq!(v.nnz(), 1);
}

#[test]
fn get_mut_out_of_bounds_is_none_and_changes_nothing() {
    let mut v = sparse(vec![0, 8, 0]);
    assert!(v.get_mut(3).is_none());
    assert_eq!(v.to_vec(), vec![0, 8, 0]);
    assert_eq!(v.nnz(), 1);
}

#[test]
fn get_mut_of_a_stored_position_refers_to_it() {
    let mut v = sparse(vec![0, 8, 0]);
    let slot = v.get_mut(1).unwrap();
    assert_eq!(*slot, 8);
    *slot = 9;
    assert_eq!(v.to_vec(), vec![0, 9, 0]);
    assert_eq!(v.nnz(), 1);
}

#[test]
fn get_mut_materializes_an_elided_position() {
    let mut v = sparse(vec![4, 0, 8, 0]);
    let slot = v.get_mut(1).unwrap();
    assert_eq!(*slot, 0);
    *slot = 6;
    assert_eq!(v.to_vec(), vec![4, 6, 8, 0]);
    assert_eq!(entries(&v), vec![(0, 4), (1, 6), (2, 8)]);
    assert_eq!(v.len(), 4);
}

#[test]
fn get_mut_left_untouched_stores_a_default() {
    let mut v = sparse(vec![4, 0]);
    assert!(v.get_mut(1).is_some());
    assert_eq!(v.nnz(), 2);
    assert_eq!(v.to_vec(), vec![4, 0]);
    assert_eq!(entries(&v), vec![(0, 4), (1, 0)]);
}

#[test]
fn get_then_get_mut_agree() {
    let mut v = sparse(vec![4, 0, 8]);
    for i in 0..3 {
        let shown = *v.get_mut(i).unwrap();
        assert_eq!(v.get(i), Some(&shown));
    }
    assert_eq!(v.to_vec(), vec![4, 0, 8]);
}

#[test]
fn insert_displaces_a_stored_entry() {
    let mut v = sparse(vec![1, 0, 3]);
    v.insert(2, 9);
    assert_eq!(v.to_vec(), vec![1, 0, 9, 3]);
    assert_eq!(entries(&v), vec![(0, 1), (2, 9), (3, 3)]);
}

#[test]
fn insert_at_front_middle_and_end() {
    let mut v = sparse(vec![1, 0, 3]);
    v.insert(0, 7);
    assert_eq!(v.to_vec(), vec![7, 1, 0, 3]);
    v.insert(4, 8);
    assert_eq!(v.to_vec(), vec![7, 1, 0, 3, 8]);
    v.insert(2, 5);
    assert_eq!(v.to_vec(), vec![7, 1, 5, 0, 3, 8]);
    assert_eq!(entries(&v), vec![(0, 7), (1, 1), (2, 5), (4, 3), (5, 8)]);
    assert_eq!((v.len(), v.nnz()), (6, 5));
}

#[test]
fn insert_of_a_default_only_shifts() {
    let mut v = sparse(vec![1, 0, 3]);
    v.insert(1, 0);
    assert_eq!(v.to_vec(), vec![1, 0, 0, 3]);
    assert_eq!(entries(&v), vec![(0, 1), (3, 3)]);
    v.insert(0, 0);
    assert_eq!(entries(&v), vec![(1, 1), (4, 3)]);
    v.insert(5, 0);
    assert_eq!(entries(&v), vec![(1, 1), (4, 3)]);
    assert_eq!((v.len(), v.nnz()), (6, 2));
}

#[test]
fn insert_into_empty() {
    let mut v = DefaultSparseVec::<i32>::new();
    v.insert(0, 3);
    assert_eq!(v.to_vec(), vec![3]);
    assert_eq!(v.capacity(), 1);
}

#[test]
fn remove_of_a_stored_position() {
    let mut v = sparse(vec![1, 0, 3, 4]);
    assert_eq!(v.remove(2), 3);
    assert_eq!(v.to_vec(), vec![1, 0, 4]);
    assert_eq!(entries(&v), vec![(0, 1), (2, 4)]);
    assert_eq!(v.remove(0), 1);
    assert_eq!(entries(&v), vec![(1, 4)]);
    assert_eq!(v.remove(1), 4);
    assert_eq!((v.len(), v.nnz()), (1, 0));
}

#[test]
fn remove_of_an_elided_position() {
    let mut v = sparse(vec![1, 0, 3, 0]);
    assert_eq!(v.remove(1), 0);
    assert_eq!(v.to_vec(), vec![1, 3, 0]);
    assert_eq!(entries(&v), vec![(0, 1), (1, 3)]);
    assert_eq!(v.remove(2), 0);
    assert_eq!(entries(&v), vec![(0, 1), (1, 3)]);
    assert_eq!((v.len(), v.nnz()), (2, 2));
}

#[test]
fn insert_then_remove_restores_the_vector() {
    let start = vec![1, 0, 3, 0, 0, 6];
    for i in 0..=start.len() {
        let mut v = sparse(start.clone());
        let before = entries(&v);
        v.insert(i, 42);
        assert_eq!(v.nnz(), before.len() + 1);
        assert_eq!(v.remove(i), 42);
        assert_eq!(v.to_vec(), start);
        assert_eq!(entries(&v), before);
    }
}

#[test]
fn append_joins_and_offsets() {
    let mut a = sparse(vec![1, 0, 3]);
    let b = sparse(vec![0, 5, 0, 7]);
    assert_eq!(a.append(b), Ok(()));
    assert_eq!(a.to_vec(), vec![1, 0, 3, 0, 5, 0, 7]);
    assert_eq!(entries(&a), vec![(0, 1), (2, 3), (4, 5), (6, 7)]);
    assert_eq!((a.len(), a.nnz()), (7, 4));
    assert_eq!(a.capacity(), 4);
}

#[test]
fn append_keeps_a_capacity_that_suffices() {
    let mut a = DefaultSparseVec::<i32>::with_capacity(10);
    a.push(1);
    let b = sparse(vec![2, 0, 3]);
    assert_eq!(a.append(b), Ok(()));
    assert_eq!(a.capacity(), 10);
    assert_eq!(a.to_vec(), vec![1, 2, 0, 3]);
}

#[test]
fn append_of_empty_changes_nothing() {
    let mut a = sparse(vec![1, 0, 3]);
    let b = DefaultSparseVec::with_default(9);
    assert_eq!(a.append(b), Ok(()));
    assert_eq!(a.to_vec(), vec![1, 0, 3]);
    assert_eq!(a.capacity(), 2);
}

#[test]
fn append_rejects_another_default() {
    let mut a = sparse(vec![1, 0, 3]);
    let mut b = DefaultSparseVec::with_default(9);
    b.push(4);
    assert_eq!(a.append(b), Err(AppendError::DefaultMismatch));
    assert_eq!(a.to_vec(), vec![1, 0, 3]);
    assert_eq!(entries(&a), vec![(0, 1), (2, 3)]);
}

#[test]
fn append_of_elided_only() {
    let mut a = sparse(vec![1]);
    let b = sparse(vec![0, 0]);
    assert_eq!(a.append(b), Ok(()));
    assert_eq!(a.to_vec(), vec![1, 0, 0]);
    assert_eq!(a.nnz(), 1);
}

#[test]
fn extend_pushes_in_order() {
    let mut v = sparse(vec![0, 2]);
    v.extend(vec![0, 3, 0, 4]);
    assert_eq!(v.to_vec(), vec![0, 2, 0, 3, 0, 4]);
    assert_eq!(entries(&v), vec![(1, 2), (3, 3), (5, 4)]);
    v.extend(vec![]);
    assert_eq!(v.len(), 6);
}

#[test]
fn clear_empties_and_keeps_capacity() {
    let mut v = sparse(vec![1, 0, 3]);
    v.reserve(6);
    let cap = v.capacity();
    v.clear();
    assert_eq!((v.len(), v.nnz()), (0, 0));
    assert_eq!(v.capacity(), cap);
    assert_eq!(v.to_vec(), Vec::<i32>::new());
}

#[test]
fn reserve_raises_capacity_only_if_needed() {
    let mut v = sparse(vec![1, 0, 3]);
    assert_eq!(v.capacity(), 2);
    v.reserve(0);
    assert_eq!(v.capacity(), 2);
    v.reserve(5);
    assert_eq!(v.capacity(), 7);
    v.reserve(3);
    assert_eq!(v.capacity(), 7);
    assert_eq!(v.to_vec(), vec![1, 0, 3]);
}

#[test]
fn shrink_to_fit_keeps_the_elements() {
    let mut v = DefaultSparseVec::<i32>::with_capacity(16);
    v.extend(vec![1, 0, 3]);
    assert_eq!(v.capacity(), 16);
    v.shrink_to_fit();
    assert_eq!(v.capacity(), 2);
    assert_eq!(v.to_vec(), vec![1, 0, 3]);
    assert_eq!(entries(&v), vec![(0, 1), (2, 3)]);
}

#[test]
fn mutable_slices_write_through() {
    let mut v = sparse(vec![1, 0, 3]);
    v.as_mut_slice_val()[1] = 9;
    assert_eq!(v.to_vec(), vec![1, 0, 9]);
    v.as_mut_slice_ind()[1] = 1;
    assert_eq!(v.to_vec(), vec![1, 9, 0]);
    {
        let (ind, val) = v.as_mut_slices();
        ind[0] = 0;
        val[0] = 5;
    }
    assert_eq!(entries(&v), vec![(0, 5), (1, 9)]);
}

#[test]
fn default_is_new() {
    let v: DefaultSparseVec<u8> = Default::default();
    assert_eq!((v.len(), v.nnz(), v.capacity()), (0, 0, 0));
}

#[test]
fn extend_grows_as_its_pushes_do() {
    let mut v = DefaultSparseVec::<i32>::new();
    v.extend(vec![1, 0, 2, 3]);
    assert_eq!(v.capacity(), 4);
    let mut w = DefaultSparseVec::<i32>::with_capacity(3);
    w.extend(vec![1, 2, 0, 3]);
    assert_eq!(w.capacity(), 3);
    w.extend(vec![0]);
    assert_eq!(w.capacity(), 6);
}
