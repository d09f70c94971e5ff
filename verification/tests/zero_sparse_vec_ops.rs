use vec_plus::vec::sparse_vec::ZeroSparseVec;

fn sparse(items: Vec<i32>) -> ZeroSparseVec<i32> {
    ZeroSparseVec::from(items)
}

#[test]
fn zero_new_takes_the_parts_as_given() {
    let v = ZeroSparseVec::new(5, vec![1, 3], vec![10, 30]);
    assert_eq!(v.len(), 5);
    assert_eq!(v.nnz(), 2);
    assert_eq!(v.sparse_indices(), &[1, 3]);
    assert_eq!(v.sparse_values(), &[10, 30]);
    assert_eq!(v.to_vec(), vec![0, 10, 0, 30, 0]);
}

#[test]
fn zero_with_capacity_is_empty() {
    let v = ZeroSparseVec::<i32>::with_capacity(8);
    assert_eq!((v.len(), v.nnz()), (0, 0));
    assert!(v.is_empty());
    assert_eq!(v, ZeroSparseVec::default());
}

#[test]
fn zero_scenario() {
    let mut v = ZeroSparseVec::<i32>::default();
    v.push(10);
    v.push(0);
    v.push(30);
    assert_eq!(v.to_vec(), vec![10, 0, 30]);
    assert_eq!(v.nnz(), 2);
    assert_eq!(v.get(&0), Some(&10));
    *v.get_mut(&1).unwrap() = 100;
    assert_eq!(v.to_vec(), vec![10, 100, 30]);
    assert_eq!((v.len(), v.nnz()), (3, 3));
    v.extend(&vec![1, 0, 3]);
    assert_eq!(v.to_vec(), vec![10, 100, 30, 1, 0, 3]);
    assert_eq!((v.len(), v.nnz()), (6, 5));
}

#[test]
fn zero_get_and_index_agree() {
    let v = sparse(vec![0, 8, 0]);
    for i in 0..4 {
        assert_eq!(v.get(&i), v.index(&i));
    }
    assert_eq!(v.get(&1), Some(&8));
    assert_eq!(v.get(&2), Some(&0));
    assert_eq!(v.get(&3), None);
}

#[test]
fn zero_get_mut_keeps_the_length() {
    let mut v = sparse(vec![4, 0, 8, 0]);
    assert_eq!(*v.get_mut(&3).unwrap(), 0);
    assert_eq!(v.len(), 4);
    assert_eq!(v.nnz(), 3);
    assert_eq!(v.sparse_indices(), &[0, 2, 3]);
    *v.index_mut(&1).unwrap() = 5;
    assert_eq!(v.to_vec(), vec![4, 5, 8, 0]);
    assert_eq!(v.sparse_indices(), &[0, 1, 2, 3]);
    assert!(v.get_mut(&4).is_none());
    assert!(v.index_mut(&9).is_none());
    assert_eq!(v.len(), 4);
}

#[test]
fn zero_pop_returns_defaults_too() {
    let mut v = sparse(vec![0, 0]);
    assert_eq!(v.pop(), Some(0));
    assert_eq!(v.pop(), Some(0));
    assert_eq!(v.pop(), None);
    let mut w = sparse(vec![0, 5, 0]);
    assert_eq!(w.pop(), Some(0));
    assert_eq!(w.pop(), Some(5));
    assert_eq!((w.len(), w.nnz()), (1, 0));
    assert_eq!(w.pop(), Some(0));
    assert_eq!(w.pop(), None);
}

#[test]
fn zero_first_and_last() {
    let v = sparse(vec![3, 0, 0]);
    assert_eq!(v.first(), Some(&3));
    assert_eq!(v.last(), Some(&0));
    let e = ZeroSparseVec::<i32>::default();
    assert_eq!(e.first(), None);
    assert_eq!(e.last(), None);
}

#[test]
fn zero_first_mut_and_last_mut() {
    let mut v = sparse(vec![3, 0, 0]);
    *v.first_mut().unwrap() = 4;
    *v.last_mut().unwrap() = 6;
    assert_eq!(v.to_vec(), vec![4, 0, 6]);
    assert_eq!(v.nnz(), 2);
    let mut e = ZeroSparseVec::<i32>::default();
    assert!(e.first_mut().is_none());
    assert!(e.last_mut().is_none());
    assert_eq!(e.len(), 0);
}

#[test]
fn zero_iter_walks_every_position() {
    let v = sparse(vec![0, 7, 0, 9]);
    let all: Vec<i32> = v.iter().into_iter().copied().collect();
    assert_eq!(all, vec![0, 7, 0, 9]);
    assert_eq!(ZeroSparseVec::<i32>::default().iter().len(), 0);
}

#[test]
fn zero_sparse_iter_walks_the_stored_entries() {
    let v = sparse(vec![0, 7, 0, 9]);
    let stored: Vec<(usize, i32)> = v.sparse_iter().into_iter().map(|(i, x)| (*i, *x)).collect();
    assert_eq!(stored, vec![(1, 7), (3, 9)]);
}

#[test]
fn zero_parts_can_be_changed_in_place() {
    let mut v = sparse(vec![0, 7, 0, 9]);
    v.sparse_values_mut()[0] = 8;
    v.sparse_indices_mut()[0] = 0;
    assert_eq!(v.to_vec(), vec![8, 0, 0, 9]);
    *v.sparse_len_mut() = 6;
    assert_eq!(v.len(), 6);
    assert_eq!(v.to_vec(), vec![8, 0, 0, 9, 0, 0]);
    {
        let (ind, val) = v.sparse_iter_mut();
        for (i, x) in ind.iter_mut().zip(val.iter_mut()) {
            *i += 1;
            *x *= 2;
        }
    }
    assert_eq!(v.to_vec(), vec![0, 16, 0, 0, 18, 0]);
}

#[test]
fn zero_extend_clones_and_append_drains() {
    let mut v = sparse(vec![1]);
    let more = vec![0, 2];
    v.extend(&more);
    assert_eq!(more, vec![0, 2]);
    assert_eq!(v.to_vec(), vec![1, 0, 2]);
    let mut rest = vec![3, 0];
    v.append(&mut rest);
    assert!(rest.is_empty());
    assert_eq!(v.to_vec(), vec![1, 0, 2, 3, 0]);
    assert_eq!(v.sparse_indices(), &[0, 2, 3]);
}

#[test]
fn zero_sparse_extend_and_sparse_append() {
    let mut v = sparse(vec![1, 0]);
    let other = sparse(vec![0, 2, 0]);
    v.sparse_extend(&other);
    assert_eq!(v.to_vec(), vec![1, 0, 0, 2, 0]);
    assert_eq!(other.to_vec(), vec![0, 2, 0]);
    let mut third = sparse(vec![5, 0]);
    v.sparse_append(&mut third);
    assert_eq!(v.to_vec(), vec![1, 0, 0, 2, 0, 5, 0]);
    assert_eq!((third.len(), third.nnz()), (0, 0));
    assert_eq!(v.sparse_indices(), &[0, 3, 5]);
}

#[test]
fn zero_clear_empties() {
    let mut v = sparse(vec![1, 0, 2]);
    v.clear();
    assert_eq!((v.len(), v.nnz()), (0, 0));
    assert_eq!(v.to_vec(), Vec::<i32>::new());
}

#[test]
fn zero_subset_cuts_and_renumbers() {
    let v = sparse(vec![1, 0, 3, 4, 0, 6]);
    let s = v.subset(2..5);
    assert_eq!(s.to_vec(), vec![3, 4, 0]);
    assert_eq!(s.sparse_indices(), &[0, 1]);
    assert_eq!(v.subset(0..6), v);
    assert_eq!(v.subset(3..3).len(), 0);
    assert_eq!(v.subset(1..2).to_vec(), vec![0]);
}

#[test]
fn zero_subset_past_the_end_is_padded_with_defaults() {
    let v = sparse(vec![1, 2]);
    let s = v.subset(1..4);
    assert_eq!(s.to_vec(), vec![2, 0, 0]);
    assert_eq!(s.nnz(), 1);
}

#[test]
fn zero_compress_takes_stored_defaults_away() {
    let mut v = sparse(vec![4, 0, 8, 0]);
    assert!(v.get_mut(&1).is_some());
    assert!(v.get_mut(&3).is_some());
    *v.get_mut(&0).unwrap() = 0;
    assert_eq!(v.nnz(), 4);
    v.compress();
    assert_eq!(v.nnz(), 1);
    assert_eq!(v.sparse_indices(), &[2]);
    assert_eq!(v.sparse_values(), &[8]);
    assert_eq!(v.len(), 4);
    assert_eq!(v.to_vec(), vec![0, 0, 8, 0]);
    v.compress();
    assert_eq!(v.nnz(), 1);
}
