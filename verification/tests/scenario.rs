use vec_plus::vec::default_sparse_vec::DefaultSparseVec;

#[test]
fn push_remove_insert_scenario() {
    let mut svec = DefaultSparseVec::<i32>::new();
    svec.push(10);
    svec.push(0);
    svec.push(30);
    assert_eq!(svec.to_vec(), vec![10, 0, 30]);
    assert_eq!(svec.nnz(), 2);
    assert_eq!(svec.remove(1), 0);
    assert_eq!(svec.to_vec(), vec![10, 30]);
    svec.push(0);
    svec.push(0);
    svec.push(0);
    assert_eq!(svec.to_vec(), vec![10, 30, 0, 0, 0]);
    assert_eq!(svec.nnz(), 2);
    svec.insert(4, 100);
    assert_eq!(svec.to_vec(), vec![10, 30, 0, 0, 100, 0]);
    assert_eq!(svec.nnz(), 3);
    assert_eq!(svec.get(0), Some(&10));
    let a = svec.get_mut(2).unwrap();
    *a = 100;
    assert_eq!(svec.to_vec(), vec![10, 30, 100, 0, 100, 0]);
    assert_eq!(svec.nnz(), 4);
    svec.extend(vec![1, 2, 3, 4, 5]);
    assert_eq!(svec.len(), 11);
    assert_eq!(svec.nnz(), 9);
    assert_eq!(svec.to_vec(), vec![10, 30, 100, 0, 100, 0, 1, 2, 3, 4, 5]);
}
