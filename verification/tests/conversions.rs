use vec_plus::vec::default_sparse_vec::DefaultSparseVec;
use vec_plus::vec::sparse_vec::ZeroSparseVec;

#[test]
fn dense_round_trip() {
    let cases: Vec<Vec<i32>> = vec![
        vec![],
        vec![0],
        vec![5],
        vec![0, 0, 0],
        vec![1, 2, 3],
        vec![0, 7, 0, 0, -3, 0],
        vec![9, 0, 0, 0, 0, 0, 0, 1],
    ];
    for v in cases {
        let s = DefaultSparseVec::from(v.clone());
        assert_eq!(s.len(), v.len());
        assert_eq!(s.nnz(), v.iter().filter(|x| **x != 0).count());
        assert_eq!(s.capacity(), s.nnz());
        assert_eq!(s.to_vec(), v);
        let z = ZeroSparseVec::from(v.clone());
        assert_eq!(z.len(), v.len());
        assert_eq!(z.nnz(), v.iter().filter(|x| **x != 0).count());
        assert_eq!(z.to_vec(), v);
    }
}

#[test]
fn from_vec_keeps_indices_sorted_and_values_non_default() {
    let s = DefaultSparseVec::from(vec![0u8, 4, 0, 0, 2, 9, 0]);
    assert_eq!(s.as_slice_ind(), &[1, 4, 5]);
    assert_eq!(s.as_slice_val(), &[4, 2, 9]);
}

#[test]
fn from_pairs_inserts_in_order() {
    let s = DefaultSparseVec::from_pairs(vec![(0, 5), (0, 6), (1, 0), (3, 7)]);
    assert_eq!(s.to_vec(), vec![6, 0, 5, 7]);
    assert_eq!(s.nnz(), 3);
    assert_eq!(s.capacity(), 3);
    let empty = DefaultSparseVec::<i32>::from_pairs(vec![]);
    assert_eq!(empty.len(), 0);
}

#[test]
fn strings_are_elided_when_empty() {
    let mut s = DefaultSparseVec::<String>::new();
    s.push(String::new());
    s.push("a".to_string());
    s.push(String::new());
    assert_eq!(s.nnz(), 1);
    assert_eq!(s.to_vec(), vec!["".to_string(), "a".to_string(), "".to_string()]);
    assert_eq!(s.remove(1), "a");
    assert_eq!(s.pop(), Some(String::new()));
}
