use vec_plus::vec::default_sparse_vec::DefaultSparseVec;
use vec_plus::vec::normal_vec_trait::NormalVecMethods;
use vec_plus::vec::sparse_vec::ZeroSparseVec;
use vec_plus::vec::vec_trait::{checked_dot, Math};

fn dense_dot(a: &[u64], b: &[u64]) -> u64 {
    a.iter().zip(b.iter()).map(|(x, y)| x * y).sum()
}

#[test]
fn dot_of_sparse_is_dot_of_dense() {
    let cases: Vec<(Vec<u64>, Vec<u64>)> = vec![
        (vec![], vec![]),
        (vec![0, 0], vec![0, 0]),
        (vec![1, 2, 3], vec![4, 5, 6]),
        (vec![0, 2, 0, 4], vec![1, 0, 3, 5]),
        (vec![7, 0, 0, 0, 2], vec![0, 0, 0, 0, 9]),
        (vec![0, 0, 3], vec![5, 5, 0]),
        (vec![1, 1, 1, 1], vec![0, 0, 0, 0]),
    ];
    for (a, b) in cases {
        let expected = dense_dot(&a, &b);
        let sa = DefaultSparseVec::from(a.clone());
        let sb = DefaultSparseVec::from(b.clone());
        assert_eq!(sa.u64_dot(&sb), expected);
        assert_eq!(sb.u64_dot(&sa), expected);
        assert_eq!(sa.checked_u64_dot(&sb), Some(expected));
        let za = ZeroSparseVec::from(a);
        let zb = ZeroSparseVec::from(b);
        assert_eq!(za.u64_dot(&zb), expected);
        assert_eq!(za.checked_u64_dot(&zb), Some(expected));
    }
}

#[test]
fn dot_exact_value() {
    let a = DefaultSparseVec::from(vec![0u64, 2, 0, 4, 6]);
    let b = DefaultSparseVec::from(vec![9u64, 3, 5, 0, 7]);
    assert_eq!(a.u64_dot(&b), 2 * 3 + 6 * 7);
}

#[test]
fn dot_of_different_lengths_counts_the_common_positions() {
    let a = DefaultSparseVec::from(vec![1u64, 2, 3]);
    let b = DefaultSparseVec::from(vec![4u64, 5]);
    assert_eq!(a.u64_dot(&b), 14);
    assert_eq!(b.u64_dot(&a), 14);
}

#[test]
fn checked_dot_reports_overflow() {
    let a = DefaultSparseVec::from(vec![u64::MAX, 1]);
    let b = DefaultSparseVec::from(vec![2u64, 1]);
    assert_eq!(a.checked_u64_dot(&b), None);
    let c = DefaultSparseVec::from(vec![u64::MAX, 1]);
    let d = DefaultSparseVec::from(vec![1u64, 1]);
    assert_eq!(c.checked_u64_dot(&d), None);
    let e = DefaultSparseVec::from(vec![u64::MAX - 1, 1]);
    assert_eq!(e.checked_u64_dot(&d), Some(u64::MAX));
}

#[test]
fn checked_dot_on_plain_arrays() {
    assert_eq!(checked_dot(&[1, 4, 6], &[2, 3, 5], &[0, 4, 6, 9], &[7, 10, 100, 1], 7), Some(530));
    assert_eq!(checked_dot(&[], &[], &[0], &[7], 0), Some(0));
    assert_eq!(checked_dot(&[0], &[7], &[], &[], 1), Some(0));
}

#[test]
fn dot_skips_positions_stored_on_one_side_only() {
    let mut a = DefaultSparseVec::with_default(5u64);
    a.extend(vec![5, 2, 5]);
    let b = DefaultSparseVec::from(vec![1u64, 1, 1]);
    assert_eq!(a.u64_dot(&b), 2);
}

#[test]
fn normal_vec_methods_behave_like_a_vector() {
    let mut v = DefaultSparseVec::<i32>::new();
    v.n_push(1);
    v.n_push(0);
    v.n_push(3);
    assert_eq!(v.to_vec(), vec![1, 0, 3]);
    assert_eq!(v.nnz(), 2);
    v.n_insert(1, 9);
    v.n_insert(0, 0);
    assert_eq!(v.to_vec(), vec![0, 1, 9, 0, 3]);
    assert_eq!(v.nnz(), 3);
    assert_eq!(v.n_pop(), Some(3));
    assert_eq!(v.n_pop(), Some(0));
    assert_eq!(v.n_pop(), Some(9));
    assert_eq!(v.to_vec(), vec![0, 1]);
    assert_eq!(v.n_pop(), Some(1));
    assert_eq!(v.n_pop(), Some(0));
    assert_eq!(v.n_pop(), None);
}
