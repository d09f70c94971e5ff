use vec_plus::vec::default_sparse_vec::DefaultSparseVec;

fn check(v: &DefaultSparseVec<i32>, model: &Vec<i32>) {
    assert_eq!(v.len(), model.len());
    assert_eq!(v.to_vec(), *model);
    let ind = v.as_slice_ind();
    let val = v.as_slice_val();
    assert_eq!(ind.len(), val.len());
    assert_eq!(v.nnz(), ind.len());
    assert!(v.nnz() <= v.len());
    assert!(v.nnz() <= v.capacity());
    for k in 0..ind.len() {
        assert!(ind[k] < v.len());
        assert_ne!(val[k], 0);
        assert_eq!(val[k], model[ind[k]]);
        if k > 0 {
            assert!(ind[k - 1] < ind[k]);
        }
    }
    assert_eq!(v.nnz(), model.iter().filter(|x| **x != 0).count());
}

#[test]
fn operations_keep_the_vector_sparse_and_sorted() {
    let mut v = DefaultSparseVec::<i32>::new();
    let mut model: Vec<i32> = Vec::new();
    let mut seed: u32 = 12345;
    for _ in 0..2000 {
        seed = seed.wrapping_mul(1664525).wrapping_add(1013904223);
        let op = (seed >> 24) % 4;
        let value = if (seed >> 16) % 3 == 0 { 0 } else { ((seed >> 8) % 7) as i32 };
        let len_before = v.len();
        let nnz_before = v.nnz();
        match op {
            0 => {
                v.push(value);
                model.push(value);
                assert_eq!(v.len(), len_before + 1);
                assert_eq!(v.nnz(), nnz_before + usize::from(value != 0));
            }
            1 => {
                let popped = model.pop();
                assert_eq!(v.pop(), popped);
                if let Some(x) = popped {
                    assert_eq!(v.len(), len_before - 1);
                    assert_eq!(v.nnz(), nnz_before - usize::from(x != 0));
                } else {
                    assert_eq!(v.len(), 0);
                }
            }
            2 => {
                let at = (seed as usize >> 3) % (model.len() + 1);
                v.insert(at, value);
                model.insert(at, value);
                assert_eq!(v.len(), len_before + 1);
                assert_eq!(v.nnz(), nnz_before + usize::from(value != 0));
            }
            _ => {
                if !model.is_empty() {
                    let at = (seed as usize >> 3) % model.len();
                    let taken = model.remove(at);
                    assert_eq!(v.remove(at), taken);
                    assert_eq!(v.len(), len_before - 1);
                    assert_eq!(v.nnz(), nnz_before - usize::from(taken != 0));
                }
            }
        }
        check(&v, &model);
    }
}
