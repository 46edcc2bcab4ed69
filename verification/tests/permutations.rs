use phi3_mixed_quant::permutation::{
    apply_column_permutation, apply_permutation_into, build_block_wise_permutation,
    build_column_permutation, check_perm, parse_perm, permute_setting, qr_pivot_permutation,
    qr_steps, write_perm, ColumnMeasure, LayerPermCache, PermError, PermStrategy,
};

fn key(x: f64) -> u64 {
    x.to_bits()
}

fn decay(bits: u64) -> u64 {
    (f64::from_bits(bits) * 0.99).to_bits()
}

#[test]
fn columns_are_ranked_by_importance() {
    let norms = [1.0, 3.0, 2.0, 3.0, 0.0].map(key);
    assert_eq!(build_column_permutation(&norms), vec![1, 3, 2, 0, 4]);
    assert_eq!(build_column_permutation(&[]), Vec::<usize>::new());
}

#[test]
fn blocks_are_ranked_apart() {
    let mut norms: Vec<u64> = (0..128).map(|i| key(i as f64)).collect();
    let p = build_block_wise_permutation(&norms);
    assert_eq!(p[0], 63);
    assert_eq!(p[63], 0);
    assert_eq!(p[64], 127);
    assert_eq!(p[127], 64);
    norms.push(key(500.0));
    assert_eq!(build_block_wise_permutation(&norms)[0], 128);
}

#[test]
fn pivoting_steps_shrink_with_width() {
    for (k, n) in [
        (64, 64),
        (256, 224),
        (512, 384),
        (1024, 682),
        (2048, 1024),
        (3072, 512),
        (8192, 512),
        (2052, 512),
        (65, 56),
        (0, 0),
    ] {
        assert_eq!(qr_steps(k), n);
    }
}

#[test]
fn pivots_are_chosen_largest_first() {
    let norms: Vec<u64> = [2.0, 5.0, 1.0, 4.0].map(key).to_vec();
    assert_eq!(qr_pivot_permutation(10, norms.clone(), decay), vec![1, 3, 0, 2]);
    assert_eq!(qr_pivot_permutation(1, norms, decay), vec![1, 0, 2, 3]);
    let wide: Vec<u64> = (0..80).map(|i| key(i as f64)).collect();
    let p = qr_pivot_permutation(1000, wide, decay);
    assert_eq!(&p[..3], &[79, 78, 77]);
    let mut sorted = p.clone();
    sorted.sort();
    assert_eq!(sorted, (0..80).collect::<Vec<_>>());
}

#[test]
fn strategies_are_named() {
    assert_eq!(PermStrategy::from_setting(None), PermStrategy::Block);
    assert_eq!(PermStrategy::from_setting(Some("L2")), PermStrategy::L2);
    assert_eq!(PermStrategy::from_setting(Some("column")), PermStrategy::L2);
    assert_eq!(PermStrategy::from_setting(Some("Variance")), PermStrategy::Svd);
    assert_eq!(PermStrategy::from_setting(Some("svd")), PermStrategy::Svd);
    assert_eq!(PermStrategy::from_setting(Some("qr-pivot")), PermStrategy::Qr);
    assert_eq!(PermStrategy::from_setting(Some("blockwise")), PermStrategy::Block);
    assert_eq!(PermStrategy::from_setting(Some("???")), PermStrategy::Block);
    assert_eq!(PermStrategy::Block.name(), "blockwise");
    assert_eq!(PermStrategy::L2.name(), "l2-norm");
    assert_eq!(PermStrategy::Svd.name(), "svd-importance");
    assert_eq!(PermStrategy::Qr.name(), "qr-pivot");
    assert!(permute_setting(Some("1")));
    assert!(permute_setting(Some("TRUE")));
    assert!(!permute_setting(Some("yes")));
    assert!(!permute_setting(None));
}

#[test]
fn strategies_order_columns() {
    let norms: Vec<u64> = (0..128).map(|i| key(i as f64)).collect();
    assert_eq!(PermStrategy::L2.build(4, norms.clone(), decay)[0], 127);
    assert_eq!(PermStrategy::Svd.build(4, norms.clone(), decay)[127], 0);
    assert_eq!(PermStrategy::Block.build(4, norms.clone(), decay)[0], 63);
    assert_eq!(PermStrategy::Qr.build(200, norms, decay)[0], 127);
}

#[test]
fn first_permutation_of_a_layer_is_kept() {
    let mut c = LayerPermCache::new();
    assert_eq!(c.get_or_compute(3, || vec![1, 0]), vec![1, 0]);
    assert_eq!(c.get_or_compute(3, || panic!("known already")), vec![1, 0]);
    assert_eq!(c.get_or_compute(4, || vec![0, 1]), vec![0, 1]);
    assert_eq!(c.map.len(), 2);
}

#[test]
fn stored_permutations_are_read_back() {
    let p = vec![2usize, 0, 1, 300];
    let b = write_perm(&p);
    assert_eq!(&b[..8], &[0x50, 0x45, 0x52, 0x4D, 4, 0, 0, 0]);
    assert_eq!(b.len(), 24);
    assert_eq!(parse_perm(&b), Ok(p));
    assert_eq!(check_perm(&b), Ok(()));
    assert_eq!(parse_perm(&b[..7]), Err(PermError::TooSmall));
    assert_eq!(
        parse_perm(&b[..23]),
        Err(PermError::Length { got: 23, expected: 24 })
    );
    let mut bad = b.clone();
    bad[0] = 0;
    assert_eq!(parse_perm(&bad), Err(PermError::BadMagic));
    assert_eq!(check_perm(&bad), Err(PermError::BadMagic));
}

#[test]
fn columns_are_permuted_row_by_row() {
    let data = [1, 2, 3, 4, 5, 6];
    assert_eq!(apply_column_permutation(2, 3, &data, &[2, 0, 1]), vec![3, 1, 2, 6, 4, 5]);
    let mut dst = vec![0; 6];
    apply_permutation_into(&data, 2, 3, &[0, 0, 1], &mut dst);
    assert_eq!(dst, vec![1, 1, 2, 4, 4, 5]);
    let none: [i32; 0] = [];
    assert!(apply_column_permutation(5, 0, &none, &[]).is_empty());
}

#[test]
fn dot_products_survive_a_permutation() {
    let w = [3i64, -1, 4, 1];
    let x = [2i64, 7, 1, 8];
    let p = build_column_permutation(&[1.0, 9.0, 2.0, 5.0].map(key));
    let pw = apply_column_permutation(1, 4, &w, &p);
    let px = apply_column_permutation(1, 4, &x, &p);
    let dot = |a: &[i64], b: &[i64]| -> i64 { a.iter().zip(b).map(|(u, v)| u * v).sum() };
    assert_eq!(dot(&pw, &px), dot(&w, &x));
    assert_ne!(pw, w.to_vec());
    let rows = [3i64, -1, 4, 1, -5, 9, 2, -6];
    let permuted = apply_column_permutation(2, 4, &rows, &p);
    for r in 0..2 {
        assert_eq!(dot(&permuted[4 * r..4 * r + 4], &px), dot(&rows[4 * r..4 * r + 4], &x));
    }
}

#[test]
fn strategies_have_measures() {
    assert_eq!(PermStrategy::Block.measure(), ColumnMeasure::SingleNorm);
    assert_eq!(PermStrategy::L2.measure(), ColumnMeasure::SingleNorm);
    assert_eq!(PermStrategy::Svd.measure(), ColumnMeasure::Variance);
    assert_eq!(PermStrategy::Qr.measure(), ColumnMeasure::DoubleNorm);
}
