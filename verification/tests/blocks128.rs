use phi3_mixed_quant::quant_q8k_128::{
    dequantize_rows, matmul_scalar, quantize_rows, BlockQ8K128, Q8K128Error,
};

fn from_float_row(src: &[f32]) -> BlockQ8K128 {
    let amax = src.iter().fold(0f32, |m, &v| m.max(v.abs()));
    let d = if amax > 0.0 { amax / 127.0 } else { 1.0 };
    let inv_d = 1.0 / d;
    let mut qs = [0i8; 128];
    for (q, &w) in qs.iter_mut().zip(src.iter()) {
        *q = (w * inv_d).round().clamp(-127.0, 127.0) as i8;
    }
    BlockQ8K128::from_codes(d.to_bits(), qs)
}

fn to_float_row(b: &BlockQ8K128) -> Vec<f32> {
    let d = f32::from_bits(b.d);
    b.qs.iter().map(|&q| d * q as f32).collect()
}

fn block_product(x: &[f32], block: &BlockQ8K128) -> f64 {
    let mut dot = 0f32;
    for (&q, &xv) in block.qs.iter().zip(x.iter()) {
        dot += q as f32 * xv;
    }
    (f32::from_bits(block.d) * dot) as f64
}

#[test]
fn layout_is_stable() {
    assert_eq!(std::mem::size_of::<BlockQ8K128>(), 148);
    assert_eq!(std::mem::align_of::<BlockQ8K128>(), 4);
}

#[test]
fn round_trip_is_within_one_step() {
    let src: Vec<f32> = (0..BlockQ8K128::QK)
        .map(|i| (i as f32 - 64.0) / 37.0)
        .collect();
    let blocks = quantize_rows(1, BlockQ8K128::QK, &src, from_float_row).unwrap();
    let block = blocks[0];
    let mut deq = vec![0f32; BlockQ8K128::QK];
    dequantize_rows(&blocks, 1, BlockQ8K128::QK, &mut deq, to_float_row).unwrap();
    let max_err = src
        .iter()
        .zip(deq.iter())
        .map(|(&a, &b)| (a - b).abs())
        .fold(0f32, f32::max);
    let d = f32::from_bits(block.d);
    assert!(max_err <= d * 0.51, "max_err={max_err}, d={}", d);
}

#[test]
fn matmul_matches_dequantized_weights() {
    let rows = 7;
    let k = 256;
    let weights: Vec<f32> = (0..rows * k)
        .map(|i| ((i * 17 % 251) as f32 - 125.0) / 500.0)
        .collect();
    let x: Vec<f32> = (0..k)
        .map(|i| ((i * 13 % 97) as f32 - 48.0) / 100.0)
        .collect();
    let blocks = quantize_rows(rows, k, &weights, from_float_row).unwrap();
    let mut deq = vec![0f32; rows * k];
    dequantize_rows(&blocks, rows, k, &mut deq, to_float_row).unwrap();

    let mut expected = vec![0f32; rows];
    for row in 0..rows {
        expected[row] = deq[row * k..(row + 1) * k]
            .iter()
            .zip(x.iter())
            .map(|(&w, &xv)| w * xv)
            .sum();
    }

    let mut actual = vec![0f32; rows];
    matmul_scalar(
        (1, k, rows),
        &x,
        &blocks,
        &mut actual,
        0f64,
        block_product,
        |a, b| a + b,
        |sum| sum as f32,
    )
    .unwrap();
    for (idx, (&a, &e)) in actual.iter().zip(expected.iter()).enumerate() {
        assert!((a - e).abs() < 1e-5, "row={idx} actual={a} expected={e}");
    }
}

#[test]
fn partial_sums_are_those_of_the_codes() {
    let mut qs = [0i8; 128];
    for i in 0..128 {
        qs[i] = (i as i32 - 64) as i8;
    }
    let b = BlockQ8K128::from_codes(7, qs);
    for g in 0..8 {
        let sum: i32 = qs[16 * g..16 * g + 16].iter().map(|&q| q as i32).sum();
        assert_eq!(b.bsums[g] as i32, sum);
    }
    let low = BlockQ8K128::from_codes(7, [-128; 128]);
    assert_eq!(low.bsums, [-2048; 8]);
    let z = BlockQ8K128::zeros();
    assert_eq!((z.d, z.qs, z.bsums), (0, [0; 128], [0; 8]));
}

#[test]
fn stored_blocks_are_read_back() {
    let mut qs = [0i8; 128];
    qs[0] = -1;
    qs[1] = -128;
    qs[127] = 127;
    let b = BlockQ8K128::from_codes(0x3F80_0000, qs);
    let mut v = vec![0xEE];
    b.push_bytes(&mut v);
    assert_eq!(v.len(), 1 + BlockQ8K128::SIZE);
    assert_eq!(&v[1..7], &[0, 0, 0x80, 0x3F, 0xFF, 0x80]);
    let back = BlockQ8K128::from_bytes(&v, 1);
    assert_eq!((back.d, back.qs, back.bsums), (b.d, b.qs, b.bsums));
}

#[test]
fn cells_combine_their_rows() {
    let x = vec![1i64; 2 * 128];
    let mut blocks = Vec::new();
    for r in 0..3 {
        blocks.push(BlockQ8K128::from_codes(r, [r as i8; 128]));
    }
    let mut y = vec![0i64; 6];
    let f = |xb: &[i64], block: &BlockQ8K128| -> i64 {
        assert_eq!(xb.len(), 128);
        xb.iter().zip(block.qs.iter()).map(|(&a, &q)| a * q as i64).sum()
    };
    matmul_scalar((2, 128, 3), &x, &blocks, &mut y, 0i64, f, |a, b| a + b, |s| s).unwrap();
    assert_eq!(y, vec![0, 128, 256, 0, 128, 256]);

    // Two blocks to a row: each meets its own columns, and the first is added first.
    let x: Vec<i64> = (0..256).map(|i| if i < 128 { 1 } else { 10 }).collect();
    let blocks = vec![
        BlockQ8K128::from_codes(0, [1; 128]),
        BlockQ8K128::from_codes(0, [2; 128]),
    ];
    let mut y = vec![0i64];
    let add = |sum: i64, v: i64| 2 * sum + v;
    matmul_scalar((1, 256, 1), &x, &blocks, &mut y, 5, f, add, |s| s + 1).unwrap();
    assert_eq!(y, vec![2 * (2 * 5 + 128) + 2560 + 1]);
}

#[test]
fn wrong_lengths_are_refused() {
    let one = vec![BlockQ8K128::zeros()];
    let q = |_: &[u32]| BlockQ8K128::zeros();
    assert_eq!(
        quantize_rows(1, 100, &[0u32; 100], q).unwrap_err(),
        Q8K128Error::KNotMultiple { k: 100 }
    );
    assert_eq!(
        quantize_rows(2, 128, &[0u32; 128], q).unwrap_err(),
        Q8K128Error::SourceLength { got: 128, expected: 256 }
    );
    assert_eq!(
        quantize_rows(usize::MAX, usize::MAX - 127, &[0u32; 0], q).unwrap_err(),
        Q8K128Error::SourceLength {
            got: 0,
            expected: usize::MAX as u128 * (usize::MAX - 127) as u128
        }
    );
    let d = |_: &BlockQ8K128| vec![1u32; 128];
    let mut dst = vec![0u32; 128];
    assert_eq!(
        dequantize_rows(&one, 1, 64, &mut dst, d),
        Err(Q8K128Error::KNotMultiple { k: 64 })
    );
    assert_eq!(
        dequantize_rows(&one, 2, 128, &mut dst, d),
        Err(Q8K128Error::DestinationLength { got: 128, expected: 256 })
    );
    assert_eq!(
        dequantize_rows(&[], 1, 128, &mut dst, d),
        Err(Q8K128Error::BlockCount { got: 0, expected: 1 })
    );
    assert_eq!(dst, vec![0; 128]);
    let m = |_: &[u32], _: &BlockQ8K128| 0u32;
    let mut y = vec![9u32; 1];
    assert_eq!(
        matmul_scalar((1, 100, 1), &[0; 100], &one, &mut y, 0u32, m, |a, b| a + b, |sum| sum),
        Err(Q8K128Error::KNotMultiple { k: 100 })
    );
    assert_eq!(
        matmul_scalar((1, 128, 1), &[0; 100], &one, &mut y, 0u32, m, |a, b| a + b, |sum| sum),
        Err(Q8K128Error::InputLength { got: 100, expected: 128 })
    );
    assert_eq!(
        matmul_scalar((1, 128, 2), &[0; 128], &one, &mut y, 0u32, m, |a, b| a + b, |sum| sum),
        Err(Q8K128Error::OutputLength { got: 1, expected: 2 })
    );
    assert_eq!(
        matmul_scalar((1, 256, 1), &[0; 256], &one, &mut y, 0u32, m, |a, b| a + b, |sum| sum),
        Err(Q8K128Error::BlockCount { got: 1, expected: 2 })
    );
    assert_eq!(y, vec![9]);
}
