use phi3_mixed_quant::bytes::{push_le16, push_le32, read_le16, read_le32};
use phi3_mixed_quant::quant_file::{
    read_q8k, read_q8k_file, read_raw_quant_file, validate_header, write_blocks, write_counted,
    write_unchecked, BlockFormat, FileError, WriteError,
};
use phi3_mixed_quant::types::{
    f16_bits_widened, tensor_to_f32, tensor_to_f32_exact, Dtype, Phi3Config, Q8KHeader,
    WidenError, DTYPE_Q4K, DTYPE_Q8K, HEADER_VERSION, MAGIC_Q4K, MAGIC_Q8K,
};

fn blocks(n: usize) -> Vec<u8> {
    (0..n).map(|i| (i % 251) as u8).collect()
}

#[test]
fn numbers_are_stored_least_significant_byte_first() {
    let mut v = vec![9u8];
    push_le32(&mut v, 0x0403_0201);
    push_le16(&mut v, 0x0605);
    assert_eq!(v, vec![9, 1, 2, 3, 4, 5, 6]);
    assert_eq!(read_le32(&v, 1), 0x0403_0201);
    assert_eq!(read_le16(&v, 5), 0x0605);
}

#[test]
fn header_is_read_back() {
    let h = Q8KHeader {
        magic: MAGIC_Q8K,
        version: HEADER_VERSION,
        out: 3,
        k: 512,
        blocks_per_row: 2,
        dtype: DTYPE_Q8K,
    };
    let b = h.to_bytes();
    assert_eq!(b.len(), 24);
    assert_eq!(&b[..4], &[0x38, 0x38, 0x51, 0x4B]);
    let mut longer = b.clone();
    longer.push(77);
    let back = Q8KHeader::from_bytes(&longer);
    assert_eq!((back.magic, back.out, back.k, back.blocks_per_row), (MAGIC_Q8K, 3, 512, 2));
    assert_eq!(write_blocks(&h, &[1, 2]), [&b[..], &[1, 2]].concat());
}

#[test]
fn written_files_are_read_back() {
    for (f, rows, k) in [
        (BlockFormat::Q4K, 2usize, 512usize),
        (BlockFormat::Q6K, 3, 256),
        (BlockFormat::Q8K, 1, 1024),
        (BlockFormat::Q8K128, 2, 384),
    ] {
        let data = blocks(rows * (k / f.block_elems()) * f.block_size());
        let file = write_unchecked(f, rows, k, &data);
        assert_eq!(file.len(), 24 + data.len());
        let (got, out, kk) = read_raw_quant_file(&file, f).unwrap();
        assert_eq!((got, out as usize, kk as usize), (data.clone(), rows, k));
        assert_eq!(write_counted(f, rows, k, &data), Ok(file));
    }
    let data = blocks(292);
    let file = write_unchecked(BlockFormat::Q8K, 1, 256, &data);
    let (got, h) = read_q8k_file(&file).unwrap();
    assert_eq!(got, data);
    assert_eq!(h.dtype, DTYPE_Q8K);
    assert_eq!(read_q8k(&file).unwrap().0, data);
}

fn fault(change: fn(&mut Q8KHeader)) -> FileError {
    let mut h = Q8KHeader {
        magic: MAGIC_Q4K,
        version: 1,
        out: 1,
        k: 256,
        blocks_per_row: 1,
        dtype: DTYPE_Q4K,
    };
    change(&mut h);
    let file = write_blocks(&h, &blocks(144));
    read_raw_quant_file(&file, BlockFormat::Q4K).unwrap_err()
}

#[test]
fn damaged_files_are_refused() {
    assert_eq!(
        read_raw_quant_file(&[0u8; 23], BlockFormat::Q4K).unwrap_err(),
        FileError::TooSmall
    );
    assert_eq!(
        fault(|h| h.magic = MAGIC_Q8K),
        FileError::BadMagic { got: MAGIC_Q8K, expected: MAGIC_Q4K }
    );
    assert_eq!(fault(|h| h.version = 2), FileError::BadVersion { got: 2 });
    assert_eq!(
        fault(|h| h.dtype = DTYPE_Q8K),
        FileError::BadDtype { got: DTYPE_Q8K, expected: DTYPE_Q4K }
    );
    assert_eq!(fault(|h| h.out = 0), FileError::BadDimensions { out: 0, k: 256 });
    assert_eq!(fault(|h| h.k = 0), FileError::BadDimensions { out: 1, k: 0 });
    assert_eq!(
        fault(|h| h.k = 300),
        FileError::KNotMultiple { k: 300, block_elems: 256 }
    );
    assert_eq!(
        fault(|h| h.blocks_per_row = 2),
        FileError::BlocksPerRow { got: 2, needed: 1 }
    );
    assert_eq!(fault(|h| h.out = 2), FileError::Length { len: 168, wanted: 312 });
    let huge = Q8KHeader {
        magic: MAGIC_Q4K,
        version: 1,
        out: u32::MAX,
        k: 0xFFFF_FF00,
        blocks_per_row: 0xFF_FFFF,
        dtype: DTYPE_Q4K,
    };
    assert!(matches!(
        read_raw_quant_file(&write_blocks(&huge, &[]), BlockFormat::Q4K),
        Err(FileError::Length { len: 24, .. })
    ));
    assert_eq!(validate_header(&huge, MAGIC_Q4K, DTYPE_Q4K, 256), Ok(()));
}

#[test]
fn lenient_reading_checks_magic_and_length() {
    let h = Q8KHeader {
        magic: MAGIC_Q8K,
        version: 9,
        out: 1,
        k: 300,
        blocks_per_row: 77,
        dtype: 0,
    };
    let file = write_blocks(&h, &blocks(292));
    assert_eq!(read_q8k(&file).unwrap().0, blocks(292));
    assert_eq!(read_q8k(&file[..23]).unwrap_err(), FileError::TooSmall);
    assert_eq!(
        read_q8k(&file[..315]).unwrap_err(),
        FileError::Length { len: 315, wanted: 316 }
    );
    let mut bad = file.clone();
    bad[0] = 0;
    assert!(matches!(read_q8k(&bad), Err(FileError::BadMagic { .. })));
}

#[test]
fn miscounted_blocks_are_not_written() {
    assert_eq!(
        write_counted(BlockFormat::Q8K, 2, 256, &blocks(292)),
        Err(WriteError::BlockCount { got: 1, expected: 2 })
    );
    assert_eq!(
        write_counted(BlockFormat::Q8K128, 1, 130, &blocks(148)),
        Err(WriteError::KNotMultiple { k: 130, block_elems: 128 })
    );
    assert!(write_counted(BlockFormat::Q4K, 1, 300, &blocks(144)).is_ok());
}

#[test]
fn half_precision_is_widened_exactly() {
    for (h, x) in [
        (0x0000u16, 0.0f32),
        (0x8000, -0.0),
        (0x3C00, 1.0),
        (0xC000, -2.0),
        (0x7BFF, 65504.0),
        (0x0400, 6.103515625e-5),
        (0x0001, 5.960464477539063e-8),
        (0x03FF, 6.097555160522461e-5),
        (0x7C00, f32::INFINITY),
        (0x3555, 0.333251953125),
    ] {
        assert_eq!(f16_bits_widened(h), x.to_bits());
        assert_eq!(half::f16::from_bits(h).to_f32().to_bits(), x.to_bits());
    }
    for h in 0..=u16::MAX {
        assert_eq!(f16_bits_widened(h), half::f16::from_bits(h).to_f32().to_bits());
    }
}

#[test]
fn tensors_are_widened_by_type() {
    let mut f = Vec::new();
    f.extend_from_slice(&1.5f32.to_le_bytes());
    f.extend_from_slice(&(-3.25f32).to_le_bytes());
    assert_eq!(
        tensor_to_f32(&f, Dtype::F32).unwrap(),
        vec![1.5f32.to_bits(), (-3.25f32).to_bits()]
    );
    assert_eq!(
        tensor_to_f32(&[0x00, 0x3C, 0x00, 0xC0], Dtype::F16).unwrap(),
        vec![1.0f32.to_bits(), (-2.0f32).to_bits()]
    );
    assert_eq!(
        tensor_to_f32(&[0x80, 0x3F, 0x20, 0xC1], Dtype::BF16).unwrap(),
        vec![1.0f32.to_bits(), (-10.0f32).to_bits()]
    );
    assert_eq!(tensor_to_f32(&[0x81, 0x7F], Dtype::BF16).unwrap(), vec![0x7FC1_0000]);
    assert_eq!(tensor_to_f32(&f[..7], Dtype::F32).unwrap().len(), 1);
    assert_eq!(
        tensor_to_f32(&f, Dtype::I32),
        Err(WidenError::UnsupportedDtype(Dtype::I32))
    );
    assert_eq!(
        tensor_to_f32_exact(&f[..7], Dtype::F32),
        Err(WidenError::PartialElement(Dtype::F32, 7))
    );
    assert_eq!(
        tensor_to_f32_exact(&f, Dtype::U8),
        Err(WidenError::UnsupportedDtype(Dtype::U8))
    );
    assert_eq!(tensor_to_f32_exact(&f, Dtype::F32), tensor_to_f32(&f, Dtype::F32));
}

#[test]
fn mini_configuration() {
    let c = Phi3Config::phi3_mini();
    assert_eq!(
        (c.hidden_size, c.intermediate_size, c.num_hidden_layers, c.num_attention_heads),
        (3072, 8192, 32, 32)
    );
    assert_eq!(c.num_key_value_heads(), 32);
    assert_eq!(c.head_dim(), 96);
    assert_eq!(c.max_position_embeddings, 4096);
    let shared = Phi3Config { num_key_value_heads: None, num_attention_heads: 8, ..c };
    assert_eq!(shared.num_key_value_heads(), 8);
}
