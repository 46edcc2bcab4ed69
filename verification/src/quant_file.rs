//! Quantized-weight files: a header followed by raw blocks.

use vstd::prelude::*;

use crate::bytes::{copy_range, le32, push_all};
use crate::types::{
    header_at_start, header_bytes, law_header_fields, law_header_round_trip, Q8KHeader, DTYPE_Q4K,
    DTYPE_Q6K,
    DTYPE_Q8K, DTYPE_Q8K_128, HEADER_SIZE, HEADER_VERSION, MAGIC_Q4K, MAGIC_Q6K, MAGIC_Q8K,
    MAGIC_Q8K_128, Q4K_BLOCK_SIZE, Q6K_BLOCK_SIZE, Q8K128_BLOCK_SIZE, Q8K_BLOCK_SIZE, QK_K,
    QK_Q8K_128,
};

verus! {

/// The block formats that a file can hold.
#[derive(Clone, Copy, Debug, PartialEq, Eq, Structural)]
pub enum BlockFormat {
    Q8K128,
    Q4K,
    Q6K,
    Q8K,
}

impl BlockFormat {
    /// The magic number of files in this format.
    pub open spec fn spec_magic(self) -> u32 {
        match self {
            BlockFormat::Q8K128 => MAGIC_Q8K_128,
            BlockFormat::Q4K => MAGIC_Q4K,
            BlockFormat::Q6K => MAGIC_Q6K,
            BlockFormat::Q8K => MAGIC_Q8K,
        }
    }

    /// The header tag of data in this format.
    pub open spec fn spec_dtype(self) -> u32 {
        match self {
            BlockFormat::Q8K128 => DTYPE_Q8K_128,
            BlockFormat::Q4K => DTYPE_Q4K,
            BlockFormat::Q6K => DTYPE_Q6K,
            BlockFormat::Q8K => DTYPE_Q8K,
        }
    }

    /// Bytes of one block.
    pub open spec fn spec_block_size(self) -> usize {
        match self {
            BlockFormat::Q8K128 => Q8K128_BLOCK_SIZE,
            BlockFormat::Q4K => Q4K_BLOCK_SIZE,
            BlockFormat::Q6K => Q6K_BLOCK_SIZE,
            BlockFormat::Q8K => Q8K_BLOCK_SIZE,
        }
    }

    /// Weights of one block.
    pub open spec fn spec_block_elems(self) -> usize {
        match self {
            BlockFormat::Q8K128 => QK_Q8K_128,
            _ => QK_K,
        }
    }

    /// The magic number of files in this format.
    pub fn magic(self) -> (r: u32)
        ensures
            r == self.spec_magic(),
    {
        match self {
            BlockFormat::Q8K128 => MAGIC_Q8K_128,
            BlockFormat::Q4K => MAGIC_Q4K,
            BlockFormat::Q6K => MAGIC_Q6K,
            BlockFormat::Q8K => MAGIC_Q8K,
        }
    }

    /// The header tag of data in this format.
    pub fn dtype(self) -> (r: u32)
        ensures
            r == self.spec_dtype(),
    {
        match self {
            BlockFormat::Q8K128 => DTYPE_Q8K_128,
            BlockFormat::Q4K => DTYPE_Q4K,
            BlockFormat::Q6K => DTYPE_Q6K,
            BlockFormat::Q8K => DTYPE_Q8K,
        }
    }

    /// Bytes of one block.
    pub fn block_size(self) -> (r: usize)
        ensures
            r == self.spec_block_size(),
    {
        match self {
            BlockFormat::Q8K128 => Q8K128_BLOCK_SIZE,
            BlockFormat::Q4K => Q4K_BLOCK_SIZE,
            BlockFormat::Q6K => Q6K_BLOCK_SIZE,
            BlockFormat::Q8K => Q8K_BLOCK_SIZE,
        }
    }

    /// Weights of one block.
    pub fn block_elems(self) -> (r: usize)
        ensures
            r == self.spec_block_elems(),
    {
        match self {
            BlockFormat::Q8K128 => QK_Q8K_128,
            _ => QK_K,
        }
    }
}

/// Why a quantized-weight file was refused.
#[derive(Clone, Copy, Debug, PartialEq, Eq, Structural)]
pub enum FileError {
    /// The file ends within the header.
    TooSmall,
    /// The magic number is another one.
    BadMagic { got: u32, expected: u32 },
    /// The header version is not supported.
    BadVersion { got: u32 },
    /// The header tag is another one.
    BadDtype { got: u32, expected: u32 },
    /// A dimension is zero.
    BadDimensions { out: u32, k: u32 },
    /// The inner dimension is not a whole number of blocks.
    KNotMultiple { k: u32, block_elems: usize },
    /// The header's block count is not that of its inner dimension.
    BlocksPerRow { got: u32, needed: usize },
    /// The file is not as long as its header says.
    Length { len: usize, wanted: u128 },
}

/// The first thing wrong with `h`, in the order of the checks.
pub open spec fn header_fault(
    h: Q8KHeader,
    magic: u32,
    dtype: u32,
    block_elems: usize,
) -> Option<FileError> {
    if h.magic != magic {
        Some(FileError::BadMagic { got: h.magic, expected: magic })
    } else if h.version != HEADER_VERSION {
        Some(FileError::BadVersion { got: h.version })
    } else if h.dtype != dtype {
        Some(FileError::BadDtype { got: h.dtype, expected: dtype })
    } else if h.out == 0 || h.k == 0 {
        Some(FileError::BadDimensions { out: h.out, k: h.k })
    } else if block_elems == 0 || h.k as int % block_elems as int != 0 {
        Some(FileError::KNotMultiple { k: h.k, block_elems })
    } else if h.blocks_per_row as int != h.k as int / block_elems as int {
        Some(
            FileError::BlocksPerRow {
                got: h.blocks_per_row,
                needed: (h.k as int / block_elems as int) as usize,
            },
        )
    } else {
        None
    }
}

/// Checks a header against the format it should describe.
pub fn validate_header(
    hdr: &Q8KHeader,
    expected_magic: u32,
    expected_dtype: u32,
    block_elems: usize,
) -> (r: Result<(), FileError>)
    ensures
        match r {
            Ok(()) => header_fault(*hdr, expected_magic, expected_dtype, block_elems) is None,
            Err(e) => header_fault(*hdr, expected_magic, expected_dtype, block_elems) == Some(e),
        },
{
    if hdr.magic != expected_magic {
        return Err(FileError::BadMagic { got: hdr.magic, expected: expected_magic });
    }
    if hdr.version != HEADER_VERSION {
        return Err(FileError::BadVersion { got: hdr.version });
    }
    if hdr.dtype != expected_dtype {
        return Err(FileError::BadDtype { got: hdr.dtype, expected: expected_dtype });
    }
    if hdr.out == 0 || hdr.k == 0 {
        return Err(FileError::BadDimensions { out: hdr.out, k: hdr.k });
    }
    if block_elems == 0 || hdr.k as usize % block_elems != 0 {
        return Err(FileError::KNotMultiple { k: hdr.k, block_elems });
    }
    let expected_blocks_per_row: usize = hdr.k as usize / block_elems;
    if hdr.blocks_per_row as usize != expected_blocks_per_row {
        return Err(
            FileError::BlocksPerRow { got: hdr.blocks_per_row, needed: expected_blocks_per_row },
        );
    }
    Ok(())
}

/// The length of a file of `out` rows of `per_row` blocks.
pub open spec fn file_len(out: int, per_row: int, block_size: int) -> int {
    HEADER_SIZE + out * per_row * block_size
}

fn expected_len(out: u32, per_row: u32, block_size: usize) -> (n: u128)
    requires
        block_size <= 0x1000,
    ensures
        n == file_len(out as int, per_row as int, block_size as int),
{
    assert(out * per_row <= 0xFFFF_FFFF * 0xFFFF_FFFF) by (nonlinear_arith)
        requires
            out <= 0xFFFF_FFFFu32,
            per_row <= 0xFFFF_FFFFu32,
    ;
    let blocks: u128 = out as u128 * per_row as u128;
    assert(blocks * block_size <= 0xFFFF_FFFF * 0xFFFF_FFFF * 0x1000) by (nonlinear_arith)
        requires
            0 <= blocks <= 0xFFFF_FFFF * 0xFFFF_FFFF,
            block_size <= 0x1000,
    ;
    HEADER_SIZE as u128 + blocks * block_size as u128
}

/// What reading a file of the given format yields: its header and the bytes
/// after it, or the first fault.
pub open spec fn read_spec(data: Seq<u8>, f: BlockFormat) -> Result<
    (Seq<u8>, Q8KHeader),
    FileError,
> {
    let h = header_at_start(data);
    let len = file_len(h.out as int, h.blocks_per_row as int, f.spec_block_size() as int);
    if data.len() < HEADER_SIZE {
        Err(FileError::TooSmall)
    } else if header_fault(h, f.spec_magic(), f.spec_dtype(), f.spec_block_elems()) is Some {
        Err(header_fault(h, f.spec_magic(), f.spec_dtype(), f.spec_block_elems())->0)
    } else if data.len() != len {
        Err(FileError::Length { len: data.len() as usize, wanted: len as u128 })
    } else {
        Ok((data.skip(HEADER_SIZE as int), h))
    }
}

fn read_file(data: &[u8], f: BlockFormat) -> (r: Result<(Vec<u8>, Q8KHeader), FileError>)
    ensures
        match r {
            Ok((blocks, h)) => read_spec(data@, f) == Ok::<(Seq<u8>, Q8KHeader), FileError>(
                (blocks@, h),
            ),
            Err(e) => read_spec(data@, f) == Err::<(Seq<u8>, Q8KHeader), FileError>(e),
        },
{
    if data.len() < HEADER_SIZE {
        return Err(FileError::TooSmall);
    }
    let hdr = Q8KHeader::from_bytes(data);
    match validate_header(&hdr, f.magic(), f.dtype(), f.block_elems()) {
        Ok(()) => {},
        Err(e) => {
            return Err(e);
        },
    }
    let expected: u128 = expected_len(hdr.out, hdr.blocks_per_row, f.block_size());
    if data.len() as u128 != expected {
        return Err(FileError::Length { len: data.len(), wanted: expected });
    }
    let blocks = copy_range(data, HEADER_SIZE, data.len());
    assert(blocks@ =~= data@.skip(HEADER_SIZE as int));
    Ok((blocks, hdr))
}

/// Reads a Q8K file for packing: the raw blocks and the header.
pub fn read_q8k_file(data: &[u8]) -> (r: Result<(Vec<u8>, Q8KHeader), FileError>)
    ensures
        match r {
            Ok((blocks, h)) => read_spec(data@, BlockFormat::Q8K) == Ok::<
                (Seq<u8>, Q8KHeader),
                FileError,
            >((blocks@, h)),
            Err(e) => read_spec(data@, BlockFormat::Q8K) == Err::<(Seq<u8>, Q8KHeader), FileError>(
                e,
            ),
        },
{
    read_file(data, BlockFormat::Q8K)
}

/// Reads a file for packing, dropping the header: the raw blocks and the two
/// dimensions.
pub fn read_raw_quant_file(data: &[u8], f: BlockFormat) -> (r: Result<
    (Vec<u8>, u32, u32),
    FileError,
>)
    ensures
        match r {
            Ok((blocks, out, k)) => read_spec(data@, f) == Ok::<(Seq<u8>, Q8KHeader), FileError>(
                (blocks@, header_at_start(data@)),
            ) && out == header_at_start(data@).out && k == header_at_start(data@).k,
            Err(e) => read_spec(data@, f) == Err::<(Seq<u8>, Q8KHeader), FileError>(e),
        },
{
    match read_file(data, f) {
        Ok((blocks, hdr)) => Ok((blocks, hdr.out, hdr.k)),
        Err(e) => Err(e),
    }
}

/// Reads a Q8K file checking no more of the header than the magic number: the
/// row length is rounded down to whole blocks and the file must hold exactly
/// the blocks of its rows.
pub fn read_q8k(data: &[u8]) -> (r: Result<(Vec<u8>, Q8KHeader), FileError>)
    ensures
        ({
            let h = header_at_start(data@);
            let len = file_len(h.out as int, h.k as int / 256, Q8K_BLOCK_SIZE as int);
            match r {
                Ok((blocks, hdr)) => {
                    &&& data@.len() >= HEADER_SIZE
                    &&& h.magic == MAGIC_Q8K
                    &&& data@.len() == len
                    &&& hdr == h
                    &&& blocks@ == data@.skip(HEADER_SIZE as int)
                },
                Err(FileError::TooSmall) => data@.len() < HEADER_SIZE,
                Err(FileError::BadMagic { got, expected }) => data@.len() >= HEADER_SIZE && h.magic
                    != MAGIC_Q8K && got == h.magic && expected == MAGIC_Q8K,
                Err(FileError::Length { len: got, wanted }) => data@.len() >= HEADER_SIZE && h.magic
                    == MAGIC_Q8K && data@.len() != len && got == data@.len() && wanted == len,
                Err(_) => false,
            }
        }),
{
    if data.len() < HEADER_SIZE {
        return Err(FileError::TooSmall);
    }
    let hdr = Q8KHeader::from_bytes(data);
    if hdr.magic != MAGIC_Q8K {
        return Err(FileError::BadMagic { got: hdr.magic, expected: MAGIC_Q8K });
    }
    let per_row: u32 = hdr.k / 256;
    let expected: u128 = expected_len(hdr.out, per_row, Q8K_BLOCK_SIZE);
    if data.len() as u128 != expected {
        return Err(FileError::Length { len: data.len(), wanted: expected });
    }
    let blocks = copy_range(data, HEADER_SIZE, data.len());
    assert(blocks@ =~= data@.skip(HEADER_SIZE as int));
    Ok((blocks, hdr))
}

// ── writing ────────────────────────────────────────────────────────────────

/// The header of a file of `rows` rows of `k` weights.
pub open spec fn file_header(f: BlockFormat, rows: usize, k: usize) -> Q8KHeader {
    Q8KHeader {
        magic: f.spec_magic(),
        version: HEADER_VERSION,
        out: rows as u32,
        k: k as u32,
        blocks_per_row: (k / f.spec_block_elems()) as u32,
        dtype: f.spec_dtype(),
    }
}

/// The bytes of a file: the header, then the blocks.
pub open spec fn file_bytes(f: BlockFormat, rows: usize, k: usize, blocks: Seq<u8>) -> Seq<u8> {
    header_bytes(file_header(f, rows, k)) + blocks
}

fn header_for(f: BlockFormat, rows: usize, k: usize) -> (h: Q8KHeader)
    ensures
        h == file_header(f, rows, k),
{
    Q8KHeader {
        magic: f.magic(),
        version: HEADER_VERSION,
        out: #[verifier::truncate] (rows as u32),
        k: #[verifier::truncate] (k as u32),
        blocks_per_row: #[verifier::truncate] ((k / f.block_elems()) as u32),
        dtype: f.dtype(),
    }
}

/// A header followed by raw blocks.
pub fn write_blocks(header: &Q8KHeader, blocks: &[u8]) -> (v: Vec<u8>)
    ensures
        v@ == header_bytes(*header) + blocks@,
{
    let mut v = header.to_bytes();
    push_all(&mut v, blocks);
    v
}

/// The bytes of a file whose blocks are taken as they are.
pub fn write_unchecked(f: BlockFormat, rows: usize, k: usize, blocks: &[u8]) -> (v: Vec<u8>)
    ensures
        v@ == file_bytes(f, rows, k, blocks@),
{
    let header = header_for(f, rows, k);
    write_blocks(&header, blocks)
}

/// Why blocks were not written.
#[derive(Clone, Copy, Debug, PartialEq, Eq, Structural)]
pub enum WriteError {
    /// The inner dimension is not a whole number of blocks.
    KNotMultiple { k: usize, block_elems: usize },
    /// The number of blocks is not that of the dimensions.
    BlockCount { got: usize, expected: u128 },
}

/// The number of blocks of `rows` rows of `k` weights.
pub open spec fn block_count(f: BlockFormat, rows: int, k: int) -> int {
    rows * (k / f.spec_block_elems() as int)
}

/// The bytes of a file whose blocks are first counted. Of the inner dimension
/// only Q8K128 is checked to be a whole number of blocks.
pub fn write_counted(f: BlockFormat, rows: usize, k: usize, blocks: &[u8]) -> (r: Result<
    Vec<u8>,
    WriteError,
>)
    requires
        blocks@.len() % f.spec_block_size() as nat == 0,
    ensures
        ({
            let elems = f.spec_block_elems();
            let got = blocks@.len() / f.spec_block_size() as nat;
            let want = block_count(f, rows as int, k as int);
            let ragged = f == BlockFormat::Q8K128 && k as int % elems as int != 0;
            match r {
                Ok(v) => !ragged && got == want && v@ == file_bytes(f, rows, k, blocks@),
                Err(WriteError::KNotMultiple { k: k1, block_elems }) => ragged && k1 == k
                    && block_elems == elems,
                Err(WriteError::BlockCount { got: g, expected }) => !ragged && got != want && g
                    == got && expected == want,
            }
        }),
{
    let elems: usize = f.block_elems();
    match f {
        BlockFormat::Q8K128 => {
            if k % elems != 0 {
                return Err(WriteError::KNotMultiple { k, block_elems: elems });
            }
        },
        _ => {},
    }
    let got: usize = blocks.len() / f.block_size();
    let per_row: usize = k / elems;
    assert(rows * per_row <= 0xFFFF_FFFF_FFFF_FFFF * 0xFFFF_FFFF_FFFF_FFFF) by (nonlinear_arith)
        requires
            0 <= rows <= 0xFFFF_FFFF_FFFF_FFFF,
            0 <= per_row <= 0xFFFF_FFFF_FFFF_FFFF,
    ;
    let expected: u128 = rows as u128 * per_row as u128;
    if got as u128 != expected {
        return Err(WriteError::BlockCount { got, expected });
    }
    Ok(write_unchecked(f, rows, k, blocks))
}

// ── what a read gives back of a write ──────────────────────────────────────

/// The dimensions and blocks that a file can carry: both dimensions non-zero
/// and stored in 32 bits, whole blocks per row, and exactly the blocks of the
/// rows.
pub open spec fn storable(f: BlockFormat, rows: usize, k: usize, blocks: Seq<u8>) -> bool {
    &&& 0 < rows <= u32::MAX
    &&& 0 < k <= u32::MAX
    &&& k as int % f.spec_block_elems() as int == 0
    &&& blocks.len() == block_count(f, rows as int, k as int) * f.spec_block_size()
}

/// Reading a written file gives back its blocks and its dimensions.
pub proof fn law_read_of_written(f: BlockFormat, rows: usize, k: usize, blocks: Seq<u8>)
    requires
        storable(f, rows, k, blocks),
    ensures
        read_spec(file_bytes(f, rows, k, blocks), f) == Ok::<(Seq<u8>, Q8KHeader), FileError>(
            (blocks, file_header(f, rows, k)),
        ),
        file_header(f, rows, k).out == rows,
        file_header(f, rows, k).k == k,
{
    let h = file_header(f, rows, k);
    let data = file_bytes(f, rows, k, blocks);
    law_header_round_trip(h, blocks);
    assert(header_at_start(data) == h);
    assert(data.skip(HEADER_SIZE as int) =~= blocks);
    let per_row = k / f.spec_block_elems();
    assert(per_row <= k);
    assert(h.blocks_per_row == per_row);
    assert(data.len() == file_len(
        h.out as int,
        h.blocks_per_row as int,
        f.spec_block_size() as int,
    ));
}

/// A file that reads without fault is the file that would be written of what it
/// holds.
pub proof fn law_write_of_read(f: BlockFormat, data: Seq<u8>)
    requires
        read_spec(data, f) is Ok,
    ensures
        ({
            let (blocks, h) = read_spec(data, f)->Ok_0;
            data == file_bytes(f, h.out as usize, h.k as usize, blocks)
        }),
{
    let h = header_at_start(data);
    crate::types::law_header_bytes_round_trip(data);
    assert(file_header(f, h.out as usize, h.k as usize) == h);
    assert(data =~= data.take(HEADER_SIZE as int) + data.skip(HEADER_SIZE as int));
}

/// What a block is made of: a scale for each 256 or 128 codes of eight bits and
/// the sums of each 16 of them; two scales, twelve bytes of scales of 32 codes,
/// and 256 codes of four bits; or 256 codes of four bits and two more, sixteen
/// scales and one above them.
pub proof fn law_what_blocks_are_made_of(f: BlockFormat)
    ensures
        f == BlockFormat::Q8K ==> f.spec_block_size() == 4 + 256 + 2 * 16 && f.spec_block_elems()
            == 256,
        f == BlockFormat::Q8K128 ==> f.spec_block_size() == 4 + 128 + 2 * 8 && f.spec_block_elems()
            == 128,
        f == BlockFormat::Q4K ==> f.spec_block_size() == 2 + 2 + 12 + 128
            && f.spec_block_elems() == 256,
        f == BlockFormat::Q6K ==> f.spec_block_size() == 128 + 64 + 16 + 2
            && f.spec_block_elems() == 256,
{
}

/// Where things stand in a file: the number of its format, the version, the rows,
/// the columns, the blocks of a row and the format's tag, four bytes each, and
/// from the 24th byte on the blocks and nothing else.
pub proof fn law_layout_of_files(f: BlockFormat, rows: usize, k: usize, blocks: Seq<u8>)
    requires
        rows <= u32::MAX,
        k <= u32::MAX,
    ensures
        ({
            let b = file_bytes(f, rows, k, blocks);
            &&& b.len() == 24 + blocks.len()
            &&& b.skip(24) == blocks
            &&& le32(b, 0) == (match f {
                BlockFormat::Q8K => 0x4B51_3838int,
                BlockFormat::Q4K => 0x4B51_3834,
                BlockFormat::Q6K => 0x4B51_3836,
                BlockFormat::Q8K128 => 0x4B51_3831,
            })
            &&& le32(b, 4) == 1
            &&& le32(b, 8) == rows
            &&& le32(b, 12) == k
            &&& le32(b, 16) == (if f == BlockFormat::Q8K128 {
                k as int / 128
            } else {
                k as int / 256
            })
            &&& le32(b, 20) == (match f {
                BlockFormat::Q8K => 0x18int,
                BlockFormat::Q4K => 0x14,
                BlockFormat::Q6K => 0x16,
                BlockFormat::Q8K128 => 0x28,
            })
        }),
{
    let b = file_bytes(f, rows, k, blocks);
    law_header_round_trip(file_header(f, rows, k), blocks);
    law_header_fields(b);
    assert(b.skip(24) =~= blocks);
}

/// A file is read where its header is that of the format, both dimensions are
/// there and in whole blocks, and it has exactly the blocks of its rows; and
/// nowhere else. Its blocks are all that stands behind the header.
pub proof fn law_which_files_are_read(f: BlockFormat, data: Seq<u8>)
    ensures
        ({
            let rows = le32(data, 8);
            let k = le32(data, 12);
            let magic: int = match f {
                BlockFormat::Q8K => 0x4B51_3838,
                BlockFormat::Q4K => 0x4B51_3834,
                BlockFormat::Q6K => 0x4B51_3836,
                BlockFormat::Q8K128 => 0x4B51_3831,
            };
            let tag: int = match f {
                BlockFormat::Q8K => 0x18,
                BlockFormat::Q4K => 0x14,
                BlockFormat::Q6K => 0x16,
                BlockFormat::Q8K128 => 0x28,
            };
            let size: int = match f {
                BlockFormat::Q8K => 292,
                BlockFormat::Q4K => 144,
                BlockFormat::Q6K => 210,
                BlockFormat::Q8K128 => 148,
            };
            let width: int = if f == BlockFormat::Q8K128 {
                128
            } else {
                256
            };
            &&& read_spec(data, f) is Ok <==> {
                &&& data.len() >= 24
                &&& le32(data, 0) == magic
                &&& le32(data, 4) == 1
                &&& le32(data, 20) == tag
                &&& rows > 0
                &&& k > 0
                &&& k % width == 0
                &&& le32(data, 16) == k / width
                &&& data.len() == 24 + rows * (k / width) * size
            }
            &&& read_spec(data, f) is Ok ==> {
                let (blocks, h) = read_spec(data, f)->Ok_0;
                &&& blocks == data.skip(24)
                &&& h.out == rows
                &&& h.k == k
            }
        }),
{
    if data.len() >= 24 {
        law_header_fields(data);
    }
}

/// A fault says what is wrong with a header, and with what.
pub proof fn law_fault_is_in_the_header(h: Q8KHeader, magic: u32, dtype: u32, block_elems: usize)
    ensures
        match header_fault(h, magic, dtype, block_elems) {
            None => h.magic == magic && h.version == 1 && h.dtype == dtype && h.out > 0 && h.k > 0
                && block_elems > 0 && h.k as int % block_elems as int == 0
                && h.blocks_per_row == h.k as int / block_elems as int,
            Some(FileError::BadMagic { got, expected }) => got == h.magic && expected == magic
                && got != expected,
            Some(FileError::BadVersion { got }) => got == h.version && got != 1,
            Some(FileError::BadDtype { got, expected }) => got == h.dtype && expected == dtype
                && got != expected,
            Some(FileError::BadDimensions { out, k }) => out == h.out && k == h.k && (out == 0 || k
                == 0),
            Some(FileError::KNotMultiple { k, block_elems: e }) => k == h.k && e == block_elems && (
            e == 0 || k as int % e as int != 0),
            Some(FileError::BlocksPerRow { got, needed }) => got == h.blocks_per_row && got
                != h.k as int / block_elems as int && needed == (h.k as int
                / block_elems as int) as usize,
            Some(_) => false,
        },
{
}

/// A Q8K file that is read with no more than its number checked has its rows of
/// whole blocks behind the header and nothing else.
pub proof fn law_files_read_by_their_number(
    data: &[u8],
    r: Result<(Vec<u8>, Q8KHeader), FileError>,
)
    requires
        call_ensures(read_q8k, (data,), r),
    ensures
        r is Ok <==> {
            &&& data@.len() >= 24
            &&& le32(data@, 0) == 0x4B51_3838
            &&& data@.len() == 24 + le32(data@, 8) * (le32(data@, 12) / 256) * 292
        },
        r is Ok ==> {
            let (blocks, h) = r->Ok_0;
            &&& blocks@ == data@.skip(24)
            &&& h.out == le32(data@, 8)
            &&& h.k == le32(data@, 12)
        },
{
    if data@.len() >= 24 {
        law_header_fields(data@);
    }
}

/// Blocks are written where they are exactly those of the rows, and 128-wide ones
/// where the columns are whole blocks; what is written is the header and all the
/// blocks.
pub proof fn law_blocks_are_counted(
    f: BlockFormat,
    rows: usize,
    k: usize,
    blocks: &[u8],
    r: Result<Vec<u8>, WriteError>,
)
    requires
        blocks@.len() % f.spec_block_size() as nat == 0,
        call_ensures(write_counted, (f, rows, k, blocks), r),
    ensures
        ({
            let size = f.spec_block_size() as int;
            let width: int = if f == BlockFormat::Q8K128 {
                128
            } else {
                256
            };
            &&& r is Ok <==> blocks@.len() == rows * (k as int / width) * size && (f
                == BlockFormat::Q8K128 ==> k % 128 == 0)
            &&& r is Ok ==> r->Ok_0@.skip(24) == blocks@ && r->Ok_0@.len() == 24 + blocks@.len()
            &&& r is Ok && rows <= u32::MAX && k <= u32::MAX ==> le32(r->Ok_0@, 8) == rows && le32(
                r->Ok_0@,
                12,
            ) == k
        }),
{
    let size = f.spec_block_size() as int;
    let width = f.spec_block_elems() as int;
    let want = rows * (k as int / width);
    let n = blocks@.len() as int;
    assert(n / size == want <==> n == want * size) by (nonlinear_arith)
        requires
            n % size == 0,
            size > 0,
    ;
    if let Ok(v) = r {
        law_header_round_trip(file_header(f, rows, k), blocks@);
        assert(v@.skip(24) =~= blocks@);
        if rows <= u32::MAX && k <= u32::MAX {
            law_layout_of_files(f, rows, k, blocks@);
        }
    }
}

} // verus!
