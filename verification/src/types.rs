//! Shared on-disk definitions: the header of the quantized-weight files, the
//! magic numbers, element types, the model configuration and the widening of
//! stored numbers to single precision.
//!
//! A single-precision number is carried as its bit pattern, a `u32`.

use half::bf16;
use vstd::arithmetic::power2::{
    lemma2_to64, lemma_pow2_adds, lemma_pow2_strictly_increases, lemma_pow2_unfold, pow2,
};
use vstd::prelude::*;

use crate::bytes::{
    law_le32_bytes_round_trip, law_le32_round_trip, le16, le32, le32_bytes, push_le32, read_le16,
    read_le32,
};
use crate::text::same;

verus! {

/// Magic number of Q8K files.
pub const MAGIC_Q8K: u32 = 0x4B51_3838;

/// Magic number of Q4K files.
pub const MAGIC_Q4K: u32 = 0x4B51_3834;

/// Magic number of Q6K files.
pub const MAGIC_Q6K: u32 = 0x4B51_3836;

/// Magic number of Q8K128 files.
pub const MAGIC_Q8K_128: u32 = 0x4B51_3831;

/// Magic number of permutation files.
pub const MAGIC_PERM: u32 = 0x4D52_4550;

/// Header version stamped into freshly quantized files.
pub const HEADER_VERSION: u32 = 1;

/// Header tag of Q8K data.
pub const DTYPE_Q8K: u32 = 0x18;

/// Header tag of Q4K data.
pub const DTYPE_Q4K: u32 = 0x14;

/// Header tag of Q6K data.
pub const DTYPE_Q6K: u32 = 0x16;

/// Header tag of Q8K128 data.
pub const DTYPE_Q8K_128: u32 = 0x28;

/// Weights per block of the Q8K, Q6K and Q4K formats.
pub const QK_K: usize = 256;

/// Weights per block of the Q8K128 format.
pub const QK_Q8K_128: usize = 128;

/// Bytes of one Q8K block.
pub const Q8K_BLOCK_SIZE: usize = 292;

/// Bytes of one Q6K block.
pub const Q6K_BLOCK_SIZE: usize = 210;

/// Bytes of one Q4K block.
pub const Q4K_BLOCK_SIZE: usize = 144;

/// Bytes of one Q8K128 block.
pub const Q8K128_BLOCK_SIZE: usize = 148;

/// Bytes of a header on disk.
pub const HEADER_SIZE: usize = 24;

// ── the header ─────────────────────────────────────────────────────────────

/// Header of every quantized-weight file.
#[derive(Clone, Copy, Debug, PartialEq, Eq, Structural)]
pub struct Q8KHeader {
    pub magic: u32,
    pub version: u32,
    pub out: u32,
    pub k: u32,
    pub blocks_per_row: u32,
    pub dtype: u32,
}

/// The header that the first bytes of `b` hold.
pub open spec fn header_at_start(b: Seq<u8>) -> Q8KHeader {
    Q8KHeader {
        magic: le32(b, 0) as u32,
        version: le32(b, 4) as u32,
        out: le32(b, 8) as u32,
        k: le32(b, 12) as u32,
        blocks_per_row: le32(b, 16) as u32,
        dtype: le32(b, 20) as u32,
    }
}

/// The bytes of `h` on disk: its six fields, little-endian, in order.
pub open spec fn header_bytes(h: Q8KHeader) -> Seq<u8> {
    le32_bytes(h.magic as int) + le32_bytes(h.version as int) + le32_bytes(h.out as int)
        + le32_bytes(h.k as int) + le32_bytes(h.blocks_per_row as int) + le32_bytes(h.dtype as int)
}

impl Q8KHeader {
    /// Reads the header at the start of `data`.
    pub fn from_bytes(data: &[u8]) -> (h: Q8KHeader)
        requires
            data@.len() >= HEADER_SIZE,
        ensures
            h == header_at_start(data@),
    {
        Q8KHeader {
            magic: read_le32(data, 0),
            version: read_le32(data, 4),
            out: read_le32(data, 8),
            k: read_le32(data, 12),
            blocks_per_row: read_le32(data, 16),
            dtype: read_le32(data, 20),
        }
    }

    /// The bytes of this header on disk.
    pub fn to_bytes(&self) -> (v: Vec<u8>)
        ensures
            v@ == header_bytes(*self),
            v@.len() == HEADER_SIZE,
    {
        let mut v: Vec<u8> = Vec::new();
        push_le32(&mut v, self.magic);
        push_le32(&mut v, self.version);
        push_le32(&mut v, self.out);
        push_le32(&mut v, self.k);
        push_le32(&mut v, self.blocks_per_row);
        push_le32(&mut v, self.dtype);
        assert(v@ =~= header_bytes(*self));
        v
    }
}

/// A header read back from its own bytes, whatever follows them, is the same
/// header.
pub proof fn law_header_round_trip(h: Q8KHeader, rest: Seq<u8>)
    ensures
        header_bytes(h).len() == HEADER_SIZE,
        header_at_start(header_bytes(h) + rest) == h,
{
    let b = header_bytes(h) + rest;
    let f0 = le32_bytes(h.magic as int);
    let f1 = le32_bytes(h.version as int);
    let f2 = le32_bytes(h.out as int);
    let f3 = le32_bytes(h.k as int);
    let f4 = le32_bytes(h.blocks_per_row as int);
    let f5 = le32_bytes(h.dtype as int);
    let none = Seq::<u8>::empty();
    assert(b =~= none + f0 + (f1 + f2 + f3 + f4 + f5 + rest));
    assert(b =~= f0 + f1 + (f2 + f3 + f4 + f5 + rest));
    assert(b =~= (f0 + f1) + f2 + (f3 + f4 + f5 + rest));
    assert(b =~= (f0 + f1 + f2) + f3 + (f4 + f5 + rest));
    assert(b =~= (f0 + f1 + f2 + f3) + f4 + (f5 + rest));
    assert(b =~= (f0 + f1 + f2 + f3 + f4) + f5 + rest);
    law_le32_round_trip(none, h.magic as int, f1 + f2 + f3 + f4 + f5 + rest);
    law_le32_round_trip(f0, h.version as int, f2 + f3 + f4 + f5 + rest);
    law_le32_round_trip(f0 + f1, h.out as int, f3 + f4 + f5 + rest);
    law_le32_round_trip(f0 + f1 + f2, h.k as int, f4 + f5 + rest);
    law_le32_round_trip(f0 + f1 + f2 + f3, h.blocks_per_row as int, f5 + rest);
    law_le32_round_trip(f0 + f1 + f2 + f3 + f4, h.dtype as int, rest);
}

/// The bytes of a header read from a file are the file's first bytes.
pub proof fn law_header_bytes_round_trip(b: Seq<u8>)
    requires
        b.len() >= HEADER_SIZE,
    ensures
        header_bytes(header_at_start(b)) == b.take(HEADER_SIZE as int),
{
    law_le32_bytes_round_trip(b, 0);
    law_le32_bytes_round_trip(b, 4);
    law_le32_bytes_round_trip(b, 8);
    law_le32_bytes_round_trip(b, 12);
    law_le32_bytes_round_trip(b, 16);
    law_le32_bytes_round_trip(b, 20);
    assert(header_bytes(header_at_start(b)) =~= b.take(HEADER_SIZE as int));
}

// ── the model configuration ────────────────────────────────────────────────

/// Dimensions of a Phi-3 model.
#[derive(Clone, Copy, Debug)]
pub struct Phi3Config {
    pub hidden_size: usize,
    pub intermediate_size: usize,
    pub num_hidden_layers: usize,
    pub num_attention_heads: usize,
    pub num_key_value_heads: Option<usize>,
    pub max_position_embeddings: usize,
}

impl Phi3Config {
    /// The number of key/value heads: as configured, else one per attention
    /// head.
    pub open spec fn kv_heads(&self) -> usize {
        match self.num_key_value_heads {
            Some(n) => n,
            None => self.num_attention_heads,
        }
    }

    /// The number of key/value heads.
    pub fn num_key_value_heads(&self) -> (n: usize)
        ensures
            n == self.kv_heads(),
    {
        match self.num_key_value_heads {
            Some(n) => n,
            None => self.num_attention_heads,
        }
    }

    /// The dimensions of Phi-3 Mini 4K Instruct.
    pub fn phi3_mini() -> (c: Phi3Config)
        ensures
            c.hidden_size == 3072,
            c.intermediate_size == 8192,
            c.num_hidden_layers == 32,
            c.num_attention_heads == 32,
            c.num_key_value_heads == Some(32usize),
            c.max_position_embeddings == 4096,
    {
        Phi3Config {
            hidden_size: 3072,
            intermediate_size: 8192,
            num_hidden_layers: 32,
            num_attention_heads: 32,
            num_key_value_heads: Some(32),
            max_position_embeddings: 4096,
        }
    }

    /// The width of one attention head.
    pub fn head_dim(&self) -> (n: usize)
        requires
            self.num_attention_heads > 0,
        ensures
            n == self.hidden_size as int / self.num_attention_heads as int,
    {
        self.hidden_size / self.num_attention_heads
    }
}

// ── element types ──────────────────────────────────────────────────────────

/// Element type of a stored tensor, as the SafeTensors container names it.
#[allow(non_camel_case_types)]
#[derive(Clone, Copy, Debug, PartialEq, Eq, Structural)]
pub enum Dtype {
    BOOL,
    F4,
    F6_E2M3,
    F6_E3M2,
    U8,
    I8,
    F8_E5M2,
    F8_E4M3,
    F8_E8M0,
    I16,
    U16,
    F16,
    BF16,
    I32,
    U32,
    F32,
    C64,
    F64,
    I64,
    U64,
}

impl Dtype {
    /// The container's label of this element type.
    pub open spec fn spec_label(self) -> Seq<char> {
        match self {
            Dtype::BOOL => "BOOL"@,
            Dtype::F4 => "F4"@,
            Dtype::F6_E2M3 => "F6_E2M3"@,
            Dtype::F6_E3M2 => "F6_E3M2"@,
            Dtype::U8 => "U8"@,
            Dtype::I8 => "I8"@,
            Dtype::F8_E5M2 => "F8_E5M2"@,
            Dtype::F8_E4M3 => "F8_E4M3"@,
            Dtype::F8_E8M0 => "F8_E8M0"@,
            Dtype::I16 => "I16"@,
            Dtype::U16 => "U16"@,
            Dtype::F16 => "F16"@,
            Dtype::BF16 => "BF16"@,
            Dtype::I32 => "I32"@,
            Dtype::U32 => "U32"@,
            Dtype::F32 => "F32"@,
            Dtype::C64 => "C64"@,
            Dtype::F64 => "F64"@,
            Dtype::I64 => "I64"@,
            Dtype::U64 => "U64"@,
        }
    }

    /// Bits of one element.
    pub open spec fn spec_bits(self) -> nat {
        match self {
            Dtype::F4 => 4,
            Dtype::F6_E2M3 | Dtype::F6_E3M2 => 6,
            Dtype::BOOL
            | Dtype::U8
            | Dtype::I8
            | Dtype::F8_E5M2
            | Dtype::F8_E4M3
            | Dtype::F8_E8M0 => 8,
            Dtype::I16 | Dtype::U16 | Dtype::F16 | Dtype::BF16 => 16,
            Dtype::I32 | Dtype::U32 | Dtype::F32 => 32,
            Dtype::C64 | Dtype::F64 | Dtype::I64 | Dtype::U64 => 64,
        }
    }

    /// The container's label of this element type.
    pub fn label(self) -> (s: &'static str)
        ensures
            s@ == self.spec_label(),
    {
        match self {
            Dtype::BOOL => "BOOL",
            Dtype::F4 => "F4",
            Dtype::F6_E2M3 => "F6_E2M3",
            Dtype::F6_E3M2 => "F6_E3M2",
            Dtype::U8 => "U8",
            Dtype::I8 => "I8",
            Dtype::F8_E5M2 => "F8_E5M2",
            Dtype::F8_E4M3 => "F8_E4M3",
            Dtype::F8_E8M0 => "F8_E8M0",
            Dtype::I16 => "I16",
            Dtype::U16 => "U16",
            Dtype::F16 => "F16",
            Dtype::BF16 => "BF16",
            Dtype::I32 => "I32",
            Dtype::U32 => "U32",
            Dtype::F32 => "F32",
            Dtype::C64 => "C64",
            Dtype::F64 => "F64",
            Dtype::I64 => "I64",
            Dtype::U64 => "U64",
        }
    }

    /// The element type with this label, if there is one.
    pub fn from_label(s: &str) -> (r: Option<Dtype>)
        ensures
            match r {
                Some(d) => d.spec_label() == s@,
                None => forall|d: Dtype| #[trigger] d.spec_label() != s@,
            },
    {
        if same(s, "F32") {
            Some(Dtype::F32)
        } else if same(s, "F16") {
            Some(Dtype::F16)
        } else if same(s, "BF16") {
            Some(Dtype::BF16)
        } else if same(s, "U8") {
            Some(Dtype::U8)
        } else if same(s, "I32") {
            Some(Dtype::I32)
        } else if same(s, "BOOL") {
            Some(Dtype::BOOL)
        } else if same(s, "F4") {
            Some(Dtype::F4)
        } else if same(s, "F6_E2M3") {
            Some(Dtype::F6_E2M3)
        } else if same(s, "F6_E3M2") {
            Some(Dtype::F6_E3M2)
        } else if same(s, "I8") {
            Some(Dtype::I8)
        } else if same(s, "F8_E5M2") {
            Some(Dtype::F8_E5M2)
        } else if same(s, "F8_E4M3") {
            Some(Dtype::F8_E4M3)
        } else if same(s, "F8_E8M0") {
            Some(Dtype::F8_E8M0)
        } else if same(s, "I16") {
            Some(Dtype::I16)
        } else if same(s, "U16") {
            Some(Dtype::U16)
        } else if same(s, "U32") {
            Some(Dtype::U32)
        } else if same(s, "C64") {
            Some(Dtype::C64)
        } else if same(s, "F64") {
            Some(Dtype::F64)
        } else if same(s, "I64") {
            Some(Dtype::I64)
        } else if same(s, "U64") {
            Some(Dtype::U64)
        } else {
            None
        }
    }
}

/// No two element types share a label.
pub proof fn law_labels_distinct(a: Dtype, b: Dtype)
    ensures
        a.spec_label() == b.spec_label() ==> a == b,
{
    reveal_strlit("BOOL");
    reveal_strlit("F4");
    reveal_strlit("F6_E2M3");
    reveal_strlit("F6_E3M2");
    reveal_strlit("U8");
    reveal_strlit("I8");
    reveal_strlit("F8_E5M2");
    reveal_strlit("F8_E4M3");
    reveal_strlit("F8_E8M0");
    reveal_strlit("I16");
    reveal_strlit("U16");
    reveal_strlit("F16");
    reveal_strlit("BF16");
    reveal_strlit("I32");
    reveal_strlit("U32");
    reveal_strlit("F32");
    reveal_strlit("C64");
    reveal_strlit("F64");
    reveal_strlit("I64");
    reveal_strlit("U64");
    let s = a.spec_label();
    let t = b.spec_label();
    if s == t {
        assert(s.len() == t.len());
        assert(s[0] == t[0]);
        assert(s[1] == t[1]);
        assert(s.len() > 2 ==> s[2] == t[2]);
        assert(s.len() > 3 ==> s[3] == t[3]);
        assert(s.len() > 4 ==> s[4] == t[4]);
    }
}

// ── widening to single precision ───────────────────────────────────────────

/// The exponent and significand bits of the single-precision number that has the
/// exponent field `exp` and `man` for its first eleven significant bits, once it
/// is doubled until the first of them is one.
pub open spec fn scaled_up(man: int, exp: int) -> int
    decreases 0x800 - man,
{
    if man <= 0 || man >= 0x400 {
        exp * 0x80_0000 + (man - 0x400) * 0x2000
    } else {
        scaled_up(2 * man, exp - 1)
    }
}

/// The single-precision bits of the half-precision number with the bits `h`:
/// the same sign and value, an infinity for an infinity and, for a number that
/// is not one, the same payload with the quiet bit set.
pub open spec fn half_widened(h: u16) -> int {
    let sign: int = (h as int / 0x8000) * 0x8000_0000;
    let exp: int = h as int / 0x400 % 32;
    let man: int = h as int % 0x400;
    if exp == 31 {
        if man == 0 {
            sign + 0x7F80_0000
        } else {
            sign + 0x7FC0_0000 + (man % 0x200) * 0x2000
        }
    } else if exp > 0 {
        sign + (exp + 112) * 0x80_0000 + man * 0x2000
    } else if man == 0 {
        sign
    } else {
        sign + scaled_up(man, 113)
    }
}

/// The single-precision bits of the bfloat16 number with the bits `h`: `h` as
/// the upper half, with the quiet bit set for a number that is not one.
pub open spec fn bfloat_widened(h: u16) -> int {
    if h as int % 0x8000 > 0x7F80 && h as int / 0x40 % 2 == 0 {
        (h + 0x40) * 0x1_0000
    } else {
        h * 0x1_0000
    }
}

/// The bits of a number below the normal range of half precision.
fn scaled(man: u32) -> (bits: u32)
    requires
        0 < man < 0x400,
    ensures
        bits == scaled_up(man as int, 113),
        bits < 0x8000_0000,
{
    let mut m: u32 = man;
    let mut exp: u32 = 113;
    proof {
        lemma2_to64();
    }
    while m < 0x400
        invariant
            0 < m < 0x800,
            103 <= exp <= 113,
            pow2((113 - exp) as nat) <= m,
            pow2(10) == 0x400,
            scaled_up(m as int, exp as int) == scaled_up(man as int, 113),
        decreases 0x800 - m,
    {
        proof {
            lemma_pow2_unfold((114 - exp) as nat);
        }
        m = m * 2;
        exp = exp - 1;
    }
    exp * 0x80_0000 + (m - 0x400) * 0x2000
}

/// The single-precision bits of the half-precision number with the bits `h`.
pub fn f16_bits_widened(h: u16) -> (bits: u32)
    ensures
        bits == half_widened(h),
{
    let sign: u32 = (h / 0x8000) as u32 * 0x8000_0000;
    let exp: u32 = (h / 0x400 % 32) as u32;
    let man: u32 = (h % 0x400) as u32;
    if exp == 31 {
        if man == 0 {
            sign + 0x7F80_0000
        } else {
            sign + 0x7FC0_0000 + (man % 0x200) * 0x2000
        }
    } else if exp > 0 {
        sign + (exp + 112) * 0x80_0000 + man * 0x2000
    } else if man == 0 {
        sign
    } else {
        sign + scaled(man)
    }
}

/// `half::bf16::to_f32`, on bit patterns. Claimed: the bits move to the upper
/// half and a number that is not one becomes quiet, as `bfloat_widened` spells
/// out.
#[verifier::external_body]
fn bf16_bits_widened(h: u16) -> (bits: u32)
    ensures
        bits == bfloat_widened(h),
{
    bf16::from_bits(h).to_f32().to_bits()
}

/// Why stored numbers could not be widened.
#[derive(Clone, Copy, Debug, PartialEq, Eq, Structural)]
pub enum WidenError {
    /// The element type is none of F32, F16 and BF16.
    UnsupportedDtype(Dtype),
    /// The bytes end within an element.
    PartialElement(Dtype, usize),
}

/// Bytes per stored number, for the element types that can be widened.
pub open spec fn float_width(dtype: Dtype) -> Option<int> {
    match dtype {
        Dtype::F32 => Some(4),
        Dtype::F16 | Dtype::BF16 => Some(2),
        _ => None,
    }
}

/// The single-precision bits of element `i` of `b`.
pub open spec fn widened_at(b: Seq<u8>, dtype: Dtype, i: int) -> int {
    match dtype {
        Dtype::F32 => le32(b, 4 * i),
        Dtype::F16 => half_widened(le16(b, 2 * i) as u16),
        _ => bfloat_widened(le16(b, 2 * i) as u16),
    }
}

/// `v` holds the single-precision bits of every whole element of `b`.
pub open spec fn is_widened(v: Seq<u32>, b: Seq<u8>, dtype: Dtype) -> bool {
    &&& float_width(dtype) is Some
    &&& v.len() == b.len() as int / float_width(dtype)->0
    &&& forall|i: int| 0 <= i < v.len() ==> #[trigger] v[i] == widened_at(b, dtype, i)
}

fn widen(bytes: &[u8], dtype: Dtype, width: usize) -> (v: Vec<u32>)
    requires
        float_width(dtype) == Some(width as int),
    ensures
        is_widened(v@, bytes@, dtype),
{
    let total: usize = bytes.len();
    let n: usize = if width == 4 { total / 4 } else { total / 2 };
    let mut v: Vec<u32> = Vec::new();
    let mut i: usize = 0;
    while i < n
        invariant
            float_width(dtype) == Some(width as int),
            total == bytes@.len(),
            width == 4 ==> 4 * n <= total,
            width == 2 ==> 2 * n <= total,
            i <= n,
            v@.len() == i,
            forall|j: int| 0 <= j < i ==> #[trigger] v@[j] == widened_at(bytes@, dtype, j),
        decreases n - i,
    {
        let bits: u32 = match dtype {
            Dtype::F32 => read_le32(bytes, 4 * i),
            Dtype::F16 => f16_bits_widened(read_le16(bytes, 2 * i)),
            _ => bf16_bits_widened(read_le16(bytes, 2 * i)),
        };
        v.push(bits);
        i += 1;
    }
    v
}

/// Widens stored F32, F16 or BF16 numbers to single precision. Bytes after the
/// last whole element are ignored.
pub fn tensor_to_f32(bytes: &[u8], dtype: Dtype) -> (r: Result<Vec<u32>, WidenError>)
    ensures
        match r {
            Ok(v) => is_widened(v@, bytes@, dtype),
            Err(e) => float_width(dtype) is None && e == WidenError::UnsupportedDtype(dtype),
        },
{
    match dtype {
        Dtype::F32 => Ok(widen(bytes, dtype, 4)),
        Dtype::F16 => Ok(widen(bytes, dtype, 2)),
        Dtype::BF16 => Ok(widen(bytes, dtype, 2)),
        _ => Err(WidenError::UnsupportedDtype(dtype)),
    }
}

/// Widens stored F32, F16 or BF16 numbers to single precision, refusing bytes
/// that end within an element.
pub fn tensor_to_f32_exact(bytes: &[u8], dtype: Dtype) -> (r: Result<Vec<u32>, WidenError>)
    ensures
        match r {
            Ok(v) => is_widened(v@, bytes@, dtype) && bytes@.len() as int % float_width(dtype)->0 == 0,
            Err(WidenError::UnsupportedDtype(d)) => float_width(dtype) is None && d == dtype,
            Err(WidenError::PartialElement(d, n)) => float_width(dtype) is Some
                && bytes@.len() as int % float_width(dtype)->0 != 0 && d == dtype
                && n == bytes@.len(),
        },
{
    let width: usize = match dtype {
        Dtype::F32 => 4,
        Dtype::F16 => 2,
        Dtype::BF16 => 2,
        _ => {
            return Err(WidenError::UnsupportedDtype(dtype));
        },
    };
    if bytes.len() % width != 0 {
        return Err(WidenError::PartialElement(dtype, bytes.len()));
    }
    Ok(widen(bytes, dtype, width))
}

// ── what these numbers mean ────────────────────────────────────────────────

/// Where the fields of a header stand: four bytes each, in this order.
pub proof fn law_header_fields(b: Seq<u8>)
    requires
        b.len() >= 24,
    ensures
        header_at_start(b).magic == le32(b, 0),
        header_at_start(b).version == le32(b, 4),
        header_at_start(b).out == le32(b, 8),
        header_at_start(b).k == le32(b, 12),
        header_at_start(b).blocks_per_row == le32(b, 16),
        header_at_start(b).dtype == le32(b, 20),
        header_bytes(header_at_start(b)) == b.subrange(0, 24),
{
    law_header_bytes_round_trip(b);
    assert(b.take(24) =~= b.subrange(0, 24));
}

/// The magnitude of a half-precision number, in units of the smallest.
pub open spec fn half_units(h: u16) -> int {
    let exp: int = h as int / 0x400 % 32;
    let man: int = h as int % 0x400;
    if exp == 0 {
        man
    } else {
        (0x400 + man) * pow2((exp - 1) as nat)
    }
}

/// The magnitude of a single-precision number, in units of the smallest.
pub open spec fn single_units(bits: int) -> int {
    let exp: int = bits / 0x80_0000 % 256;
    let man: int = bits % 0x80_0000;
    if exp == 0 {
        man
    } else {
        (0x80_0000 + man) * pow2((exp - 1) as nat)
    }
}

proof fn lemma_scaled_up(man: int, exp: int) -> (j: nat)
    requires
        0 < man < 0x800,
    ensures
        0x400 <= man * pow2(j) < 0x800,
        scaled_up(man, exp) == (exp - j) * 0x80_0000 + (man * pow2(j) - 0x400) * 0x2000,
    decreases 0x800 - man,
{
    lemma2_to64();
    if man >= 0x400 {
        0
    } else {
        let i = lemma_scaled_up(2 * man, exp - 1);
        lemma_pow2_unfold(i + 1);
        assert((2 * man) * pow2(i) == man * (2 * pow2(i))) by (nonlinear_arith);
        i + 1
    }
}

proof fn lemma_half_units(h: u16)
    requires
        h as int / 0x400 % 32 != 31,
    ensures
        0 <= half_widened(h) <= 0xFFFF_FFFF,
        half_widened(h) / 0x80_0000 % 256 != 255,
        half_widened(h) / 0x8000_0000 == h as int / 0x8000,
        single_units(half_widened(h)) == half_units(h) * pow2(125),
{
    let sign: int = (h as int / 0x8000) * 0x8000_0000;
    let exp: int = h as int / 0x400 % 32;
    let man: int = h as int % 0x400;
    let bits = half_widened(h);
    lemma2_to64();
    if exp > 0 {
        let e = exp + 112;
        assert(bits == sign + e * 0x80_0000 + man * 0x2000);
        assert(bits / 0x80_0000 % 256 == e);
        assert(bits % 0x80_0000 == man * 0x2000);
        lemma_pow2_adds((exp - 1) as nat, 125);
        lemma_pow2_adds((e - 1) as nat, 13);
        let a = pow2((exp - 1) as nat) as int;
        let b = pow2(125) as int;
        let c = pow2((e - 1) as nat) as int;
        assert(exp - 1 + 125 == e - 1 + 13);
        assert(a * b == c * 0x2000);
        assert((0x80_0000 + man * 0x2000) * c == (0x400 + man) * (c * 0x2000)) by (nonlinear_arith);
        assert((0x400 + man) * (a * b) == ((0x400 + man) * a) * b) by (nonlinear_arith);
    } else if man == 0 {
        assert(bits == sign);
        assert(0 * pow2(125) == 0) by (nonlinear_arith);
    } else {
        let j = lemma_scaled_up(man, 113);
        let m = man * pow2(j);
        let e = 113 - j;
        assert(j <= 10) by {
            if j > 10 {
                assert(man * pow2(j) >= pow2(j)) by (nonlinear_arith)
                    requires
                        man >= 1,
                        pow2(j) >= 0,
                ;
                lemma_pow2_at_least(j);
            }
        }
        assert(bits == sign + e * 0x80_0000 + (m - 0x400) * 0x2000);
        assert(bits / 0x80_0000 % 256 == e);
        assert(bits % 0x80_0000 == (m - 0x400) * 0x2000);
        lemma_pow2_adds((e - 1) as nat, 13);
        lemma_pow2_adds(j, (125 - j) as nat);
        let c = pow2((e - 1) as nat) as int;
        let d = pow2((125 - j) as nat) as int;
        assert(e - 1 + 13 == 125 - j);
        assert(c * 0x2000 == d);
        assert((0x80_0000 + (m - 0x400) * 0x2000) * c == m * (c * 0x2000)) by (nonlinear_arith);
        assert((man * pow2(j)) * d == man * (pow2(j) * d)) by (nonlinear_arith);
    }
}

/// Eleven doublings of one are past what a number below the normal range has.
proof fn lemma_pow2_at_least(j: nat)
    requires
        j > 10,
    ensures
        pow2(j) >= 0x800,
{
    lemma2_to64();
    if j > 11 {
        lemma_pow2_strictly_increases(11, j);
    }
}

/// Widening keeps the number: the sign, the magnitude of a finite number, an
/// infinity as an infinity and what is no number as no number.
pub proof fn law_half_keeps_its_value(h: u16)
    ensures
        half_widened(h) / 0x8000_0000 == h as int / 0x8000,
        h as int / 0x400 % 32 != 31 ==> half_widened(h) / 0x80_0000 % 256 != 255 && single_units(
            half_widened(h),
        ) == half_units(h) * pow2(125),
        h as int / 0x400 % 32 == 31 ==> half_widened(h) / 0x80_0000 % 256 == 255 && (
        half_widened(h) % 0x80_0000 == 0 <==> h as int % 0x400 == 0),
{
    if h as int / 0x400 % 32 != 31 {
        lemma_half_units(h);
    }
}

/// Numbers are widened one by one: those of two pieces are those of the first and
/// then those of the second, and each is read from its own bytes alone.
pub proof fn law_widening_goes_one_by_one(a: Seq<u8>, b: Seq<u8>, i: int)
    requires
        0 <= i,
    ensures
        a.len() % 4 == 0 && 4 * i + 4 <= b.len() ==> widened_at(
            a + b,
            Dtype::F32,
            a.len() as int / 4 + i,
        ) == widened_at(b, Dtype::F32, i),
        4 * i + 4 <= a.len() ==> widened_at(a + b, Dtype::F32, i) == widened_at(a, Dtype::F32, i),
        a.len() % 2 == 0 && 2 * i + 2 <= b.len() ==> {
            &&& widened_at(a + b, Dtype::F16, a.len() as int / 2 + i) == widened_at(
                b,
                Dtype::F16,
                i,
            )
            &&& widened_at(a + b, Dtype::BF16, a.len() as int / 2 + i) == widened_at(
                b,
                Dtype::BF16,
                i,
            )
        },
        2 * i + 2 <= a.len() ==> {
            &&& widened_at(a + b, Dtype::F16, i) == widened_at(a, Dtype::F16, i)
            &&& widened_at(a + b, Dtype::BF16, i) == widened_at(a, Dtype::BF16, i)
        },
        widened_at(b, Dtype::F32, 0) == le32(b, 0),
        widened_at(b, Dtype::F16, 0) == half_widened(le16(b, 0) as u16),
        widened_at(b, Dtype::BF16, 0) == bfloat_widened(le16(b, 0) as u16),
{
}

/// The numbers that can be widened are those of three element types, and each
/// takes the bytes that the element type says.
pub proof fn law_which_numbers_are_widened(d: Dtype)
    ensures
        float_width(d) is Some <==> d == Dtype::F32 || d == Dtype::F16 || d == Dtype::BF16,
        float_width(d) is Some ==> 8 * float_width(d)->0 == d.spec_bits(),
        d == Dtype::F32 <==> d.spec_label() == "F32"@,
        d == Dtype::F16 <==> d.spec_label() == "F16"@,
        d == Dtype::BF16 <==> d.spec_label() == "BF16"@,
        d == Dtype::U8 <==> d.spec_label() == "U8"@,
        d == Dtype::I32 <==> d.spec_label() == "I32"@,
        d == Dtype::F32 || d == Dtype::I32 ==> d.spec_bits() == 32,
        d == Dtype::F16 || d == Dtype::BF16 ==> d.spec_bits() == 16,
        d == Dtype::U8 ==> d.spec_bits() == 8,
{
    law_labels_distinct(d, Dtype::F32);
    law_labels_distinct(d, Dtype::F16);
    law_labels_distinct(d, Dtype::BF16);
    law_labels_distinct(d, Dtype::U8);
    law_labels_distinct(d, Dtype::I32);
}

/// Without a number of their own there are as many key/value heads as attention
/// heads.
pub proof fn law_key_value_heads(c: Phi3Config)
    ensures
        c.num_key_value_heads is None ==> c.kv_heads() == c.num_attention_heads,
        c.num_key_value_heads is Some ==> Some(c.kv_heads()) == c.num_key_value_heads,
{
}

/// Bits of one element, for every element type.
pub proof fn law_bits_of_elements(d: Dtype)
    ensures
        d.spec_bits() == 4 <==> d == Dtype::F4,
        d.spec_bits() == 6 <==> d == Dtype::F6_E2M3 || d == Dtype::F6_E3M2,
        d.spec_bits() == 16 <==> d == Dtype::I16 || d == Dtype::U16 || d == Dtype::F16 || d
            == Dtype::BF16,
        d.spec_bits() == 32 <==> d == Dtype::I32 || d == Dtype::U32 || d == Dtype::F32,
        d.spec_bits() == 64 <==> d == Dtype::C64 || d == Dtype::F64 || d == Dtype::I64 || d
            == Dtype::U64,
        d.spec_bits() == 4 || d.spec_bits() == 6 || d.spec_bits() == 8 || d.spec_bits() == 16
            || d.spec_bits() == 32 || d.spec_bits() == 64,
{
}

/// Widened numbers are as many as fit in the bytes, each of its own four or two.
pub proof fn law_numbers_of_bytes(v: Seq<u32>, b: Seq<u8>, d: Dtype, i: int)
    requires
        is_widened(v, b, d),
        0 <= i < v.len(),
    ensures
        d == Dtype::F32 ==> v.len() == b.len() / 4 && v[i] == le32(b, 4 * i),
        d == Dtype::F16 ==> v.len() == b.len() / 2 && v[i] == half_widened(
            le16(b, 2 * i) as u16,
        ),
        d == Dtype::BF16 ==> v.len() == b.len() / 2 && v[i] == bfloat_widened(
            le16(b, 2 * i) as u16,
        ),
        d == Dtype::F32 || d == Dtype::F16 || d == Dtype::BF16,
{
    assert(v[i] == widened_at(b, d, i));
}

} // verus!
