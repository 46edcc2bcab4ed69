//! Blocks of 128 eight-bit codes with one scale, and matrices made of them.
//!
//! The scale is kept as the bit pattern of a single-precision number. What a
//! block says of floating-point values is left to the caller, who hands it in
//! as a function; which block is combined with which values is settled here.

use vstd::prelude::*;
use vstd::slice::slice_subrange;

use crate::bytes::{
    law_le16_round_trip, law_le32_round_trip, le16, le16_bytes, le32, le32_bytes, push_le16,
    push_le32, read_le16, read_le32,
};
use crate::permutation::{adds, dot, law_sum_of_parts, products};

verus! {

/// A block: the scale, the codes, and the sum of each group of codes.
#[derive(Clone, Copy, Debug)]
pub struct BlockQ8K128 {
    pub d: u32,
    pub qs: [i8; 128],
    pub bsums: [i16; 8],
}

/// The sum of `n` codes from `from` on.
pub open spec fn code_sum(qs: Seq<i8>, from: int, n: int) -> int
    decreases n,
{
    if n <= 0 {
        0
    } else {
        code_sum(qs, from, n - 1) + qs[from + n - 1]
    }
}

/// A code's byte, and back.
pub open spec fn code_byte(q: i8) -> u8 {
    (if q < 0 {
        q + 0x100
    } else {
        q as int
    }) as u8
}

/// The code that a byte stands for.
pub open spec fn byte_code(b: u8) -> i8 {
    (if b < 0x80 {
        b as int
    } else {
        b - 0x100
    }) as i8
}

/// A partial sum as an unsigned number of sixteen bits.
pub open spec fn sum_bits(s: i16) -> int {
    if s < 0 {
        s + 0x1_0000
    } else {
        s as int
    }
}

/// The partial sum that sixteen bits stand for.
pub open spec fn bits_sum(u: int) -> i16 {
    (if u < 0x8000 {
        u
    } else {
        u - 0x1_0000
    }) as i16
}

/// Partial sums, one after the other, as bytes.
pub open spec fn sums_bytes(s: Seq<i16>) -> Seq<u8>
    decreases s.len(),
{
    if s.len() == 0 {
        Seq::empty()
    } else {
        sums_bytes(s.drop_last()) + le16_bytes(sum_bits(s.last()))
    }
}

/// How a block is stored: scale, codes, partial sums.
pub open spec fn block_bytes(b: BlockQ8K128) -> Seq<u8> {
    le32_bytes(b.d as int) + b.qs@.map_values(|q: i8| code_byte(q)) + sums_bytes(b.bsums@)
}

/// `b` is the block that the first bytes of `s` store.
pub open spec fn stores(s: Seq<u8>, b: BlockQ8K128) -> bool {
    &&& b.d == le32(s, 0)
    &&& forall|i: int| 0 <= i < 128 ==> #[trigger] b.qs@[i] == byte_code(s[4 + i])
    &&& forall|g: int| 0 <= g < 8 ==> #[trigger] b.bsums@[g] == bits_sum(le16(s, 132 + 2 * g))
}

impl BlockQ8K128 {
    /// Codes of a block.
    pub const QK: usize = 128;

    /// Codes that share one partial sum.
    pub const BSUM_GROUP: usize = 16;

    /// Bytes of a stored block.
    pub const SIZE: usize = 148;

    /// The partial sums are those of the codes.
    pub open spec fn summed(&self) -> bool {
        forall|g: int|
            0 <= g < 8 ==> #[trigger] self.bsums@[g] == code_sum(
                self.qs@,
                g * Self::BSUM_GROUP,
                Self::BSUM_GROUP as int,
            )
    }

    /// The block of scale zero and codes zero.
    pub fn zeros() -> (b: BlockQ8K128)
        ensures
            b.d == 0,
            forall|i: int| 0 <= i < 128 ==> #[trigger] b.qs@[i] == 0,
            forall|g: int| 0 <= g < 8 ==> #[trigger] b.bsums@[g] == 0,
    {
        BlockQ8K128 { d: 0, qs: [0i8; 128], bsums: [0i16; 8] }
    }

    /// The block of this scale and these codes.
    pub fn from_codes(d: u32, qs: [i8; 128]) -> (b: BlockQ8K128)
        ensures
            b.d == d,
            b.qs == qs,
            b.summed(),
    {
        let mut bsums: [i16; 8] = [0i16; 8];
        let mut g: usize = 0;
        while g < 8
            invariant
                g <= 8,
                forall|j: int|
                    0 <= j < g ==> #[trigger] bsums@[j] == code_sum(
                        qs@,
                        j * Self::BSUM_GROUP,
                        Self::BSUM_GROUP as int,
                    ),
            decreases 8 - g,
        {
            let mut sum: i16 = 0;
            let mut i: usize = 0;
            while i < 16
                invariant
                    g < 8,
                    i <= 16,
                    sum == code_sum(qs@, g * Self::BSUM_GROUP, i as int),
                    -128 * i <= sum <= 127 * i,
                decreases 16 - i,
            {
                sum = sum + qs[g * 16 + i] as i16;
                i += 1;
            }
            bsums[g] = sum;
            g += 1;
        }
        BlockQ8K128 { d, qs, bsums }
    }

    /// Appends the stored block.
    pub fn push_bytes(&self, v: &mut Vec<u8>)
        ensures
            final(v)@ == old(v)@ + block_bytes(*self),
    {
        let ghost before = v@;
        push_le32(v, self.d);
        let ghost head = before + le32_bytes(self.d as int);
        let ghost codes = self.qs@.map_values(|q: i8| code_byte(q));
        let mut i: usize = 0;
        assert(v@ =~= head + codes.take(0));
        while i < 128
            invariant
                i <= 128,
                codes == self.qs@.map_values(|q: i8| code_byte(q)),
                v@ == head + codes.take(i as int),
            decreases 128 - i,
        {
            let q: i8 = self.qs[i];
            let byte: u8 = if q < 0 { (q as i16 + 0x100) as u8 } else { q as u8 };
            v.push(byte);
            assert(codes.take(i + 1) =~= codes.take(i as int).push(byte));
            assert(v@ =~= head + codes.take(i + 1));
            i += 1;
        }
        assert(codes.take(128) =~= codes);
        let ghost sums = self.bsums@;
        let mut g: usize = 0;
        assert(sums.take(0) =~= Seq::<i16>::empty());
        assert(v@ =~= head + codes + sums_bytes(sums.take(0)));
        while g < 8
            invariant
                g <= 8,
                sums == self.bsums@,
                v@ == head + codes + sums_bytes(sums.take(g as int)),
            decreases 8 - g,
        {
            let s: i16 = self.bsums[g];
            let bits: u16 = if s < 0 { (s as i32 + 0x1_0000) as u16 } else { s as u16 };
            push_le16(v, bits);
            proof {
                let t = sums.take(g + 1);
                assert(t.drop_last() =~= sums.take(g as int));
                assert(t.last() == s);
                assert(v@ =~= head + codes + sums_bytes(t));
            }
            g += 1;
        }
        assert(sums.take(8) =~= sums);
        assert(v@ =~= before + block_bytes(*self));
    }

    /// The block that stands at `at`.
    pub fn from_bytes(b: &[u8], at: usize) -> (r: BlockQ8K128)
        requires
            at + Self::SIZE <= b@.len(),
        ensures
            stores(b@.skip(at as int), r),
    {
        let ghost s = b@.skip(at as int);
        let n: usize = b.len();
        let d: u32 = read_le32(b, at);
        let mut qs: [i8; 128] = [0i8; 128];
        let mut i: usize = 0;
        while i < 128
            invariant
                n == b@.len(),
                at + Self::SIZE <= n,
                s == b@.skip(at as int),
                i <= 128,
                forall|j: int| 0 <= j < i ==> #[trigger] qs@[j] == byte_code(s[4 + j]),
            decreases 128 - i,
        {
            let byte: u8 = b[at + 4 + i];
            assert(byte == s[4 + i]);
            let q: i8 = if byte < 0x80 { byte as i8 } else { (byte as i16 - 0x100) as i8 };
            qs[i] = q;
            i += 1;
        }
        let mut bsums: [i16; 8] = [0i16; 8];
        let mut g: usize = 0;
        while g < 8
            invariant
                n == b@.len(),
                at + Self::SIZE <= n,
                s == b@.skip(at as int),
                g <= 8,
                forall|j: int| 0 <= j < g ==> #[trigger] bsums@[j] == bits_sum(le16(s, 132 + 2 * j)),
            decreases 8 - g,
        {
            let u: u16 = read_le16(b, at + 132 + 2 * g);
            assert(u == le16(s, 132 + 2 * g));
            let v: i16 = if u < 0x8000 { u as i16 } else { (u as i32 - 0x1_0000) as i16 };
            bsums[g] = v;
            g += 1;
        }
        BlockQ8K128 { d, qs, bsums }
    }
}

proof fn lemma_sums_bytes_len(s: Seq<i16>)
    ensures
        sums_bytes(s).len() == 2 * s.len(),
    decreases s.len(),
{
    if s.len() > 0 {
        lemma_sums_bytes_len(s.drop_last());
    }
}

proof fn lemma_sums_bytes(s: Seq<i16>, g: int)
    requires
        0 <= g < s.len(),
    ensures
        le16(sums_bytes(s), 2 * g) == sum_bits(s[g]),
    decreases s.len(),
{
    let q = s.drop_last();
    lemma_sums_bytes_len(q);
    if g < q.len() {
        lemma_sums_bytes(q, g);
        assert(q[g] == s[g]);
    } else {
        law_le16_round_trip(sums_bytes(q), sum_bits(s.last()), Seq::empty());
        assert(sums_bytes(s) =~= sums_bytes(q) + le16_bytes(sum_bits(s.last())) + Seq::<
            u8,
        >::empty());
    }
}

/// A stored block takes 148 bytes and is read back as it was.
pub proof fn law_block_round_trip(b: BlockQ8K128, rest: Seq<u8>)
    ensures
        block_bytes(b).len() == BlockQ8K128::SIZE,
        stores(block_bytes(b) + rest, b),
{
    let s = block_bytes(b) + rest;
    let codes = b.qs@.map_values(|q: i8| code_byte(q));
    let sums = sums_bytes(b.bsums@);
    lemma_sums_bytes_len(b.bsums@);
    law_le32_round_trip(Seq::empty(), b.d as int, codes + sums + rest);
    assert(s =~= Seq::<u8>::empty() + le32_bytes(b.d as int) + (codes + sums + rest));
    assert forall|i: int| 0 <= i < 128 implies #[trigger] b.qs@[i] == byte_code(s[4 + i]) by {
        assert(s[4 + i] == codes[i]);
    }
    assert forall|g: int| 0 <= g < 8 implies #[trigger] b.bsums@[g] == bits_sum(
        le16(s, 132 + 2 * g),
    ) by {
        lemma_sums_bytes(b.bsums@, g);
        assert(s[132 + 2 * g] == sums[2 * g]);
        assert(s[132 + 2 * g + 1] == sums[2 * g + 1]);
    }
}

// ── matrices ───────────────────────────────────────────────────────────────

/// Why a matrix operation was refused.
#[derive(Debug, Clone, Copy, PartialEq, Eq, Structural)]
pub enum Q8K128Error {
    /// The inner dimension is not a whole number of blocks.
    KNotMultiple { k: usize },
    /// The values to quantize are not as many as the dimensions say.
    SourceLength { got: usize, expected: u128 },
    /// The room for the values is not as large as the dimensions say.
    DestinationLength { got: usize, expected: u128 },
    /// The blocks are not as many as the dimensions say.
    BlockCount { got: usize, expected: u128 },
    /// The input is not as long as the dimensions say.
    InputLength { got: usize, expected: u128 },
    /// The output is not as long as the dimensions say.
    OutputLength { got: usize, expected: u128 },
}

/// Block `i` of `blocks` is what `block_of` makes of the 128 values from
/// `128 * i` on.
pub open spec fn quantizes<T, F: Fn(&[T]) -> BlockQ8K128>(
    blocks: Seq<BlockQ8K128>,
    src: Seq<T>,
    i: int,
    block_of: F,
) -> bool {
    exists|v: &[T]| #[trigger]
        v@ == src.subrange(128 * i, 128 * i + 128) && call_ensures(block_of, (v,), blocks[i])
}

/// A product that does not wrap around.
pub fn wide_product(a: usize, b: usize) -> (r: u128)
    ensures
        r == a * b,
{
    assert(0 <= a * b <= 0x1_0000_0000_0000_0000 * 0x1_0000_0000_0000_0000 - 1) by (nonlinear_arith)
        requires
            0 <= a <= 0xFFFF_FFFF_FFFF_FFFF,
            0 <= b <= 0xFFFF_FFFF_FFFF_FFFF,
    ;
    a as u128 * b as u128
}

proof fn lemma_row_blocks(rows: int, k: int)
    requires
        0 <= rows,
        0 <= k,
        k % 128 == 0,
    ensures
        rows * k == 128 * (rows * (k / 128)),
{
    let q = k / 128;
    assert(rows * (128 * q) == 128 * (rows * q)) by (nonlinear_arith);
}

/// Quantizes `rows` rows of `k` values, block by block.
pub fn quantize_rows<T, F: Fn(&[T]) -> BlockQ8K128>(
    rows: usize,
    k: usize,
    src: &[T],
    block_of: F,
) -> (r: Result<Vec<BlockQ8K128>, Q8K128Error>)
    requires
        forall|v: &[T]| v@.len() == 128 ==> #[trigger] call_requires(block_of, (v,)),
    ensures
        match r {
            Ok(blocks) => {
                &&& k % 128 == 0
                &&& src@.len() == rows * k
                &&& blocks@.len() == rows * (k / 128)
                &&& forall|i: int|
                    0 <= i < blocks@.len() ==> #[trigger] quantizes(blocks@, src@, i, block_of)
            },
            Err(e) => if k % 128 != 0 {
                e == (Q8K128Error::KNotMultiple { k })
            } else {
                &&& src@.len() != rows * k
                &&& e == (Q8K128Error::SourceLength {
                    got: src@.len() as usize,
                    expected: (rows * k) as u128,
                })
            },
        },
{
    if k % 128 != 0 {
        return Err(Q8K128Error::KNotMultiple { k });
    }
    let expected: u128 = wide_product(rows, k);
    let got: usize = src.len();
    if got as u128 != expected {
        return Err(Q8K128Error::SourceLength { got, expected });
    }
    proof {
        lemma_row_blocks(rows as int, k as int);
    }
    let total: usize = got / 128;
    let mut blocks: Vec<BlockQ8K128> = Vec::new();
    let mut i: usize = 0;
    while i < total
        invariant
            forall|v: &[T]| v@.len() == 128 ==> #[trigger] call_requires(block_of, (v,)),
            got == src@.len(),
            got == 128 * total,
            i <= total,
            blocks@.len() == i,
            forall|j: int| 0 <= j < i ==> #[trigger] quantizes(blocks@, src@, j, block_of),
        decreases total - i,
    {
        let v = slice_subrange(src, 128 * i, 128 * i + 128);
        let b = block_of(v);
        let ghost before = blocks@;
        blocks.push(b);
        proof {
            assert(v@ == src@.subrange(128 * i as int, 128 * i + 128) && call_ensures(
                block_of,
                (v,),
                blocks@[i as int],
            ));
            assert(quantizes(blocks@, src@, i as int, block_of));
            assert forall|j: int| 0 <= j < i implies #[trigger] quantizes(
                blocks@,
                src@,
                j,
                block_of,
            ) by {
                assert(quantizes(before, src@, j, block_of));
                assert(blocks@[j] == before[j]);
            }
        }
        i += 1;
    }
    Ok(blocks)
}

/// The 128 values from `128 * i` on are what `values_of` makes of block `i`.
pub open spec fn dequantizes<T, F: Fn(&BlockQ8K128) -> Vec<T>>(
    dst: Seq<T>,
    blocks: Seq<BlockQ8K128>,
    i: int,
    values_of: F,
) -> bool {
    exists|v: Vec<T>| #[trigger]
        v@ == dst.subrange(128 * i, 128 * i + 128) && call_ensures(values_of, (&blocks[i],), v)
}

/// Restores `rows` rows of `k` values from their blocks.
pub fn dequantize_rows<T: Copy, F: Fn(&BlockQ8K128) -> Vec<T>>(
    blocks: &[BlockQ8K128],
    rows: usize,
    k: usize,
    dst: &mut Vec<T>,
    values_of: F,
) -> (r: Result<(), Q8K128Error>)
    requires
        forall|b: &BlockQ8K128| #[trigger] call_requires(values_of, (b,)),
        forall|b: &BlockQ8K128, v: Vec<T>| #[trigger]
            call_ensures(values_of, (b,), v) ==> v@.len() == 128,
    ensures
        final(dst)@.len() == old(dst)@.len(),
        match r {
            Ok(_) => {
                &&& k % 128 == 0
                &&& old(dst)@.len() == rows * k
                &&& blocks@.len() == rows * (k / 128)
                &&& forall|i: int|
                    0 <= i < blocks@.len() ==> #[trigger] dequantizes(
                        final(dst)@,
                        blocks@,
                        i,
                        values_of,
                    )
            },
            Err(e) => {
                &&& final(dst)@ == old(dst)@
                &&& if k % 128 != 0 {
                    e == (Q8K128Error::KNotMultiple { k })
                } else if old(dst)@.len() != rows * k {
                    e == (Q8K128Error::DestinationLength {
                        got: old(dst)@.len() as usize,
                        expected: (rows * k) as u128,
                    })
                } else {
                    &&& blocks@.len() != rows * (k / 128)
                    &&& e == (Q8K128Error::BlockCount {
                        got: blocks@.len() as usize,
                        expected: (rows * (k / 128)) as u128,
                    })
                }
            },
        },
{
    if k % 128 != 0 {
        return Err(Q8K128Error::KNotMultiple { k });
    }
    let expected: u128 = wide_product(rows, k);
    let got: usize = dst.len();
    if got as u128 != expected {
        return Err(Q8K128Error::DestinationLength { got, expected });
    }
    let expected_blocks: u128 = wide_product(rows, k / 128);
    let total: usize = blocks.len();
    if total as u128 != expected_blocks {
        return Err(Q8K128Error::BlockCount { got: total, expected: expected_blocks });
    }
    proof {
        lemma_row_blocks(rows as int, k as int);
    }
    let mut i: usize = 0;
    while i < total
        invariant
            forall|b: &BlockQ8K128| #[trigger] call_requires(values_of, (b,)),
            forall|b: &BlockQ8K128, v: Vec<T>| #[trigger]
                call_ensures(values_of, (b,), v) ==> v@.len() == 128,
            total == blocks@.len(),
            got == 128 * total,
            dst@.len() == got,
            i <= total,
            forall|j: int| 0 <= j < i ==> #[trigger] dequantizes(dst@, blocks@, j, values_of),
        decreases total - i,
    {
        let v = values_of(&blocks[i]);
        let ghost before = dst@;
        let mut c: usize = 0;
        while c < 128
            invariant
                v@.len() == 128,
                i < total,
                got == 128 * total,
                dst@.len() == got,
                c <= 128,
                forall|j: int| 0 <= j < 128 * i ==> #[trigger] dst@[j] == before[j],
                forall|j: int| 128 * i <= j < 128 * i + c ==> #[trigger] dst@[j] == v@[j - 128 * i],
            decreases 128 - c,
        {
            dst.set(128 * i + c, v[c]);
            c += 1;
        }
        proof {
            assert(v@ =~= dst@.subrange(128 * i as int, 128 * i + 128));
            assert(dequantizes(dst@, blocks@, i as int, values_of));
            assert forall|j: int| 0 <= j < i implies #[trigger] dequantizes(
                dst@,
                blocks@,
                j,
                values_of,
            ) by {
                assert(dequantizes(before, blocks@, j, values_of));
                assert(dst@.subrange(128 * j, 128 * j + 128) =~= before.subrange(
                    128 * j,
                    128 * j + 128,
                ));
            }
        }
        i += 1;
    }
    Ok(())
}

/// `v` is what `product` makes of block `i` of a weight row and the 128 inputs
/// that it stands for.
pub open spec fn block_product<T, A, P: Fn(&[T], &BlockQ8K128) -> A>(
    v: A,
    x: Seq<T>,
    row: Seq<BlockQ8K128>,
    i: int,
    product: P,
) -> bool {
    exists|xb: &[T]|
        #[trigger] xb@ == x.subrange(128 * i, 128 * i + 128) && call_ensures(
            product,
            (xb, &row[i]),
            v,
        )
}

/// From `before` to `after` the product of block `i` was added.
pub open spec fn block_added<T, A, P: Fn(&[T], &BlockQ8K128) -> A, S: Fn(A, A) -> A>(
    before: A,
    after: A,
    x: Seq<T>,
    row: Seq<BlockQ8K128>,
    i: int,
    product: P,
    plus: S,
) -> bool {
    exists|v: A| #[trigger]
        block_product(v, x, row, i, product) && call_ensures(plus, (before, v), after)
}

/// The products of the blocks of `row` were added to `zero` one after the other,
/// and `sums` are what came of it before and after each.
pub open spec fn row_summed<T, A, P: Fn(&[T], &BlockQ8K128) -> A, S: Fn(A, A) -> A>(
    sums: Seq<A>,
    x: Seq<T>,
    row: Seq<BlockQ8K128>,
    n: int,
    zero: A,
    product: P,
    plus: S,
) -> bool {
    &&& sums.len() == n + 1
    &&& sums[0] == zero
    &&& forall|i: int|
        0 <= i < n ==> block_added(#[trigger] sums[i], sums[i + 1], x, row, i, product, plus)
}

/// `y` is what `finish` makes of the sum over input row `b` and weight row `o`.
pub open spec fn cell_of<
    T,
    A,
    P: Fn(&[T], &BlockQ8K128) -> A,
    S: Fn(A, A) -> A,
    F: Fn(A) -> T,
>(
    y: T,
    x: Seq<T>,
    k: int,
    blocks: Seq<BlockQ8K128>,
    b: int,
    o: int,
    zero: A,
    product: P,
    plus: S,
    finish: F,
) -> bool {
    exists|sums: Seq<A>| #[trigger]
        row_summed(
            sums,
            x.subrange(b * k, b * k + k),
            blocks.subrange(o * (k / 128), o * (k / 128) + k / 128),
            k / 128,
            zero,
            product,
            plus,
        ) && call_ensures(finish, (sums.last(),), y)
}

/// The sum over an input row and a weight row.
fn row_sum<T, A: Copy, P: Fn(&[T], &BlockQ8K128) -> A, S: Fn(A, A) -> A>(
    x: &[T],
    row: &[BlockQ8K128],
    zero: A,
    product: &P,
    plus: &S,
) -> (r: A)
    requires
        x@.len() == 128 * row@.len(),
        forall|xb: &[T], block: &BlockQ8K128|
            xb@.len() == 128 ==> #[trigger] call_requires(product, (xb, block)),
        forall|s: A, v: A| #[trigger] call_requires(plus, (s, v)),
    ensures
        exists|sums: Seq<A>| #[trigger]
            row_summed(sums, x@, row@, row@.len() as int, zero, *product, *plus) && sums.last() == r,
{
    let n: usize = row.len();
    let width: usize = x.len();
    let mut sum: A = zero;
    let ghost mut sums: Seq<A> = seq![zero];
    let mut i: usize = 0;
    while i < n
        invariant
            n == row@.len(),
            width == x@.len(),
            width == 128 * n,
            forall|xb: &[T], block: &BlockQ8K128|
                xb@.len() == 128 ==> #[trigger] call_requires(product, (xb, block)),
            forall|s: A, v: A| #[trigger] call_requires(plus, (s, v)),
            i <= n,
            row_summed(sums, x@, row@, i as int, zero, *product, *plus),
            sums.last() == sum,
        decreases n - i,
    {
        let xb = slice_subrange(x, 128 * i, 128 * i + 128);
        let v = product(xb, &row[i]);
        let next = plus(sum, v);
        proof {
            assert(xb@ == x@.subrange(128 * i as int, 128 * i + 128));
            assert(block_product(v, x@, row@, i as int, *product));
            assert(block_added(sum, next, x@, row@, i as int, *product, *plus));
            let longer = sums.push(next);
            assert forall|j: int| 0 <= j < i + 1 implies block_added(
                #[trigger] longer[j],
                longer[j + 1],
                x@,
                row@,
                j,
                *product,
                *plus,
            ) by {
                if j < i {
                    assert(longer[j] == sums[j] && longer[j + 1] == sums[j + 1]);
                }
            }
            sums = longer;
        }
        sum = next;
        i += 1;
    }
    sum
}

/// What is wrong with the lengths of a multiplication.
pub open spec fn matmul_fault(
    dims: (usize, usize, usize),
    x: nat,
    blocks: nat,
    y: nat,
) -> Option<Q8K128Error> {
    let (batch, k, out) = dims;
    if k % 128 != 0 {
        Some(Q8K128Error::KNotMultiple { k })
    } else if x != batch * k {
        Some(Q8K128Error::InputLength { got: x as usize, expected: (batch * k) as u128 })
    } else if y != batch * out {
        Some(Q8K128Error::OutputLength { got: y as usize, expected: (batch * out) as u128 })
    } else if blocks != out * (k / 128) {
        Some(
            Q8K128Error::BlockCount {
                got: blocks as usize,
                expected: (out * (k / 128)) as u128,
            },
        )
    } else {
        None
    }
}

pub(crate) proof fn lemma_slot(i: int, n: int, w: int)
    requires
        0 <= i < n,
        0 <= w,
    ensures
        0 <= i * w,
        i * w + w <= n * w,
        (i + 1) * w == i * w + w,
{
    assert((i + 1) * w == i * w + w) by (nonlinear_arith);
    assert(0 <= i * w && (i + 1) * w <= n * w) by (nonlinear_arith)
        requires
            0 <= i < n,
            0 <= w,
    ;
}

/// Multiplies `batch` input rows with the `out` weight rows that `blocks` hold.
/// Along a row, `product` multiplies a block with the 128 inputs that it stands
/// for, `plus` adds the products to `zero` in order, and `finish` makes the output
/// of the sum.
pub fn matmul_scalar<
    T: Copy,
    A: Copy,
    P: Fn(&[T], &BlockQ8K128) -> A,
    S: Fn(A, A) -> A,
    F: Fn(A) -> T,
>(
    dims: (usize, usize, usize),
    x: &[T],
    blocks: &[BlockQ8K128],
    y: &mut Vec<T>,
    zero: A,
    product: P,
    plus: S,
    finish: F,
) -> (r: Result<(), Q8K128Error>)
    requires
        forall|xb: &[T], block: &BlockQ8K128|
            xb@.len() == 128 ==> #[trigger] call_requires(product, (xb, block)),
        forall|s: A, v: A| #[trigger] call_requires(plus, (s, v)),
        forall|s: A| #[trigger] call_requires(finish, (s,)),
    ensures
        final(y)@.len() == old(y)@.len(),
        match r {
            Ok(_) => {
                &&& matmul_fault(dims, x@.len(), blocks@.len(), old(y)@.len()) is None
                &&& forall|b: int, o: int|
                    0 <= b < dims.0 && 0 <= o < dims.2 ==> cell_of(
                        #[trigger] final(y)@[b * dims.2 + o],
                        x@,
                        dims.1 as int,
                        blocks@,
                        b,
                        o,
                        zero,
                        product,
                        plus,
                        finish,
                    )
            },
            Err(e) => {
                &&& matmul_fault(dims, x@.len(), blocks@.len(), old(y)@.len()) == Some(e)
                &&& final(y)@ == old(y)@
            },
        },
{
    let (batch, k, out) = dims;
    if k % 128 != 0 {
        return Err(Q8K128Error::KNotMultiple { k });
    }
    let want_x: u128 = wide_product(batch, k);
    if x.len() as u128 != want_x {
        return Err(Q8K128Error::InputLength { got: x.len(), expected: want_x });
    }
    let want_y: u128 = wide_product(batch, out);
    if y.len() as u128 != want_y {
        return Err(Q8K128Error::OutputLength { got: y.len(), expected: want_y });
    }
    let per_row: usize = k / 128;
    let want_blocks: u128 = wide_product(out, per_row);
    if blocks.len() as u128 != want_blocks {
        return Err(Q8K128Error::BlockCount { got: blocks.len(), expected: want_blocks });
    }
    let nx: usize = x.len();
    let ny: usize = y.len();
    let nb: usize = blocks.len();
    let mut b: usize = 0;
    while b < batch
        invariant
            forall|xb: &[T], block: &BlockQ8K128|
                xb@.len() == 128 ==> #[trigger] call_requires(product, (xb, block)),
            forall|s: A, v: A| #[trigger] call_requires(plus, (s, v)),
            forall|s: A| #[trigger] call_requires(finish, (s,)),
            k % 128 == 0,
            per_row == k / 128,
            nx == x@.len(),
            ny == y@.len(),
            nb == blocks@.len(),
            nx == batch * k,
            ny == batch * out,
            nb == out * per_row,
            b <= batch,
            forall|i: int, o: int|
                0 <= i < b && 0 <= o < out ==> cell_of(
                    #[trigger] y@[i * out + o],
                    x@,
                    k as int,
                    blocks@,
                    i,
                    o,
                    zero,
                    product,
                    plus,
                    finish,
                ),
        decreases batch - b,
    {
        proof {
            lemma_slot(b as int, batch as int, k as int);
            lemma_slot(b as int, batch as int, out as int);
        }
        let xr = slice_subrange(x, b * k, b * k + k);
        let base: usize = b * out;
        let mut o: usize = 0;
        while o < out
            invariant
                forall|xb: &[T], block: &BlockQ8K128|
                    xb@.len() == 128 ==> #[trigger] call_requires(product, (xb, block)),
                forall|s: A, v: A| #[trigger] call_requires(plus, (s, v)),
                forall|s: A| #[trigger] call_requires(finish, (s,)),
                k % 128 == 0,
                per_row == k / 128,
                ny == y@.len(),
                nb == blocks@.len(),
                ny == batch * out,
                nb == out * per_row,
                b < batch,
                base == b * out,
                base + out <= ny,
                xr@.len() == k,
                xr@ == x@.subrange(b * k as int, b * k + k),
                o <= out,
                forall|i: int, p: int|
                    0 <= i < b && 0 <= p < out ==> cell_of(
                        #[trigger] y@[i * out + p],
                        x@,
                        k as int,
                        blocks@,
                        i,
                        p,
                        zero,
                        product,
                        plus,
                        finish,
                    ),
                forall|p: int|
                    0 <= p < o ==> cell_of(
                        #[trigger] y@[base + p],
                        x@,
                        k as int,
                        blocks@,
                        b as int,
                        p,
                        zero,
                        product,
                        plus,
                        finish,
                    ),
            decreases out - o,
        {
            proof {
                lemma_slot(o as int, out as int, per_row as int);
            }
            let br = slice_subrange(blocks, o * per_row, o * per_row + per_row);
            let total = row_sum(xr, br, zero, &product, &plus);
            let v = finish(total);
            let ghost before = y@;
            y.set(base + o, v);
            proof {
                assert(xr@ == x@.subrange(b * k as int, b * k + k));
                assert(br@ == blocks@.subrange(
                    o * (k as int / 128),
                    o * (k as int / 128) + k as int / 128,
                ));
                assert(cell_of(y@[base + o], x@, k as int, blocks@, b as int, o as int, zero, product, plus, finish));
                assert forall|i: int, p: int| 0 <= i < b && 0 <= p < out implies cell_of(
                    #[trigger] y@[i * out + p],
                    x@,
                    k as int,
                    blocks@,
                    i,
                    p,
                    zero,
                    product,
                    plus,
                    finish,
                ) by {
                    lemma_slot(i, b as int, out as int);
                    assert(y@[i * out + p] == before[i * out + p]);
                }
            }
            o += 1;
        }
        proof {
            assert forall|i: int, p: int| 0 <= i < b + 1 && 0 <= p < out implies cell_of(
                #[trigger] y@[i * out + p],
                x@,
                k as int,
                blocks@,
                i,
                p,
                zero,
                product,
                plus,
                finish,
            ) by {
                if i == b {
                    assert(y@[i * out + p] == y@[base + p]);
                }
            }
        }
        b += 1;
    }
    Ok(())
}

proof fn lemma_dot_of_parts<W, X, A>(
    w: Seq<W>,
    x: Seq<X>,
    n: int,
    times: spec_fn(W, X) -> A,
    zero: A,
    plus: spec_fn(A, A) -> A,
)
    requires
        0 <= n,
        n + 128 <= w.len(),
        w.len() == x.len(),
        adds(plus),
        forall|v: A| #[trigger] plus(v, zero) == v,
    ensures
        dot(w.take(n + 128), x.take(n + 128), times, zero, plus) == plus(
            dot(w.take(n), x.take(n), times, zero, plus),
            dot(w.subrange(n, n + 128), x.subrange(n, n + 128), times, zero, plus),
        ),
{
    let a = products(w.take(n), x.take(n), times);
    let b = products(w.subrange(n, n + 128), x.subrange(n, n + 128), times);
    law_sum_of_parts(a, b, zero, plus);
    assert(products(w.take(n + 128), x.take(n + 128), times) =~= a + b);
}

/// The product with quantized rows is the product with the values restored from
/// them. That holds of any numbers whose order and grouping do not matter when
/// they are added, where the product of a block is that of the values restored
/// from it.
pub proof fn law_product_of_restored<
    T,
    V,
    A,
    D: Fn(&BlockQ8K128) -> Vec<V>,
    P: Fn(&[T], &BlockQ8K128) -> A,
    S: Fn(A, A) -> A,
    F: Fn(A) -> T,
>(
    restored: Seq<V>,
    blocks: Seq<BlockQ8K128>,
    rows: int,
    x: Seq<T>,
    k: int,
    b: int,
    o: int,
    y: T,
    zero: A,
    values_of: D,
    product: P,
    plus: S,
    finish: F,
    times: spec_fn(V, T) -> A,
    total: spec_fn(A, A) -> A,
)
    requires
        0 <= k,
        k % 128 == 0,
        0 <= o < rows,
        0 <= b * k,
        b * k + k <= x.len(),
        blocks.len() == rows * (k / 128),
        restored.len() == rows * k,
        forall|i: int|
            0 <= i < blocks.len() ==> #[trigger] dequantizes(restored, blocks, i, values_of),
        adds(total),
        forall|v: A| #[trigger] total(v, zero) == v,
        forall|s: A, v: A, r: A| #[trigger] call_ensures(plus, (s, v), r) ==> r == total(s, v),
        forall|xb: &[T], block: &BlockQ8K128, v: A, w: Vec<V>| #[trigger]
            call_ensures(product, (xb, block), v) && #[trigger] call_ensures(values_of, (block,), w)
                ==> v == dot(w@, xb@, times, zero, total),
        cell_of(y, x, k, blocks, b, o, zero, product, plus, finish),
    ensures
        0 <= o * k <= o * k + k <= restored.len(),
        call_ensures(
            finish,
            (dot(
                restored.subrange(o * k, o * k + k),
                x.subrange(b * k, b * k + k),
                times,
                zero,
                total,
            ),),
            y,
        ),
{
    let n = k / 128;
    lemma_slot(o, rows, k);
    lemma_slot(o, rows, n);
    assert(o * k == 128 * (o * n)) by (nonlinear_arith)
        requires
            k == 128 * n,
    ;
    let w = restored.subrange(o * k, o * k + k);
    let xr = x.subrange(b * k, b * k + k);
    let row = blocks.subrange(o * n, o * n + n);
    let sums = choose|sums: Seq<A>| #[trigger]
        row_summed(sums, xr, row, n, zero, product, plus) && call_ensures(
            finish,
            (sums.last(),),
            y,
        );
    lemma_row_restored(
        restored,
        blocks,
        o * n,
        w,
        row,
        xr,
        sums,
        n,
        n,
        zero,
        values_of,
        product,
        plus,
        times,
        total,
    );
    assert(w.take(128 * n) =~= w);
    assert(xr.take(128 * n) =~= xr);
}

proof fn lemma_row_restored<
    T,
    V,
    A,
    D: Fn(&BlockQ8K128) -> Vec<V>,
    P: Fn(&[T], &BlockQ8K128) -> A,
    S: Fn(A, A) -> A,
>(
    restored: Seq<V>,
    blocks: Seq<BlockQ8K128>,
    first: int,
    w: Seq<V>,
    row: Seq<BlockQ8K128>,
    x: Seq<T>,
    sums: Seq<A>,
    n: int,
    i: int,
    zero: A,
    values_of: D,
    product: P,
    plus: S,
    times: spec_fn(V, T) -> A,
    total: spec_fn(A, A) -> A,
)
    requires
        0 <= i <= n,
        0 <= first,
        first + n <= blocks.len(),
        128 * (first + n) <= restored.len(),
        w == restored.subrange(128 * first, 128 * first + 128 * n),
        row == blocks.subrange(first, first + n),
        x.len() == 128 * n,
        forall|j: int|
            0 <= j < blocks.len() ==> #[trigger] dequantizes(restored, blocks, j, values_of),
        adds(total),
        forall|v: A| #[trigger] total(v, zero) == v,
        forall|s: A, v: A, r: A| #[trigger] call_ensures(plus, (s, v), r) ==> r == total(s, v),
        forall|xb: &[T], block: &BlockQ8K128, v: A, u: Vec<V>| #[trigger]
            call_ensures(product, (xb, block), v) && #[trigger] call_ensures(values_of, (block,), u)
                ==> v == dot(u@, xb@, times, zero, total),
        row_summed(sums, x, row, n, zero, product, plus),
    ensures
        sums[i] == dot(w.take(128 * i), x.take(128 * i), times, zero, total),
    decreases i,
{
    if i == 0 {
        assert(products(w.take(0), x.take(0), times) =~= Seq::<A>::empty());
    } else {
        let j = i - 1;
        lemma_row_restored(
            restored,
            blocks,
            first,
            w,
            row,
            x,
            sums,
            n,
            j,
            zero,
            values_of,
            product,
            plus,
            times,
            total,
        );
        assert(block_added(sums[j], sums[j + 1], x, row, j, product, plus));
        let v = choose|v: A| #[trigger]
            block_product(v, x, row, j, product) && call_ensures(plus, (sums[j], v), sums[j + 1]);
        let xb = choose|xb: &[T]|
            #[trigger] xb@ == x.subrange(128 * j, 128 * j + 128) && call_ensures(
                product,
                (xb, &row[j]),
                v,
            );
        assert(dequantizes(restored, blocks, first + j, values_of));
        let u = choose|u: Vec<V>| #[trigger]
            u@ == restored.subrange(128 * (first + j), 128 * (first + j) + 128) && call_ensures(
                values_of,
                (&blocks[first + j],),
                u,
            );
        assert(row[j] == blocks[first + j]);
        assert(u@ =~= w.subrange(128 * j, 128 * j + 128));
        lemma_dot_of_parts(w, x, 128 * j, times, zero, total);
    }
}

// ── what stands where ──────────────────────────────────────────────────────

/// The sum of codes is that of the first ones and that of the others, and that of
/// a single one is the code.
pub proof fn law_sums_of_codes(qs: Seq<i8>, from: int, a: int, b: int)
    requires
        0 <= a,
        0 <= b,
    ensures
        code_sum(qs, from, a + b) == code_sum(qs, from, a) + code_sum(qs, from + a, b),
        code_sum(qs, from, 1) == qs[from],
        code_sum(qs, from, 0) == 0,
    decreases b,
{
    if b > 0 {
        law_sums_of_codes(qs, from, a, b - 1);
    }
    assert(code_sum(qs, from, 1) == code_sum(qs, from, 0) + qs[from]);
}

/// The eight partial sums are those of sixteen codes each, one after the other,
/// and together that of all codes.
pub proof fn law_partial_sums_cover_the_codes(b: BlockQ8K128)
    requires
        b.summed(),
    ensures
        forall|g: int|
            0 <= g < 8 ==> #[trigger] b.bsums@[g] == code_sum(b.qs@, 16 * g, 16),
        b.bsums@[0] + b.bsums@[1] + b.bsums@[2] + b.bsums@[3] + b.bsums@[4] + b.bsums@[5]
            + b.bsums@[6] + b.bsums@[7] == code_sum(b.qs@, 0, 128),
{
    assert forall|g: int| 0 <= g < 8 implies #[trigger] b.bsums@[g] == code_sum(
        b.qs@,
        16 * g,
        16,
    ) by {
        assert(b.bsums@[g] == code_sum(b.qs@, g * BlockQ8K128::BSUM_GROUP, 16));
    }
    law_sums_of_codes(b.qs@, 0, 16, 16);
    law_sums_of_codes(b.qs@, 0, 32, 16);
    law_sums_of_codes(b.qs@, 0, 48, 16);
    law_sums_of_codes(b.qs@, 0, 64, 16);
    law_sums_of_codes(b.qs@, 0, 80, 16);
    law_sums_of_codes(b.qs@, 0, 96, 16);
    law_sums_of_codes(b.qs@, 0, 112, 16);
}

/// A stored block is the scale in four bytes, a byte for each code and two for
/// each partial sum; negative ones are stored as their complement.
pub proof fn law_layout_of_blocks(s: Seq<u8>, b: BlockQ8K128, i: int, g: int)
    requires
        s.len() >= 148,
        stores(s, b),
        0 <= i < 128,
        0 <= g < 8,
    ensures
        b.d == le32(s, 0),
        b.qs@[i] >= 0 ==> s[4 + i] == b.qs@[i],
        b.qs@[i] < 0 ==> s[4 + i] == 256 + b.qs@[i],
        b.bsums@[g] >= 0 ==> le16(s, 132 + 2 * g) == b.bsums@[g],
        b.bsums@[g] < 0 ==> le16(s, 132 + 2 * g) == 65536 + b.bsums@[g],
{
    assert(b.qs@[i] == byte_code(s[4 + i]));
    assert(b.bsums@[g] == bits_sum(le16(s, 132 + 2 * g)));
    lemma_complements(s[4 + i], le16(s, 132 + 2 * g));
}

proof fn lemma_complements(byte: u8, u: int)
    requires
        0 <= u < 65536,
    ensures
        byte_code(byte) >= 0 ==> byte == byte_code(byte),
        byte_code(byte) < 0 ==> byte == 256 + byte_code(byte),
        bits_sum(u) >= 0 ==> u == bits_sum(u),
        bits_sum(u) < 0 ==> u == 65536 + bits_sum(u),
{
}

/// Block `i` is made of the 128 values from `128 * i` on, in their order.
pub proof fn law_blocks_are_made_of_their_values<T, F: Fn(&[T]) -> BlockQ8K128>(
    blocks: Seq<BlockQ8K128>,
    src: Seq<T>,
    i: int,
    block_of: F,
)
    requires
        0 <= i < blocks.len(),
        src.len() == 128 * blocks.len(),
        quantizes(blocks, src, i, block_of),
    ensures
        exists|v: &[T]|
            {
                &&& #[trigger] call_ensures(block_of, (v,), blocks[i])
                &&& v@.len() == 128
                &&& forall|j: int| 0 <= j < 128 ==> #[trigger] v@[j] == src[128 * i + j]
            },
{
    let v = choose|v: &[T]| #[trigger]
        v@ == src.subrange(128 * i, 128 * i + 128) && call_ensures(block_of, (v,), blocks[i]);
    assert(call_ensures(block_of, (v,), blocks[i]));
}

/// The 128 values from `128 * i` on are those of block `i`, in their order.
pub proof fn law_values_are_those_of_their_block<T, F: Fn(&BlockQ8K128) -> Vec<T>>(
    dst: Seq<T>,
    blocks: Seq<BlockQ8K128>,
    i: int,
    values_of: F,
)
    requires
        0 <= i < blocks.len(),
        dst.len() == 128 * blocks.len(),
        dequantizes(dst, blocks, i, values_of),
    ensures
        exists|v: Vec<T>|
            {
                &&& #[trigger] call_ensures(values_of, (&blocks[i],), v)
                &&& v@.len() == 128
                &&& forall|j: int| 0 <= j < 128 ==> #[trigger] v@[j] == dst[128 * i + j]
            },
{
    let v = choose|v: Vec<T>| #[trigger]
        v@ == dst.subrange(128 * i, 128 * i + 128) && call_ensures(values_of, (&blocks[i],), v);
    assert(call_ensures(values_of, (&blocks[i],), v));
}

/// A multiplication is refused where the columns are not whole blocks or one of
/// the lengths is not the product of its dimensions, and only there.
pub proof fn law_which_products_are_refused(
    dims: (usize, usize, usize),
    x: nat,
    blocks: nat,
    y: nat,
)
    ensures
        matmul_fault(dims, x, blocks, y) is None <==> {
            &&& dims.1 % 128 == 0
            &&& x == dims.0 * dims.1
            &&& y == dims.0 * dims.2
            &&& blocks == dims.2 * (dims.1 / 128)
        },
{
}

/// `after` is `before` and the product of `block` with the 128 inputs from `at`
/// on.
pub open spec fn inputs_added<T, A, P: Fn(&[T], &BlockQ8K128) -> A, S: Fn(A, A) -> A>(
    before: A,
    after: A,
    x: Seq<T>,
    at: int,
    block: BlockQ8K128,
    product: P,
    plus: S,
) -> bool {
    exists|xb: &[T], v: A|
        {
            &&& #[trigger] call_ensures(product, (xb, &block), v)
            &&& xb@.len() == 128
            &&& forall|j: int| 0 <= j < 128 ==> #[trigger] xb@[j] == x[at + j]
            &&& call_ensures(plus, (before, v), after)
        }
}

/// An output is the sum, from `zero` on, of the products of the blocks of its
/// weight row, in their order, with the inputs of its own row that they stand
/// for. The result is what the sum was before and after each.
pub proof fn law_output_is_its_rows_product<
    T,
    A,
    P: Fn(&[T], &BlockQ8K128) -> A,
    S: Fn(A, A) -> A,
    F: Fn(A) -> T,
>(
    y: T,
    x: Seq<T>,
    batch: int,
    k: int,
    out: int,
    blocks: Seq<BlockQ8K128>,
    b: int,
    o: int,
    zero: A,
    product: P,
    plus: S,
    finish: F,
) -> (sums: Seq<A>)
    requires
        k >= 0,
        k % 128 == 0,
        x.len() == batch * k,
        blocks.len() == out * (k / 128),
        0 <= b < batch,
        0 <= o < out,
        cell_of(y, x, k, blocks, b, o, zero, product, plus, finish),
    ensures
        sums.len() == k / 128 + 1,
        sums[0] == zero,
        call_ensures(finish, (sums.last(),), y),
        forall|i: int|
            0 <= i < k / 128 ==> inputs_added(
                #[trigger] sums[i],
                sums[i + 1],
                x,
                b * k + 128 * i,
                blocks[o * (k / 128) + i],
                product,
                plus,
            ),
{
    let n = k / 128;
    let row = blocks.subrange(o * n, o * n + n);
    let xr = x.subrange(b * k, b * k + k);
    let sums = choose|sums: Seq<A>| #[trigger]
        row_summed(sums, xr, row, n, zero, product, plus) && call_ensures(
            finish,
            (sums.last(),),
            y,
        );
    lemma_slot(b, batch, k);
    lemma_slot(o, out, n);
    assert(row_summed(sums, xr, row, n, zero, product, plus));
    assert forall|i: int| 0 <= i < n implies inputs_added(
        #[trigger] sums[i],
        sums[i + 1],
        x,
        b * k + 128 * i,
        blocks[o * n + i],
        product,
        plus,
    ) by {
        assert(block_added(sums[i], sums[i + 1], xr, row, i, product, plus));
        let v = choose|v: A| #[trigger]
            block_product(v, xr, row, i, product) && call_ensures(plus, (sums[i], v), sums[i + 1]);
        let xb = choose|xb: &[T]|
            #[trigger] xb@ == xr.subrange(128 * i, 128 * i + 128) && call_ensures(
                product,
                (xb, &row[i]),
                v,
            );
        assert(row[i] == blocks[o * n + i]);
        assert(call_ensures(product, (xb, &blocks[o * n + i]), v));
    }
    sums
}

/// A fault of a multiplication says which length is wrong, what it is and what it
/// should be.
pub proof fn law_faults_of_products(dims: (usize, usize, usize), x: usize, blocks: usize, y: usize)
    ensures
        match matmul_fault(dims, x as nat, blocks as nat, y as nat) {
            None => true,
            Some(Q8K128Error::KNotMultiple { k }) => k == dims.1 && k % 128 != 0,
            Some(Q8K128Error::InputLength { got, expected }) => got == x && expected == dims.0
                * dims.1 && got != expected,
            Some(Q8K128Error::OutputLength { got, expected }) => got == y && expected == dims.0
                * dims.2 && got != expected,
            Some(Q8K128Error::BlockCount { got, expected }) => got == blocks && expected == dims.2
                * (dims.1 / 128) && got != expected,
            Some(_) => false,
        },
{
    lemma_wide(dims.0 as int, dims.1 as int);
    lemma_wide(dims.0 as int, dims.2 as int);
    lemma_wide(dims.2 as int, dims.1 as int / 128);
}

proof fn lemma_wide(a: int, b: int)
    requires
        0 <= a <= 0xFFFF_FFFF_FFFF_FFFF,
        0 <= b <= 0xFFFF_FFFF_FFFF_FFFF,
    ensures
        0 <= a * b <= u128::MAX,
{
    assert(0 <= a * b <= 0x1_0000_0000_0000_0000 * 0x1_0000_0000_0000_0000 - 1) by (nonlinear_arith)
        requires
            0 <= a <= 0xFFFF_FFFF_FFFF_FFFF,
            0 <= b <= 0xFFFF_FFFF_FFFF_FFFF,
    ;
}

} // verus!
