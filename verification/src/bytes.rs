//! Little-endian integers in byte sequences.

use vstd::prelude::*;

verus! {

/// The 32-bit number stored little-endian at `at` in `b`.
pub open spec fn le32(b: Seq<u8>, at: int) -> int {
    b[at] + 0x100 * b[at + 1] + 0x1_0000 * b[at + 2] + 0x100_0000 * b[at + 3]
}

/// The 16-bit number stored little-endian at `at` in `b`.
pub open spec fn le16(b: Seq<u8>, at: int) -> int {
    b[at] + 0x100 * b[at + 1]
}

/// The four little-endian bytes of `x`.
pub open spec fn le32_bytes(x: int) -> Seq<u8> {
    seq![
        (x % 0x100) as u8,
        (x / 0x100 % 0x100) as u8,
        (x / 0x1_0000 % 0x100) as u8,
        (x / 0x100_0000 % 0x100) as u8,
    ]
}

/// The two little-endian bytes of `x`.
pub open spec fn le16_bytes(x: int) -> Seq<u8> {
    seq![(x % 0x100) as u8, (x / 0x100 % 0x100) as u8]
}

/// Reads the `u32` at `at`.
pub fn read_le32(b: &[u8], at: usize) -> (x: u32)
    requires
        at + 4 <= b@.len(),
    ensures
        x == le32(b@, at as int),
{
    b[at] as u32 + 0x100 * (b[at + 1] as u32) + 0x1_0000 * (b[at + 2] as u32) + 0x100_0000 * (b[at
        + 3] as u32)
}

/// Reads the `u16` at `at`.
pub fn read_le16(b: &[u8], at: usize) -> (x: u16)
    requires
        at + 2 <= b@.len(),
    ensures
        x == le16(b@, at as int),
{
    b[at] as u16 + 0x100 * (b[at + 1] as u16)
}

/// Appends the bytes of `x`.
pub fn push_le32(v: &mut Vec<u8>, x: u32)
    ensures
        final(v)@ == old(v)@ + le32_bytes(x as int),
{
    let ghost before = v@;
    v.push((x % 0x100) as u8);
    v.push((x / 0x100 % 0x100) as u8);
    v.push((x / 0x1_0000 % 0x100) as u8);
    v.push((x / 0x100_0000 % 0x100) as u8);
    assert(v@ =~= before + le32_bytes(x as int));
}

/// Appends the bytes of `x`.
pub fn push_le16(v: &mut Vec<u8>, x: u16)
    ensures
        final(v)@ == old(v)@ + le16_bytes(x as int),
{
    let ghost before = v@;
    v.push((x % 0x100) as u8);
    v.push((x / 0x100 % 0x100) as u8);
    assert(v@ =~= before + le16_bytes(x as int));
}

/// Appends `src` to `v`.
pub fn push_all(v: &mut Vec<u8>, src: &[u8])
    ensures
        final(v)@ == old(v)@ + src@,
{
    let ghost before = v@;
    let mut i: usize = 0;
    while i < src.len()
        invariant
            i <= src@.len(),
            v@ == before + src@.take(i as int),
        decreases src@.len() - i,
    {
        v.push(src[i]);
        assert(src@.take(i + 1) =~= src@.take(i as int).push(src@[i as int]));
        i += 1;
    }
    assert(src@.take(i as int) =~= src@);
}

/// The bytes of `src` from `from` up to `to`.
pub fn copy_range(src: &[u8], from: usize, to: usize) -> (v: Vec<u8>)
    requires
        from <= to <= src@.len(),
    ensures
        v@ == src@.subrange(from as int, to as int),
{
    let mut v: Vec<u8> = Vec::new();
    let mut i: usize = from;
    while i < to
        invariant
            from <= i <= to <= src@.len(),
            v@ == src@.subrange(from as int, i as int),
        decreases to - i,
    {
        v.push(src[i]);
        assert(src@.subrange(from as int, i + 1) =~= src@.subrange(from as int, i as int).push(
            src@[i as int],
        ));
        i += 1;
    }
    v
}

/// A copy of `src`.
pub fn copied<T: Copy>(src: &[T]) -> (v: Vec<T>)
    ensures
        v@ == src@,
{
    let mut v: Vec<T> = Vec::new();
    let mut i: usize = 0;
    while i < src.len()
        invariant
            i <= src@.len(),
            v@ == src@.take(i as int),
        decreases src@.len() - i,
    {
        v.push(src[i]);
        assert(src@.take(i + 1) =~= src@.take(i as int).push(src@[i as int]));
        i += 1;
    }
    assert(src@.take(i as int) =~= src@);
    v
}

/// Reading back what was written gives the number, wherever it stands.
pub proof fn law_le32_round_trip(pre: Seq<u8>, x: int, post: Seq<u8>)
    requires
        0 <= x <= u32::MAX,
    ensures
        le32(pre + le32_bytes(x) + post, pre.len() as int) == x,
{
    let b = pre + le32_bytes(x) + post;
    let n = pre.len() as int;
    assert(b[n] == le32_bytes(x)[0]);
    assert(b[n + 1] == le32_bytes(x)[1]);
    assert(b[n + 2] == le32_bytes(x)[2]);
    assert(b[n + 3] == le32_bytes(x)[3]);
}

/// Writing what was read gives the bytes.
pub proof fn law_le32_bytes_round_trip(b: Seq<u8>, at: int)
    requires
        0 <= at,
        at + 4 <= b.len(),
    ensures
        0 <= le32(b, at) <= u32::MAX,
        le32_bytes(le32(b, at)) == b.subrange(at, at + 4),
{
    assert(le32_bytes(le32(b, at)) =~= b.subrange(at, at + 4));
}

/// Reading a `u16` back gives the number, wherever it stands.
pub proof fn law_le16_round_trip(pre: Seq<u8>, x: int, post: Seq<u8>)
    requires
        0 <= x <= u16::MAX,
    ensures
        le16(pre + le16_bytes(x) + post, pre.len() as int) == x,
{
    let b = pre + le16_bytes(x) + post;
    let n = pre.len() as int;
    assert(b[n] == le16_bytes(x)[0]);
    assert(b[n + 1] == le16_bytes(x)[1]);
}

/// The bytes of a stored number are its digits in base 256, the lowest first.
pub proof fn law_lowest_byte_first(b: Seq<u8>, at: int)
    requires
        0 <= at,
    ensures
        at + 4 <= b.len() ==> {
            &&& 0 <= le32(b, at) <= 0xFFFF_FFFF
            &&& le32(b, at) % 256 == b[at]
            &&& le32(b, at) / 256 % 256 == b[at + 1]
            &&& le32(b, at) / 0x1_0000 % 256 == b[at + 2]
            &&& le32(b, at) / 0x100_0000 == b[at + 3]
        },
        at + 2 <= b.len() ==> {
            &&& le16(b, at) % 256 == b[at]
            &&& le16(b, at) / 256 == b[at + 1]
        },
{
}

/// Where numbers stand does not depend on what is before or behind them.
pub proof fn law_numbers_stand_alone(pre: Seq<u8>, b: Seq<u8>, post: Seq<u8>, at: int)
    requires
        0 <= at,
    ensures
        at + 4 <= b.len() ==> le32(pre + b + post, pre.len() + at) == le32(b, at),
        at + 2 <= b.len() ==> le16(pre + b + post, pre.len() + at) == le16(b, at),
{
}

} // verus!
