use vstd::prelude::*;

verus! {

/// The 64-bit integer that eight bytes encode, most significant byte first.
pub open spec fn be_u64(b0: u8, b1: u8, b2: u8, b3: u8, b4: u8, b5: u8, b6: u8, b7: u8) -> u64 {
    (b0 as u64) << 56u64 | (b1 as u64) << 48u64 | (b2 as u64) << 40u64 | (b3 as u64) << 32u64
        | (b4 as u64) << 24u64 | (b5 as u64) << 16u64 | (b6 as u64) << 8u64 | (b7 as u64)
}

/// The 32-bit integer that four bytes encode, most significant byte first.
pub open spec fn be_u32(b0: u8, b1: u8, b2: u8, b3: u8) -> u32 {
    (b0 as u32) << 24u32 | (b1 as u32) << 16u32 | (b2 as u32) << 8u32 | (b3 as u32)
}

/// The 16-bit integer that two bytes encode, most significant byte first.
pub open spec fn be_u16(b0: u8, b1: u8) -> u16 {
    (b0 as u16) << 8u16 | (b1 as u16)
}

/// The big-endian 64-bit integer stored at `off` in `s`.
pub open spec fn be_u64_at(s: Seq<u8>, off: int) -> u64 {
    be_u64(s[off], s[off + 1], s[off + 2], s[off + 3], s[off + 4], s[off + 5], s[off + 6], s[off + 7])
}

/// The big-endian 32-bit integer stored at `off` in `s`.
pub open spec fn be_u32_at(s: Seq<u8>, off: int) -> u32 {
    be_u32(s[off], s[off + 1], s[off + 2], s[off + 3])
}

/// The big-endian 16-bit integer stored at `off` in `s`.
pub open spec fn be_u16_at(s: Seq<u8>, off: int) -> u16 {
    be_u16(s[off], s[off + 1])
}

/// The eight bytes of `x`, most significant first.
pub open spec fn be_bytes_u64(x: u64) -> Seq<u8> {
    seq![
        (x >> 56u64) as u8, (x >> 48u64) as u8, (x >> 40u64) as u8, (x >> 32u64) as u8,
        (x >> 24u64) as u8, (x >> 16u64) as u8, (x >> 8u64) as u8, x as u8,
    ]
}

/// The four bytes of `x`, most significant first.
pub open spec fn be_bytes_u32(x: u32) -> Seq<u8> {
    seq![(x >> 24u32) as u8, (x >> 16u32) as u8, (x >> 8u32) as u8, x as u8]
}

/// Reading back the bytes of a 64-bit integer gives the integer.
pub proof fn lemma_be_u64_round_trip(x: u64)
    ensures
        be_u64_at(be_bytes_u64(x), 0) == x,
{
    let s = be_bytes_u64(x);
    let (b0, b1, b2, b3) = ((x >> 56u64) as u8, (x >> 48u64) as u8, (x >> 40u64) as u8, (x >> 32u64) as u8);
    let (b4, b5, b6, b7) = ((x >> 24u64) as u8, (x >> 16u64) as u8, (x >> 8u64) as u8, x as u8);
    assert(s[0] == b0 && s[1] == b1 && s[2] == b2 && s[3] == b3);
    assert(s[4] == b4 && s[5] == b5 && s[6] == b6 && s[7] == b7);
    assert(be_u64(b0, b1, b2, b3, b4, b5, b6, b7) == x) by (bit_vector)
        requires
            b0 == (x >> 56u64) as u8, b1 == (x >> 48u64) as u8, b2 == (x >> 40u64) as u8,
            b3 == (x >> 32u64) as u8, b4 == (x >> 24u64) as u8, b5 == (x >> 16u64) as u8,
            b6 == (x >> 8u64) as u8, b7 == x as u8,
    ;
}

/// Reading back the bytes of a 32-bit integer gives the integer.
pub proof fn lemma_be_u32_round_trip(x: u32)
    ensures
        be_u32_at(be_bytes_u32(x), 0) == x,
{
    let s = be_bytes_u32(x);
    let (b0, b1, b2, b3) = ((x >> 24u32) as u8, (x >> 16u32) as u8, (x >> 8u32) as u8, x as u8);
    assert(s[0] == b0 && s[1] == b1 && s[2] == b2 && s[3] == b3);
    assert(be_u32(b0, b1, b2, b3) == x) by (bit_vector)
        requires
            b0 == (x >> 24u32) as u8, b1 == (x >> 16u32) as u8, b2 == (x >> 8u32) as u8,
            b3 == x as u8,
    ;
}

/// Reads the big-endian 64-bit integer at `off`.
pub fn read_be_u64(buf: &[u8], off: usize) -> (r: u64)
    requires
        off + 8 <= buf@.len(),
    ensures
        r == be_u64_at(buf@, off as int),
{
    (buf[off] as u64) << 56u64 | (buf[off + 1] as u64) << 48u64 | (buf[off + 2] as u64) << 40u64
        | (buf[off + 3] as u64) << 32u64 | (buf[off + 4] as u64) << 24u64 | (buf[off + 5] as u64)
        << 16u64 | (buf[off + 6] as u64) << 8u64 | (buf[off + 7] as u64)
}

/// Reads the big-endian 32-bit integer at `off`.
pub fn read_be_u32(buf: &[u8], off: usize) -> (r: u32)
    requires
        off + 4 <= buf@.len(),
    ensures
        r == be_u32_at(buf@, off as int),
{
    (buf[off] as u32) << 24u32 | (buf[off + 1] as u32) << 16u32 | (buf[off + 2] as u32) << 8u32
        | (buf[off + 3] as u32)
}

/// Reads the big-endian 16-bit integer at `off`.
pub fn read_be_u16(buf: &[u8], off: usize) -> (r: u16)
    requires
        off + 2 <= buf@.len(),
    ensures
        r == be_u16_at(buf@, off as int),
{
    (buf[off] as u16) << 8u16 | (buf[off + 1] as u16)
}

/// Appends the eight big-endian bytes of `x`.
pub fn push_be_u64(out: &mut Vec<u8>, x: u64)
    ensures
        final(out)@ == old(out)@ + be_bytes_u64(x),
{
    out.push((x >> 56u64) as u8);
    out.push((x >> 48u64) as u8);
    out.push((x >> 40u64) as u8);
    out.push((x >> 32u64) as u8);
    out.push((x >> 24u64) as u8);
    out.push((x >> 16u64) as u8);
    out.push((x >> 8u64) as u8);
    out.push(x as u8);
    assert(final(out)@ =~= old(out)@ + be_bytes_u64(x));
}

/// Appends the four big-endian bytes of `x`.
pub fn push_be_u32(out: &mut Vec<u8>, x: u32)
    ensures
        final(out)@ == old(out)@ + be_bytes_u32(x),
{
    out.push((x >> 24u32) as u8);
    out.push((x >> 16u32) as u8);
    out.push((x >> 8u32) as u8);
    out.push(x as u8);
    assert(final(out)@ =~= old(out)@ + be_bytes_u32(x));
}

} // verus!
