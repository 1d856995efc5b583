//! Big-endian integers inside byte sequences.

use vstd::prelude::*;

verus! {

/// The two big-endian bytes of `v`.
pub open spec fn be16(v: u16) -> Seq<u8> {
    seq![(v / 0x100) as u8, (v % 0x100) as u8]
}

/// The value of the two big-endian bytes of `b` that start at `off`.
pub open spec fn be16_at(b: Seq<u8>, off: int) -> u16 {
    (b[off] * 0x100 + b[off + 1]) as u16
}

/// The four big-endian bytes of `v`.
pub open spec fn be32(v: u32) -> Seq<u8> {
    seq![
        (v / 0x100_0000) as u8,
        (v / 0x1_0000 % 0x100) as u8,
        (v / 0x100 % 0x100) as u8,
        (v % 0x100) as u8,
    ]
}

/// The value of the four big-endian bytes of `b` that start at `off`.
pub open spec fn be32_at(b: Seq<u8>, off: int) -> u32 {
    (b[off] * 0x100_0000 + b[off + 1] * 0x1_0000 + b[off + 2] * 0x100 + b[off + 3]) as u32
}

/// Reading back a written 16-bit value gives that value.
pub proof fn lemma_be16_round_trip(v: u16)
    ensures
        be16_at(be16(v), 0) == v,
{
}

/// Two bytes are the encoding of the value that is read from them.
pub proof fn lemma_be16_canonical(b: Seq<u8>, off: int)
    requires
        0 <= off,
        off + 2 <= b.len(),
    ensures
        be16(be16_at(b, off)) == b.subrange(off, off + 2),
{
    assert(be16(be16_at(b, off)) =~= b.subrange(off, off + 2));
}

/// The four bytes of a number in base 256 can be read off one by one.
proof fn lemma_base_256(b0: int, b1: int, b2: int, b3: int)
    requires
        0 <= b0 < 0x100,
        0 <= b1 < 0x100,
        0 <= b2 < 0x100,
        0 <= b3 < 0x100,
    ensures
        ({
            let v = b0 * 0x100_0000 + b1 * 0x1_0000 + b2 * 0x100 + b3;
            &&& 0 <= v < 0x1_0000_0000
            &&& v / 0x100_0000 == b0
            &&& v / 0x1_0000 % 0x100 == b1
            &&& v / 0x100 % 0x100 == b2
            &&& v % 0x100 == b3
        }),
{
    let v = b0 * 0x100_0000 + b1 * 0x1_0000 + b2 * 0x100 + b3;
    assert(v / 0x1_0000 == b0 * 0x100 + b1);
    assert(v / 0x100 == b0 * 0x1_0000 + b1 * 0x100 + b2);
}

/// Reading back a written 32-bit value gives that value.
pub proof fn lemma_be32_round_trip(v: u32)
    ensures
        be32_at(be32(v), 0) == v,
{
}

/// Four bytes are the encoding of the value that is read from them.
pub proof fn lemma_be32_canonical(b: Seq<u8>, off: int)
    requires
        0 <= off,
        off + 4 <= b.len(),
    ensures
        be32(be32_at(b, off)) == b.subrange(off, off + 4),
{
    lemma_base_256(b[off] as int, b[off + 1] as int, b[off + 2] as int, b[off + 3] as int);
    assert(be32(be32_at(b, off)) =~= b.subrange(off, off + 4));
}

/// Reads a big-endian `u16` at `off`.
pub fn read_u16(b: &[u8], off: usize) -> (v: u16)
    requires
        off + 2 <= b@.len(),
    ensures
        v == be16_at(b@, off as int),
        v == b@[off as int] * 0x100 + b@[off + 1],
{
    b[off] as u16 * 0x100 + b[off + 1] as u16
}

/// Reads a big-endian `u32` at `off`.
pub fn read_u32(b: &[u8], off: usize) -> (v: u32)
    requires
        off + 4 <= b@.len(),
    ensures
        v == be32_at(b@, off as int),
        v == b@[off as int] * 0x100_0000 + b@[off + 1] * 0x1_0000 + b@[off + 2] * 0x100 + b@[off
            + 3],
{
    b[off] as u32 * 0x100_0000 + b[off + 1] as u32 * 0x1_0000 + b[off + 2] as u32 * 0x100
        + b[off + 3] as u32
}

/// Overwrites the four bytes at `off` with `v`, big-endian.
pub fn write_u32(b: &mut [u8], off: usize, v: u32)
    requires
        off + 4 <= old(b)@.len(),
    ensures
        final(b)@ == old(b)@.subrange(0, off as int) + be32(v) + old(b)@.subrange(
            off + 4,
            old(b)@.len() as int,
        ),
        final(b)@[off as int] * 0x100_0000 + final(b)@[off + 1] * 0x1_0000 + final(b)@[off + 2]
            * 0x100 + final(b)@[off + 3] == v,
{
    b[off] = (v / 0x100_0000) as u8;
    b[off + 1] = (v / 0x1_0000 % 0x100) as u8;
    b[off + 2] = (v / 0x100 % 0x100) as u8;
    b[off + 3] = (v % 0x100) as u8;
    assert(b@ =~= old(b)@.subrange(0, off as int) + be32(v) + old(b)@.subrange(
        off + 4,
        old(b)@.len() as int,
    ));
}

/// Appends `v`, big-endian.
pub fn push_u16(out: &mut Vec<u8>, v: u16)
    ensures
        final(out)@ == old(out)@ + be16(v),
        final(out)@.len() == old(out)@.len() + 2,
        final(out)@[old(out)@.len() as int] * 0x100 + final(out)@[old(out)@.len() as int + 1] == v,
{
    out.push((v / 0x100) as u8);
    out.push((v % 0x100) as u8);
    assert(out@ =~= old(out)@ + be16(v));
}

/// Appends `v`, big-endian.
pub fn push_u32(out: &mut Vec<u8>, v: u32)
    ensures
        final(out)@ == old(out)@ + be32(v),
        final(out)@.len() == old(out)@.len() + 4,
        ({
            let n = old(out)@.len() as int;
            final(out)@[n] * 0x100_0000 + final(out)@[n + 1] * 0x1_0000 + final(out)@[n + 2]
                * 0x100 + final(out)@[n + 3] == v
        }),
{
    out.push((v / 0x100_0000) as u8);
    out.push((v / 0x1_0000 % 0x100) as u8);
    out.push((v / 0x100 % 0x100) as u8);
    out.push((v % 0x100) as u8);
    assert(out@ =~= old(out)@ + be32(v));
}

/// Appends the bytes of `s`.
pub fn push_bytes(out: &mut Vec<u8>, s: &[u8])
    ensures
        final(out)@ == old(out)@ + s@,
{
    out.extend_from_slice(s);
    assert(out@ =~= old(out)@ + s@);
}

/// Integers are big-endian: of the bytes that are written or read, the first
/// counts most.
pub proof fn lemma_big_endian(b: Seq<u8>, off: int, v: u16, w: u32)
    ensures
        be16_at(b, off) == b[off] * 0x100 + b[off + 1],
        be16(v).len() == 2,
        be16(v)[0] * 0x100 + be16(v)[1] == v,
        be32_at(b, off) == b[off] * 0x100_0000 + b[off + 1] * 0x1_0000 + b[off + 2] * 0x100 + b[off
            + 3],
        be32(w).len() == 4,
        be32(w)[0] * 0x100_0000 + be32(w)[1] * 0x1_0000 + be32(w)[2] * 0x100 + be32(w)[3] == w,
{
}

} // verus!
