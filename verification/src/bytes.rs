//! Little-endian scalar codec over byte sequences, and the suffix
//! ("grown backward") view of a buffer under construction.

use vstd::prelude::*;

verus! {

/// Largest buffer the builder will grow; keeps every offset well inside
/// the 32-bit range the wire format can address.
pub const MAX_BUFFER_BYTES: usize = 0x0F00_0000;

/// Largest inline extent of a single table, so that every vtable entry
/// fits in 16 bits.
pub const MAX_TABLE_BYTES: usize = 0xF000;

/// Largest vtable slot position (a byte offset into the vtable).
pub const MAX_SLOT_VOFFSET: u16 = 0x7F00;

/// The 16-bit little-endian value stored at position `p`.
pub open spec fn le16_at(b: Seq<u8>, p: int) -> int {
    b[p] + 0x100 * b[p + 1]
}

/// The 32-bit little-endian value stored at position `p`.
pub open spec fn le32_at(b: Seq<u8>, p: int) -> int {
    b[p] + 0x100 * b[p + 1] + 0x10000 * b[p + 2] + 0x1000000 * b[p + 3]
}

/// Reads an unsigned 32-bit word as a two's-complement signed value.
pub open spec fn signed32(v: int) -> int {
    if v < 0x8000_0000 {
        v
    } else {
        v - 0x1_0000_0000
    }
}

/// A 16-bit read within the front block of a concatenation sees only
/// that block.
pub proof fn lemma_front_le16(a: Seq<u8>, b: Seq<u8>, p: int)
    requires
        0 <= p,
        p + 2 <= a.len(),
    ensures
        le16_at(a + b, p) == le16_at(a, p),
{
    assert((a + b)[p] == a[p]);
    assert((a + b)[p + 1] == a[p + 1]);
}

pub proof fn lemma_front_le32(a: Seq<u8>, b: Seq<u8>, p: int)
    requires
        0 <= p,
        p + 4 <= a.len(),
    ensures
        le32_at(a + b, p) == le32_at(a, p),
{
    assert((a + b)[p] == a[p]);
    assert((a + b)[p + 1] == a[p + 1]);
    assert((a + b)[p + 2] == a[p + 2]);
    assert((a + b)[p + 3] == a[p + 3]);
}

pub proof fn lemma_front_subrange(a: Seq<u8>, b: Seq<u8>, p: int, q: int)
    requires
        0 <= p <= q <= a.len(),
    ensures
        (a + b).subrange(p, q) == a.subrange(p, q),
{
    assert((a + b).subrange(p, q) =~= a.subrange(p, q));
}

/// A 16-bit read within a prefix that later bytes were appended to.
pub proof fn lemma_le16_prefix(o: Seq<u8>, n: Seq<u8>, p: int)
    requires
        0 <= p,
        p + 2 <= o.len() <= n.len(),
        n.subrange(0, o.len() as int) == o,
    ensures
        le16_at(n, p) == le16_at(o, p),
{
    assert(n.subrange(0, o.len() as int)[p] == o[p]);
    assert(n.subrange(0, o.len() as int)[p + 1] == o[p + 1]);
}

/// A 32-bit read within a prefix that later bytes were appended to.
pub proof fn lemma_le32_prefix(o: Seq<u8>, n: Seq<u8>, p: int)
    requires
        0 <= p,
        p + 4 <= o.len() <= n.len(),
        n.subrange(0, o.len() as int) == o,
    ensures
        le32_at(n, p) == le32_at(o, p),
{
    assert(n.subrange(0, o.len() as int)[p] == o[p]);
    assert(n.subrange(0, o.len() as int)[p + 1] == o[p + 1]);
    assert(n.subrange(0, o.len() as int)[p + 2] == o[p + 2]);
    assert(n.subrange(0, o.len() as int)[p + 3] == o[p + 3]);
}

/// A 16-bit read inside a block known to sit at position `p`.
pub proof fn lemma_le16_in_block(s: Seq<u8>, p: int, bb: Seq<u8>, q: int)
    requires
        0 <= p,
        p + bb.len() <= s.len(),
        s.subrange(p, p + bb.len()) == bb,
        0 <= q,
        q + 2 <= bb.len(),
    ensures
        le16_at(s, p + q) == le16_at(bb, q),
{
    assert(s.subrange(p, p + bb.len())[q] == bb[q]);
    assert(s.subrange(p, p + bb.len())[q + 1] == bb[q + 1]);
}

pub proof fn lemma_le32_bounds(b: Seq<u8>, p: int)
    requires
        0 <= p,
        p + 4 <= b.len(),
    ensures
        0 <= le32_at(b, p) <= 0xFFFF_FFFF,
{
}

/// Reads the byte at `p`.
pub fn read_u8(b: &Vec<u8>, p: usize) -> (r: u8)
    requires
        p < b@.len(),
    ensures
        r == b@[p as int],
{
    b[p]
}

/// Reads the little-endian 16-bit value at `p`.
pub fn read_u16(b: &Vec<u8>, p: usize) -> (r: u16)
    requires
        p + 2 <= b@.len(),
    ensures
        r == le16_at(b@, p as int),
{
    let n = b.len();
    let lo = b[p];
    let hi = b[p + 1];
    (lo as u16) + 0x100 * (hi as u16)
}

/// Reads the little-endian 32-bit value at `p`.
pub fn read_u32(b: &Vec<u8>, p: usize) -> (r: u32)
    requires
        p + 4 <= b@.len(),
    ensures
        r == le32_at(b@, p as int),
{
    let n = b.len();
    let b0 = b[p];
    let b1 = b[p + 1];
    let b2 = b[p + 2];
    let b3 = b[p + 3];
    (b0 as u32) + 0x100 * (b1 as u32) + 0x10000 * (b2 as u32) + 0x1000000 * (b3 as u32)
}

/// Appends the two little-endian bytes of `x`.
pub fn push_u16(v: &mut Vec<u8>, x: u16)
    ensures
        final(v)@.len() == old(v)@.len() + 2,
        final(v)@.subrange(0, old(v)@.len() as int) == old(v)@,
        le16_at(final(v)@, old(v)@.len() as int) == x,
{
    let lo = (x % 0x100) as u8;
    let hi = (x / 0x100) as u8;
    v.push(lo);
    v.push(hi);
    proof {
        vstd::arithmetic::div_mod::lemma_fundamental_div_mod(x as int, 0x100);
        assert(final(v)@.subrange(0, old(v)@.len() as int) =~= old(v)@);
    }
}

/// Appends the four little-endian bytes of `x`.
pub fn push_u32(v: &mut Vec<u8>, x: u32)
    ensures
        final(v)@.len() == old(v)@.len() + 4,
        final(v)@.subrange(0, old(v)@.len() as int) == old(v)@,
        le32_at(final(v)@, old(v)@.len() as int) == x,
{
    let lo = (x % 0x10000) as u16;
    let hi = (x / 0x10000) as u16;
    push_u16(v, lo);
    push_u16(v, hi);
    proof {
        vstd::arithmetic::div_mod::lemma_fundamental_div_mod(x as int, 0x10000);
        assert(final(v)@.subrange(0, old(v)@.len() as int) =~= old(v)@);
        assert(le32_at(final(v)@, old(v)@.len() as int) == x) by {
            let p = old(v)@.len() as int;
            let s = final(v)@;
            assert(le16_at(s, p) == lo);
            assert(le16_at(s, p + 2) == hi);
            assert(le32_at(s, p) == le16_at(s, p) + 0x10000 * le16_at(s, p + 2));
        }
    }
}

} // verus!
