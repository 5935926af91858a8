//! The wire layout of tables, vtables and strings.
//!
//! Everything here is stated twice: once over absolute positions in a
//! finished buffer (`table_ok`, `slot_off`, ...), and once in "rev"
//! coordinates, distances from the end of the buffer.  The builder grows
//! a buffer backward, so a rev coordinate of an object never changes once
//! the object is written; the `lemma_ext_*` lemmas transport facts about
//! an older, shorter suffix to any extension of it.

use vstd::prelude::*;
use crate::bytes::le16_at;
use crate::bytes::le32_at;
use crate::bytes::signed32;

verus! {

// ----- positions within a finished buffer -----

/// Position of the vtable of the table at `t`: the table starts with a
/// 32-bit signed offset pointing (usually backward) at its vtable.
pub open spec fn vtable_pos(b: Seq<u8>, t: int) -> int {
    t - signed32(le32_at(b, t))
}

/// Byte length of the vtable of the table at `t` (its first entry).
pub open spec fn vt_len(b: Seq<u8>, t: int) -> int {
    le16_at(b, vtable_pos(b, t))
}

/// Inline byte length of the table at `t` (the vtable's second entry).
pub open spec fn tbl_len(b: Seq<u8>, t: int) -> int {
    le16_at(b, vtable_pos(b, t) + 2)
}

/// Table-relative offset of the field with vtable slot position `vo`
/// (a byte offset into the vtable, starting at 4); 0 means absent.
/// Slots beyond the end of the vtable read as absent, which is what
/// makes buffers from older schemas readable.
pub open spec fn slot_off(b: Seq<u8>, t: int, vo: int) -> int {
    if vo + 2 <= vt_len(b, t) {
        le16_at(b, vtable_pos(b, t) + vo)
    } else {
        0
    }
}

/// Absolute position of a present field.
pub open spec fn field_pos(b: Seq<u8>, t: int, vo: int) -> int {
    t + slot_off(b, t, vo)
}

/// Absolute position of the string a present offset field points at:
/// the field stores a 32-bit forward offset relative to itself.
pub open spec fn str_pos(b: Seq<u8>, t: int, vo: int) -> int {
    field_pos(b, t, vo) + le32_at(b, field_pos(b, t, vo))
}

// ----- validity -----

/// The table at `t` and its vtable are in bounds and well-formed.
pub open spec fn table_ok(b: Seq<u8>, t: int) -> bool {
    &&& 0 <= t
    &&& t + 4 <= b.len()
    &&& 0 <= vtable_pos(b, t)
    &&& vtable_pos(b, t) + 4 <= b.len()
    &&& 4 <= vt_len(b, t)
    &&& vt_len(b, t) % 2 == 0
    &&& vtable_pos(b, t) + vt_len(b, t) <= b.len()
    &&& 4 <= tbl_len(b, t)
    &&& t + tbl_len(b, t) <= b.len()
}

/// A scalar field of width `size` is absent, or lies inside the table.
pub open spec fn scalar_field_ok(b: Seq<u8>, t: int, vo: int, size: int) -> bool {
    slot_off(b, t, vo) == 0 || (4 <= slot_off(b, t, vo) && slot_off(b, t, vo) + size <= tbl_len(
        b,
        t,
    ))
}

/// A well-formed string at `s`: 32-bit length prefix, the bytes, and a
/// trailing NUL not counted by the length.
pub open spec fn str_ok(b: Seq<u8>, s: int) -> bool {
    &&& 0 <= s
    &&& s + 4 <= b.len()
    &&& s + 5 + le32_at(b, s) <= b.len()
    &&& b[s + 4 + le32_at(b, s)] == 0
}

/// The content bytes of the string at `s` (length prefix and NUL excluded).
pub open spec fn str_bytes(b: Seq<u8>, s: int) -> Seq<u8> {
    b.subrange(s + 4, s + 4 + le32_at(b, s))
}

/// A string field is absent, or its offset lies inside the table and
/// points at a well-formed string.
pub open spec fn str_field_ok(b: Seq<u8>, t: int, vo: int) -> bool {
    slot_off(b, t, vo) == 0 || (4 <= slot_off(b, t, vo) && slot_off(b, t, vo) + 4 <= tbl_len(b, t)
        && str_ok(b, str_pos(b, t, vo)))
}

// ----- field values, with defaults for absent slots -----

pub open spec fn field_u8(b: Seq<u8>, t: int, vo: int, d: u8) -> u8 {
    if slot_off(b, t, vo) == 0 {
        d
    } else {
        b[field_pos(b, t, vo)]
    }
}

pub open spec fn field_bool(b: Seq<u8>, t: int, vo: int, d: bool) -> bool {
    if slot_off(b, t, vo) == 0 {
        d
    } else {
        b[field_pos(b, t, vo)] != 0
    }
}

pub open spec fn field_u32(b: Seq<u8>, t: int, vo: int, d: u32) -> u32 {
    if slot_off(b, t, vo) == 0 {
        d
    } else {
        le32_at(b, field_pos(b, t, vo)) as u32
    }
}

pub open spec fn field_str(b: Seq<u8>, t: int, vo: int) -> Option<Seq<u8>> {
    if slot_off(b, t, vo) == 0 {
        None
    } else {
        Some(str_bytes(b, str_pos(b, t, vo)))
    }
}

// ----- the buffer head -----

/// Position of the root table: the buffer starts with a 32-bit forward
/// offset relative to position 0.
pub open spec fn root_pos(b: Seq<u8>) -> int {
    le32_at(b, 0)
}

pub open spec fn root_header_ok(b: Seq<u8>) -> bool {
    b.len() >= 4
}

/// The four identifier bytes stored at position `p`.
pub open spec fn identifier_at(b: Seq<u8>, p: int, i0: u8, i1: u8, i2: u8, i3: u8) -> bool {
    &&& p + 4 <= b.len()
    &&& b[p] == i0
    &&& b[p + 1] == i1
    &&& b[p + 2] == i2
    &&& b[p + 3] == i3
}

/// Head of a size-prefixed buffer: a 32-bit byte count of everything
/// after the prefix, then the root offset relative to its own position.
pub open spec fn sp_header_ok(b: Seq<u8>) -> bool {
    b.len() >= 8 && le32_at(b, 0) == b.len() - 4
}

pub open spec fn sp_root_pos(b: Seq<u8>) -> int {
    4 + le32_at(b, 4)
}

// ----- rev coordinates: distances from the end of the buffer -----

/// `n` extends `o` at the front: `o` is a suffix of `n`.
#[verifier::opaque]
pub open spec fn ext(o: Seq<u8>, n: Seq<u8>) -> bool {
    o.len() <= n.len() && n.subrange(n.len() - o.len(), n.len() as int) == o
}

/// The lengths side of `ext`, available without unfolding it.
pub proof fn lemma_ext_len(o: Seq<u8>, n: Seq<u8>)
    requires
        ext(o, n),
    ensures
        o.len() <= n.len(),
{
    reveal(ext);
}

pub open spec fn byte_at_rev(s: Seq<u8>, r: int) -> u8 {
    s[s.len() - r]
}

pub open spec fn le16_at_rev(s: Seq<u8>, r: int) -> int {
    le16_at(s, s.len() - r)
}

pub open spec fn le32_at_rev(s: Seq<u8>, r: int) -> int {
    le32_at(s, s.len() - r)
}

pub open spec fn table_ok_rev(s: Seq<u8>, rt: int) -> bool {
    table_ok(s, s.len() - rt)
}

pub open spec fn slot_off_rev(s: Seq<u8>, rt: int, vo: int) -> int {
    slot_off(s, s.len() - rt, vo)
}

pub open spec fn tbl_len_rev(s: Seq<u8>, rt: int) -> int {
    tbl_len(s, s.len() - rt)
}

pub open spec fn str_ok_rev(s: Seq<u8>, r: int) -> bool {
    str_ok(s, s.len() - r)
}

pub open spec fn str_bytes_rev(s: Seq<u8>, r: int) -> Seq<u8> {
    str_bytes(s, s.len() - r)
}

// ----- transport lemmas -----

pub proof fn lemma_ext_refl(s: Seq<u8>)
    ensures
        ext(s, s),
{
    reveal(ext);
    assert(s.subrange(0, s.len() as int) =~= s);
}

pub proof fn lemma_prepend_ext(a: Seq<u8>, s: Seq<u8>)
    ensures
        ext(s, a + s),
{
    reveal(ext);
    assert((a + s).subrange(a.len() as int, (a + s).len() as int) =~= s);
}

pub proof fn lemma_ext_index(o: Seq<u8>, n: Seq<u8>, r: int)
    requires
        ext(o, n),
        0 < r <= o.len(),
    ensures
        n[n.len() - r] == o[o.len() - r],
{
    reveal(ext);
    assert(n.subrange(n.len() - o.len(), n.len() as int)[o.len() - r] == o[o.len() - r]);
}

pub proof fn lemma_ext_trans(a: Seq<u8>, b: Seq<u8>, c: Seq<u8>)
    requires
        ext(a, b),
        ext(b, c),
    ensures
        ext(a, c),
{
    reveal(ext);
    assert forall|i: int| 0 <= i < a.len() implies c.subrange(
        c.len() - a.len(),
        c.len() as int,
    )[i] == a[i] by {
        lemma_ext_index(b, c, a.len() - i);
        lemma_ext_index(a, b, a.len() - i);
    }
    assert(c.subrange(c.len() - a.len(), c.len() as int) =~= a);
}

pub proof fn lemma_ext_byte(o: Seq<u8>, n: Seq<u8>, r: int)
    requires
        ext(o, n),
        0 < r <= o.len(),
    ensures
        byte_at_rev(n, r) == byte_at_rev(o, r),
{
    lemma_ext_index(o, n, r);
}

pub proof fn lemma_ext_le16(o: Seq<u8>, n: Seq<u8>, r: int)
    requires
        ext(o, n),
        2 <= r <= o.len(),
    ensures
        le16_at_rev(n, r) == le16_at_rev(o, r),
{
    lemma_ext_index(o, n, r);
    lemma_ext_index(o, n, r - 1);
}

pub proof fn lemma_ext_le32(o: Seq<u8>, n: Seq<u8>, r: int)
    requires
        ext(o, n),
        4 <= r <= o.len(),
    ensures
        le32_at_rev(n, r) == le32_at_rev(o, r),
{
    lemma_ext_index(o, n, r);
    lemma_ext_index(o, n, r - 1);
    lemma_ext_index(o, n, r - 2);
    lemma_ext_index(o, n, r - 3);
}

pub proof fn lemma_ext_subrange(o: Seq<u8>, n: Seq<u8>, r: int, len: int)
    requires
        ext(o, n),
        0 <= len <= r <= o.len(),
    ensures
        n.subrange(n.len() - r, n.len() - r + len) == o.subrange(o.len() - r, o.len() - r + len),
{
    reveal(ext);

    assert forall|i: int| 0 <= i < len implies #[trigger] n.subrange(n.len() - r, n.len() - r + len)[i]
        == o.subrange(o.len() - r, o.len() - r + len)[i] by {
        lemma_ext_index(o, n, r - i);
    }
    assert(n.subrange(n.len() - r, n.len() - r + len) =~= o.subrange(
        o.len() - r,
        o.len() - r + len,
    ));
}

/// A string written at rev coordinate `r` stays a valid string, with the
/// same contents, in every extension.
pub proof fn lemma_ext_str(o: Seq<u8>, n: Seq<u8>, r: int)
    requires
        ext(o, n),
        r <= o.len(),
        str_ok_rev(o, r),
    ensures
        str_ok_rev(n, r),
        le32_at_rev(n, r) == le32_at_rev(o, r),
        str_bytes_rev(n, r) == str_bytes_rev(o, r),
{
    lemma_ext_len(o, n);
    let len = le32_at(o, o.len() - r);
    lemma_ext_le32(o, n, r);
    lemma_ext_subrange(o, n, r - 4, len);
    lemma_ext_index(o, n, r - 4 - len);
    assert(str_bytes_rev(n, r) =~= str_bytes_rev(o, r));
}

/// A finished table at rev coordinate `rt` stays well-formed, with the
/// same vtable contents, in every extension.
pub proof fn lemma_ext_table(o: Seq<u8>, n: Seq<u8>, rt: int)
    requires
        ext(o, n),
        4 <= rt <= o.len(),
        table_ok_rev(o, rt),
    ensures
        table_ok_rev(n, rt),
        vt_len(n, n.len() - rt) == vt_len(o, o.len() - rt),
        tbl_len_rev(n, rt) == tbl_len_rev(o, rt),
        vtable_pos(n, n.len() - rt) - (n.len() - rt) == vtable_pos(o, o.len() - rt) - (o.len()
            - rt),
        forall|vo: int|
            4 <= vo ==> #[trigger] slot_off_rev(n, rt, vo) == slot_off_rev(o, rt, vo),
{
    lemma_ext_len(o, n);
    let t_o = o.len() - rt;
    let t_n = n.len() - rt;
    lemma_ext_le32(o, n, rt);
    let rv = o.len() - vtable_pos(o, t_o);
    lemma_ext_le16(o, n, rv);
    lemma_ext_le16(o, n, rv - 2);
    assert(vtable_pos(n, t_n) == n.len() - rv);
    assert forall|vo: int| 4 <= vo implies #[trigger] slot_off_rev(n, rt, vo) == slot_off_rev(
        o,
        rt,
        vo,
    ) by {
        if vo + 2 <= vt_len(o, t_o) {
            lemma_ext_le16(o, n, rv - vo);
        }
    }
}

/// A present scalar field keeps its bytes in every extension.
pub proof fn lemma_ext_scalar_bytes(o: Seq<u8>, n: Seq<u8>, rt: int, vo: int, size: int)
    requires
        ext(o, n),
        4 <= rt <= o.len(),
        table_ok_rev(o, rt),
        4 <= vo,
        1 <= size <= 4,
        scalar_field_ok(o, o.len() - rt, vo, size),
        slot_off_rev(o, rt, vo) != 0,
    ensures
        slot_off_rev(n, rt, vo) == slot_off_rev(o, rt, vo),
        scalar_field_ok(n, n.len() - rt, vo, size),
        byte_at_rev(n, rt - slot_off_rev(o, rt, vo)) == byte_at_rev(o, rt - slot_off_rev(o, rt, vo)),
        size == 4 ==> le32_at_rev(n, rt - slot_off_rev(o, rt, vo)) == le32_at_rev(
            o,
            rt - slot_off_rev(o, rt, vo),
        ),
{
    lemma_ext_len(o, n);
    lemma_ext_table(o, n, rt);
    assert(slot_off_rev(n, rt, vo) == slot_off_rev(o, rt, vo));
    let off = slot_off_rev(o, rt, vo);
    lemma_ext_index(o, n, rt - off);
    if size == 4 {
        lemma_ext_le32(o, n, rt - off);
    }
}

/// A present string field keeps pointing at the same string in every
/// extension.
pub proof fn lemma_ext_str_field(o: Seq<u8>, n: Seq<u8>, rt: int, vo: int)
    requires
        ext(o, n),
        4 <= rt <= o.len(),
        table_ok_rev(o, rt),
        4 <= vo,
        str_field_ok(o, o.len() - rt, vo),
    ensures
        slot_off_rev(n, rt, vo) == slot_off_rev(o, rt, vo),
        str_field_ok(n, n.len() - rt, vo),
        field_str(n, n.len() - rt, vo) == field_str(o, o.len() - rt, vo),
{
    lemma_ext_len(o, n);
    lemma_ext_table(o, n, rt);
    let t_o = o.len() - rt;
    let t_n = n.len() - rt;
    let off = slot_off(o, t_o, vo);
    assert(slot_off_rev(n, rt, vo) == slot_off_rev(o, rt, vo));
    if off != 0 {
        lemma_ext_le32(o, n, rt - off);
        let u = le32_at(o, t_o + off);
        let rs = rt - off - u;
        assert(str_pos(o, t_o, vo) == o.len() - rs);
        assert(str_pos(n, t_n, vo) == n.len() - rs);
        lemma_ext_str(o, n, rs);
    }
}

} // verus!
