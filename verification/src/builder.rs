//! The buffer builder: an append-only arena that grows backward.
//!
//! Objects are written back to front, so an object's distance from the
//! *end* of the buffer (its rev coordinate) never changes once written.
//! `create_string` and `end_table` return rev coordinates; `finish`
//! prepends the root offset (and an optional file identifier) and seals
//! the buffer.

use vstd::prelude::*;
use crate::bytes::{
    le16_at, le32_at, signed32, push_u16, push_u32, lemma_front_le16, lemma_front_le32,
    lemma_front_subrange, lemma_le16_prefix, lemma_le32_prefix, lemma_le16_in_block,
    MAX_BUFFER_BYTES, MAX_TABLE_BYTES, MAX_SLOT_VOFFSET,
};
use crate::layout::{
    ext, str_ok, str_ok_rev, str_bytes_rev, le32_at_rev, byte_at_rev, table_ok, table_ok_rev, slot_off,
    slot_off_rev, tbl_len_rev, vtable_pos, vt_len, tbl_len, root_pos, root_header_ok,
    identifier_at, sp_header_ok, sp_root_pos, lemma_prepend_ext, lemma_ext_refl,
    lemma_ext_subrange, lemma_ext_index, lemma_ext_trans, lemma_ext_len,
};

verus! {

/// One recorded field of the table currently being built: its vtable
/// slot position and the rev coordinate of its inline value.
pub struct SlotRec {
    pub vo: u16,
    pub rev: usize,
}

/// A vtable already written into the arena, kept for deduplication.
struct VtRec {
    bytes: Vec<u8>,
    rev: usize,
}

pub open spec fn distinct_vos(s: Seq<SlotRec>) -> bool {
    forall|i: int, j: int| 0 <= i < j < s.len() ==> s[i].vo != s[j].vo
}

pub open spec fn slot_rec_wf(r: SlotRec, mark: int, len: int) -> bool {
    &&& 4 <= r.vo <= MAX_SLOT_VOFFSET
    &&& r.vo % 2 == 0
    &&& mark < r.rev <= len
}

pub open spec fn slots_wf(s: Seq<SlotRec>, mark: int, len: int) -> bool {
    &&& distinct_vos(s)
    &&& forall|i: int| 0 <= i < s.len() ==> slot_rec_wf(#[trigger] s[i], mark, len)
}

/// Some recorded slot uses vtable position `vo`.
pub open spec fn has_vo(s: Seq<SlotRec>, vo: int) -> bool
    decreases s.len(),
{
    s.len() > 0 && (s.last().vo == vo || has_vo(s.drop_last(), vo))
}

/// The rev coordinate recorded for `vo` (meaningful when `has_vo`).
pub open spec fn rev_of_vo(s: Seq<SlotRec>, vo: int) -> int
    decreases s.len(),
{
    if s.len() == 0 {
        0
    } else if s.last().vo == vo {
        s.last().rev as int
    } else {
        rev_of_vo(s.drop_last(), vo)
    }
}

/// Membership among the recorded slots, in index form.
pub proof fn lemma_has_vo_exists(s: Seq<SlotRec>, vo: int)
    ensures
        has_vo(s, vo) <==> exists|i: int| 0 <= i < s.len() && s[i].vo == vo,
    decreases s.len(),
{
    if s.len() > 0 {
        lemma_has_vo_exists(s.drop_last(), vo);
        if s.last().vo == vo {
            assert(s[s.len() - 1].vo == vo);
        }
        if has_vo(s.drop_last(), vo) {
            let i = choose|i: int| 0 <= i < s.drop_last().len() && s.drop_last()[i].vo == vo;
            assert(s[i] == s.drop_last()[i]);
        }
        if exists|i: int| 0 <= i < s.len() && s[i].vo == vo {
            let i = choose|i: int| 0 <= i < s.len() && s[i].vo == vo;
            if i < s.len() - 1 {
                assert(s.drop_last()[i] == s[i]);
            }
        }
    }
}

/// The vtable entry that `end_table` writes for slot position `vo` in a
/// table whose start has rev coordinate `rt`.
pub open spec fn slot_entry(s: Seq<SlotRec>, rt: int, vo: int) -> int {
    if has_vo(s, vo) {
        rt - rev_of_vo(s, vo)
    } else {
        0
    }
}

/// The two IEEE-754 bit patterns that compare equal to 0.0f32 (the
/// schema default for float fields): positive and negative zero.
pub open spec fn f32_zero_bits(v: u32) -> bool {
    v == 0 || v == 0x8000_0000
}

/// The wire byte of a boolean.
pub open spec fn bool_byte(v: bool) -> u8 {
    if v {
        1
    } else {
        0
    }
}

/// The wire byte of a signed 8-bit scalar (two's complement).
pub open spec fn byte_of_i8(v: i8) -> u8 {
    if v >= 0 {
        v as u8
    } else {
        (v + 0x100) as u8
    }
}

/// How one recorded slot changes the membership and rev-coordinate
/// bookkeeping of the pending table.
pub proof fn lemma_pending_push(s: Seq<SlotRec>, rec: SlotRec)
    requires
        distinct_vos(s),
        !has_vo(s, rec.vo as int),
    ensures
        distinct_vos(s.push(rec)),
        has_vo(s.push(rec), rec.vo as int),
        rev_of_vo(s.push(rec), rec.vo as int) == rec.rev,
        forall|vo: int| vo != rec.vo ==> (#[trigger] has_vo(s.push(rec), vo) <==> has_vo(s, vo)),
        forall|vo: int|
            vo != rec.vo && has_vo(s, vo) ==> #[trigger] rev_of_vo(s.push(rec), vo) == rev_of_vo(
                s,
                vo,
            ),
{
    let sp = s.push(rec);
    assert(sp.drop_last() =~= s);
    assert(sp.last() == rec);
    lemma_has_vo_exists(s, rec.vo as int);
    assert forall|i: int, j: int| 0 <= i < j < sp.len() implies sp[i].vo != sp[j].vo by {
        if j == s.len() {
            assert(sp[i] == s[i]);
        } else {
            assert(sp[i] == s[i]);
            assert(sp[j] == s[j]);
        }
    }
    assert forall|vo: int| vo != rec.vo implies (#[trigger] has_vo(sp, vo) <==> has_vo(s, vo)) by {
        assert(has_vo(sp, vo) == (sp.last().vo == vo || has_vo(sp.drop_last(), vo)));
    }
    assert forall|vo: int| vo != rec.vo && has_vo(s, vo) implies #[trigger] rev_of_vo(sp, vo)
        == rev_of_vo(s, vo) by {
        assert(rev_of_vo(sp, vo) == rev_of_vo(sp.drop_last(), vo));
    }
}

pub proof fn lemma_rev_of_vo(s: Seq<SlotRec>, i: int)
    requires
        distinct_vos(s),
        0 <= i < s.len(),
    ensures
        has_vo(s, s[i].vo as int),
        rev_of_vo(s, s[i].vo as int) == s[i].rev,
    decreases s.len(),
{
    if i == s.len() - 1 {
        assert(s.last() == s[i]);
    } else {
        assert(s.last().vo != s[i].vo);
        assert(s.drop_last()[i] == s[i]);
        assert forall|a: int, b: int|
            0 <= a < b < s.drop_last().len() implies s.drop_last()[a].vo != s.drop_last()[b].vo by {
            assert(s.drop_last()[a] == s[a]);
            assert(s.drop_last()[b] == s[b]);
        }
        lemma_rev_of_vo(s.drop_last(), i);
    }
}

spec fn vt_rec_ok(s: Seq<u8>, rec: VtRec) -> bool {
    &&& 4 <= rec.bytes@.len() <= rec.rev
    &&& rec.rev <= s.len()
    &&& s.subrange(s.len() - rec.rev, s.len() - rec.rev + rec.bytes@.len()) == rec.bytes@
}

spec fn vt_recs_ok(s: Seq<u8>, recs: Seq<VtRec>) -> bool {
    forall|j: int| 0 <= j < recs.len() ==> vt_rec_ok(s, #[trigger] recs[j])
}

proof fn lemma_vt_recs_ext(o: Seq<u8>, n: Seq<u8>, recs: Seq<VtRec>)
    requires
        ext(o, n),
        vt_recs_ok(o, recs),
    ensures
        vt_recs_ok(n, recs),
{
    lemma_ext_len(o, n);
    assert forall|j: int| 0 <= j < recs.len() implies vt_rec_ok(n, #[trigger] recs[j]) by {
        lemma_ext_subrange(o, n, recs[j].rev as int, recs[j].bytes@.len() as int);
    }
}

/// Puts `block` in front of `dst`.
fn prepend(dst: &mut Vec<u8>, block: Vec<u8>)
    ensures
        final(dst)@ == block@ + old(dst)@,
{
    let mut b = block;
    b.append(dst);
    *dst = b;
}

fn copy_bytes(src: &Vec<u8>) -> (r: Vec<u8>)
    ensures
        r@ == src@,
{
    let mut r: Vec<u8> = Vec::new();
    let n = src.len();
    let mut i: usize = 0;
    while i < n
        invariant
            i <= n,
            n == src@.len(),
            r@ == src@.subrange(0, i as int),
        decreases n - i,
    {
        r.push(src[i]);
        i = i + 1;
        proof {
            assert(r@ =~= src@.subrange(0, i as int));
        }
    }
    proof {
        assert(r@ =~= src@);
    }
    r
}

fn bytes_equal(a: &Vec<u8>, b: &Vec<u8>) -> (r: bool)
    ensures
        r == (a@ == b@),
{
    let n = a.len();
    if n != b.len() {
        proof {
            assert(a@ != b@);
        }
        return false;
    }
    let mut i: usize = 0;
    while i < n
        invariant
            i <= n,
            n == a@.len() == b@.len(),
            forall|k: int| 0 <= k < i ==> a@[k] == b@[k],
        decreases n - i,
    {
        if a[i] != b[i] {
            proof {
                assert(a@ != b@);
            }
            return false;
        }
        i = i + 1;
    }
    proof {
        assert(a@ =~= b@);
    }
    true
}

fn find_slot(slots: &Vec<SlotRec>, vo: u16) -> (r: Option<usize>)
    ensures
        match r {
            Some(i) => i < slots@.len() && slots@[i as int].vo == vo,
            None => !has_vo(slots@, vo as int),
        },
{
    let n = slots.len();
    let mut i: usize = 0;
    while i < n
        invariant
            i <= n,
            n == slots@.len(),
            forall|k: int| 0 <= k < i ==> slots@[k].vo != vo,
        decreases n - i,
    {
        if slots[i].vo == vo {
            return Some(i);
        }
        i = i + 1;
    }
    proof {
        lemma_has_vo_exists(slots@, vo as int);
    }
    None
}

/// Serializes a vtable: its own byte length, the table's inline byte
/// length, then one 16-bit table-relative offset per slot up to the
/// highest recorded slot position (0 for slots never pushed).
#[verifier::loop_isolation(false)]
fn build_vtable_bytes(slots: &Vec<SlotRec>, rt: usize, tblen: u16) -> (vt: Vec<u8>)
    requires
        distinct_vos(slots@),
        4 <= rt,
        forall|i: int|
            0 <= i < slots@.len() ==> {
                &&& 4 <= (#[trigger] slots@[i]).vo <= MAX_SLOT_VOFFSET
                &&& slots@[i].vo % 2 == 0
                &&& slots@[i].rev < rt
                &&& rt - slots@[i].rev <= MAX_TABLE_BYTES
            },
    ensures
        4 <= vt@.len() <= MAX_SLOT_VOFFSET + 2,
        vt@.len() % 2 == 0,
        le16_at(vt@, 0) == vt@.len(),
        le16_at(vt@, 2) == tblen,
        forall|vo: int|
            4 <= vo && vo % 2 == 0 && vo + 2 <= vt@.len() ==> #[trigger] le16_at(vt@, vo)
                == slot_entry(slots@, rt as int, vo),
        forall|i: int| 0 <= i < slots@.len() ==> (#[trigger] slots@[i]).vo + 2 <= vt@.len(),
{
    let n = slots.len();
    let mut max_vo: u16 = 2;
    let mut i: usize = 0;
    while i < n
        invariant
            i <= n,
            2 <= max_vo <= MAX_SLOT_VOFFSET,
            max_vo % 2 == 0,
            forall|k: int| 0 <= k < i ==> (#[trigger] slots@[k]).vo <= max_vo,
        decreases n - i,
    {
        if slots[i].vo > max_vo {
            max_vo = slots[i].vo;
        }
        i = i + 1;
    }
    let vt_size: u16 = max_vo + 2;
    let mut vt: Vec<u8> = Vec::new();
    push_u16(&mut vt, vt_size);
    push_u16(&mut vt, tblen);
    let mut vo: u16 = 4;
    while vo <= max_vo
        invariant
            4 <= vo && vo % 2 == 0,
            vo <= max_vo + 2,
            vt@.len() == vo,
            le16_at(vt@, 0) == vt_size,
            le16_at(vt@, 2) == tblen,
            forall|w: int|
                4 <= w && w % 2 == 0 && w + 2 <= vo ==> #[trigger] le16_at(vt@, w) == slot_entry(
                    slots@,
                    rt as int,
                    w,
                ),
        decreases max_vo + 2 - vo,
    {
        let mut entry: u16 = 0;
        match find_slot(slots, vo) {
            Some(idx) => {
                let rev = slots[idx].rev;
                entry = (rt - rev) as u16;
                proof {
                    lemma_rev_of_vo(slots@, idx as int);
                }
            },
            None => {},
        }
        let ghost prev = vt@;
        push_u16(&mut vt, entry);
        proof {
            assert(le16_at(vt@, vo as int) == entry);
            lemma_le16_prefix(prev, vt@, 0);
            lemma_le16_prefix(prev, vt@, 2);
            assert forall|w: int| 4 <= w && w % 2 == 0 && w + 2 <= vo + 2 implies #[trigger] le16_at(
                vt@,
                w,
            ) == slot_entry(slots@, rt as int, w) by {
                if w + 2 <= vo {
                    lemma_le16_prefix(prev, vt@, w);
                } else {
                    assert(w == vo);
                }
            }
        }
        vo = vo + 2;
    }
    proof {
        assert forall|i2: int| 0 <= i2 < slots@.len() implies (#[trigger] slots@[i2]).vo + 2
            <= vt@.len() by {
            assert(slots@[i2].vo <= max_vo);
        }
    }
    vt
}

/// The backward-growing builder.  `bytes()` is the part of the final
/// buffer already written (a suffix of every later state); rev
/// coordinates returned by `create_string` and `end_table` are measured
/// from its end and stay valid for the rest of the build.
pub struct BufferBuilder {
    suffix: Vec<u8>,
    vtables: Vec<VtRec>,
    cur_slots: Vec<SlotRec>,
    table_mark: usize,
    nested: bool,
}

impl BufferBuilder {
    pub closed spec fn bytes(self) -> Seq<u8> {
        self.suffix@
    }

    pub closed spec fn in_table(self) -> bool {
        self.nested
    }

    pub closed spec fn pending(self) -> Seq<SlotRec> {
        self.cur_slots@
    }

    pub closed spec fn mark(self) -> int {
        self.table_mark as int
    }

    pub closed spec fn wf(self) -> bool {
        &&& self.suffix@.len() <= MAX_BUFFER_BYTES
        &&& vt_recs_ok(self.suffix@, self.vtables@)
        &&& if self.nested {
            &&& self.table_mark <= self.suffix@.len()
            &&& self.suffix@.len() - self.table_mark + 4 <= MAX_TABLE_BYTES
            &&& slots_wf(self.cur_slots@, self.table_mark as int, self.suffix@.len() as int)
        } else {
            self.cur_slots@.len() == 0
        }
    }

    pub fn new() -> (r: BufferBuilder)
        ensures
            r.wf(),
            !r.in_table(),
            r.bytes() == Seq::<u8>::empty(),
    {
        BufferBuilder {
            suffix: Vec::new(),
            vtables: Vec::new(),
            cur_slots: Vec::new(),
            table_mark: 0,
            nested: false,
        }
    }

    /// Writes a length-prefixed, NUL-terminated string and returns its
    /// rev coordinate.  Must happen before the table that references it
    /// is started: a forward offset can only point at an object whose
    /// final position is already determined.
    pub fn create_string(&mut self, s: &Vec<u8>) -> (r: usize)
        requires
            old(self).wf(),
            !old(self).in_table(),
            old(self).bytes().len() + s@.len() + 5 <= MAX_BUFFER_BYTES,
        ensures
            final(self).wf(),
            !final(self).in_table(),
            ext(old(self).bytes(), final(self).bytes()),
            final(self).bytes().len() == old(self).bytes().len() + s@.len() + 5,
            r == final(self).bytes().len(),
            str_ok_rev(final(self).bytes(), r as int),
            str_bytes_rev(final(self).bytes(), r as int) == s@,
    {
        let slen = s.len();
        let mut block: Vec<u8> = Vec::new();
        push_u32(&mut block, slen as u32);
        let mut i: usize = 0;
        while i < slen
            invariant
                i <= slen,
                slen == s@.len(),
                block@.len() == 4 + i,
                le32_at(block@, 0) == slen,
                block@.subrange(4, 4 + i as int) == s@.subrange(0, i as int),
            decreases slen - i,
        {
            let ghost prev = block@;
            block.push(s[i]);
            i = i + 1;
            proof {
                assert(block@.subrange(4, 4 + i as int) =~= s@.subrange(0, i as int));
            }
        }
        let ghost prev = block@;
        block.push(0u8);
        let ghost blk = block@;
        let ghost ob = self.suffix@;
        prepend(&mut self.suffix, block);
        let r = self.suffix.len();
        proof {
            let nb = self.suffix@;
            assert(nb == blk + ob);
            lemma_prepend_ext(blk, ob);
            lemma_vt_recs_ext(ob, nb, self.vtables@);
            lemma_front_le32(blk, ob, 0);
            assert(blk[4 + slen as int] == 0);
            assert(nb[4 + slen as int] == blk[4 + slen as int]);
            assert(str_ok(nb, 0));
            lemma_front_subrange(blk, ob, 4, 4 + slen as int);
            assert(blk.subrange(4, 4 + slen as int) =~= s@.subrange(0, slen as int));
            assert(s@.subrange(0, slen as int) =~= s@);
            assert(str_bytes_rev(nb, r as int) == s@);
        }
        r
    }

    /// Opens a table.  Fields pushed from here on are recorded for the
    /// vtable that `end_table` will write.
    pub fn start_table(&mut self)
        requires
            old(self).wf(),
            !old(self).in_table(),
        ensures
            final(self).wf(),
            final(self).in_table(),
            final(self).bytes() == old(self).bytes(),
            final(self).pending() == Seq::<SlotRec>::empty(),
            final(self).mark() == old(self).bytes().len(),
    {
        self.table_mark = self.suffix.len();
        self.nested = true;
        proof {
            assert(self.cur_slots@ =~= Seq::<SlotRec>::empty());
        }
    }

    /// Writes `block` as the inline value of slot `vo` and records it.
    fn push_field(&mut self, vo: u16, block: Vec<u8>)
        requires
            old(self).wf(),
            old(self).in_table(),
            4 <= vo <= MAX_SLOT_VOFFSET,
            vo % 2 == 0,
            !has_vo(old(self).pending(), vo as int),
            1 <= block@.len(),
            old(self).bytes().len() + block@.len() <= MAX_BUFFER_BYTES,
            old(self).bytes().len() + block@.len() - old(self).mark() + 4 <= MAX_TABLE_BYTES,
        ensures
            final(self).wf(),
            final(self).in_table(),
            final(self).mark() == old(self).mark(),
            final(self).bytes() == block@ + old(self).bytes(),
            final(self).pending() == old(self).pending().push(
                (SlotRec { vo, rev: (old(self).bytes().len() + block@.len()) as usize }),
            ),
            has_vo(final(self).pending(), vo as int),
            forall|w: int|
                w != vo ==> #[trigger] has_vo(final(self).pending(), w) == has_vo(
                    old(self).pending(),
                    w,
                ),
            ext(old(self).bytes(), final(self).bytes()),
    {
        let ghost ob = self.suffix@;
        let ghost blk = block@;
        prepend(&mut self.suffix, block);
        let rev = self.suffix.len();
        self.cur_slots.push(SlotRec { vo, rev });
        proof {
            lemma_prepend_ext(blk, ob);
            lemma_vt_recs_ext(ob, self.suffix@, self.vtables@);
            let ns = self.cur_slots@;
            let os = old(self).pending();
            lemma_has_vo_exists(os, vo as int);
            assert forall|i: int, j: int| 0 <= i < j < ns.len() implies ns[i].vo != ns[j].vo by {
                if j == ns.len() - 1 {
                    assert(!(0 <= i < os.len() && os[i].vo == vo as int));
                }
            }
            assert(ns.drop_last() =~= os);
            assert forall|w: int| w != vo implies #[trigger] has_vo(ns, w) == has_vo(os, w) by {
                assert(has_vo(ns, w) == (ns.last().vo == w || has_vo(ns.drop_last(), w)));
            }
        }
    }

    /// Writes a one-byte scalar field unless it equals its default;
    /// omitted fields read back as the default through the vtable.
    pub fn push_slot_u8(&mut self, vo: u16, value: u8, default: u8)
        requires
            old(self).wf(),
            old(self).in_table(),
            4 <= vo <= MAX_SLOT_VOFFSET,
            vo % 2 == 0,
            !has_vo(old(self).pending(), vo as int),
            old(self).bytes().len() + 1 <= MAX_BUFFER_BYTES,
            old(self).bytes().len() + 5 - old(self).mark() <= MAX_TABLE_BYTES,
        ensures
            final(self).wf(),
            final(self).in_table(),
            final(self).mark() == old(self).mark(),
            ext(old(self).bytes(), final(self).bytes()),
            value == default ==> final(self).bytes() == old(self).bytes() && final(self).pending()
                == old(self).pending(),
            value != default ==> final(self).bytes().len() == old(self).bytes().len() + 1
                && byte_at_rev(final(self).bytes(), old(self).bytes().len() + 1int) == value
                && final(self).pending() == old(self).pending().push(
                (SlotRec { vo, rev: (old(self).bytes().len() + 1) as usize }),
            ) && has_vo(final(self).pending(), vo as int),
            forall|w: int|
                w != vo ==> #[trigger] has_vo(final(self).pending(), w) == has_vo(
                    old(self).pending(),
                    w,
                ),
    {
        if value == default {
            proof {
                lemma_ext_refl(self.suffix@);
            }
            return ;
        }
        let mut block: Vec<u8> = Vec::new();
        block.push(value);
        let ghost ob = self.suffix@;
        self.push_field(vo, block);
        proof {
            assert(byte_at_rev(self.suffix@, ob.len() + 1int) == value);
        }
    }

    /// Writes a boolean field unless it equals its default.
    pub fn push_slot_bool(&mut self, vo: u16, value: bool, default: bool)
        requires
            old(self).wf(),
            old(self).in_table(),
            4 <= vo <= MAX_SLOT_VOFFSET,
            vo % 2 == 0,
            !has_vo(old(self).pending(), vo as int),
            old(self).bytes().len() + 1 <= MAX_BUFFER_BYTES,
            old(self).bytes().len() + 5 - old(self).mark() <= MAX_TABLE_BYTES,
        ensures
            final(self).wf(),
            final(self).in_table(),
            final(self).mark() == old(self).mark(),
            ext(old(self).bytes(), final(self).bytes()),
            value == default ==> final(self).bytes() == old(self).bytes() && final(self).pending()
                == old(self).pending(),
            value != default ==> final(self).bytes().len() == old(self).bytes().len() + 1
                && byte_at_rev(final(self).bytes(), old(self).bytes().len() + 1int) == bool_byte(
                value,
            ) && final(self).pending() == old(self).pending().push(
                (SlotRec { vo, rev: (old(self).bytes().len() + 1) as usize }),
            ) && has_vo(final(self).pending(), vo as int),
            forall|w: int|
                w != vo ==> #[trigger] has_vo(final(self).pending(), w) == has_vo(
                    old(self).pending(),
                    w,
                ),
    {
        let v: u8 = if value {
            1
        } else {
            0
        };
        let d: u8 = if default {
            1
        } else {
            0
        };
        self.push_slot_u8(vo, v, d);
    }

    /// Writes a signed one-byte scalar field unless it equals its
    /// default.
    pub fn push_slot_i8(&mut self, vo: u16, value: i8, default: i8)
        requires
            old(self).wf(),
            old(self).in_table(),
            4 <= vo <= MAX_SLOT_VOFFSET,
            vo % 2 == 0,
            !has_vo(old(self).pending(), vo as int),
            old(self).bytes().len() + 1 <= MAX_BUFFER_BYTES,
            old(self).bytes().len() + 5 - old(self).mark() <= MAX_TABLE_BYTES,
        ensures
            final(self).wf(),
            final(self).in_table(),
            final(self).mark() == old(self).mark(),
            ext(old(self).bytes(), final(self).bytes()),
            value == default ==> final(self).bytes() == old(self).bytes() && final(self).pending()
                == old(self).pending(),
            value != default ==> final(self).bytes().len() == old(self).bytes().len() + 1
                && byte_at_rev(final(self).bytes(), old(self).bytes().len() + 1int) == byte_of_i8(
                value,
            ) && final(self).pending() == old(self).pending().push(
                (SlotRec { vo, rev: (old(self).bytes().len() + 1) as usize }),
            ) && has_vo(final(self).pending(), vo as int),
            forall|w: int|
                w != vo ==> #[trigger] has_vo(final(self).pending(), w) == has_vo(
                    old(self).pending(),
                    w,
                ),
    {
        let v: u8 = if value >= 0 {
            value as u8
        } else {
            ((value as i16) + 0x100) as u8
        };
        let d: u8 = if default >= 0 {
            default as u8
        } else {
            ((default as i16) + 0x100) as u8
        };
        proof {
            assert(v == byte_of_i8(value));
            assert(d == byte_of_i8(default));
            assert((v == d) == (value == default));
        }
        self.push_slot_u8(vo, v, d);
    }

    /// Writes a four-byte scalar field unless it equals its default.
    pub fn push_slot_u32(&mut self, vo: u16, value: u32, default: u32)
        requires
            old(self).wf(),
            old(self).in_table(),
            4 <= vo <= MAX_SLOT_VOFFSET,
            vo % 2 == 0,
            !has_vo(old(self).pending(), vo as int),
            old(self).bytes().len() + 4 <= MAX_BUFFER_BYTES,
            old(self).bytes().len() + 8 - old(self).mark() <= MAX_TABLE_BYTES,
        ensures
            final(self).wf(),
            final(self).in_table(),
            final(self).mark() == old(self).mark(),
            ext(old(self).bytes(), final(self).bytes()),
            value == default ==> final(self).bytes() == old(self).bytes() && final(self).pending()
                == old(self).pending(),
            value != default ==> {
                &&& final(self).bytes().len() == old(self).bytes().len() + 4
                &&& le32_at_rev(final(self).bytes(), old(self).bytes().len() + 4int) == value
                &&& final(self).pending() == old(self).pending().push(
                    (SlotRec { vo, rev: (old(self).bytes().len() + 4) as usize }),
                )
                &&& has_vo(final(self).pending(), vo as int)
            },
            forall|w: int|
                w != vo ==> #[trigger] has_vo(final(self).pending(), w) == has_vo(
                    old(self).pending(),
                    w,
                ),
    {
        if value == default {
            proof {
                lemma_ext_refl(self.suffix@);
            }
            return ;
        }
        let mut block: Vec<u8> = Vec::new();
        push_u32(&mut block, value);
        let ghost blk = block@;
        let ghost ob = self.suffix@;
        self.push_field(vo, block);
        proof {
            lemma_front_le32(blk, ob, 0);
        }
    }

    /// Writes a four-byte float lane, given as its IEEE-754 bit
    /// pattern, unless the value equals the default 0.0 under IEEE
    /// comparison: both zero patterns are omitted (negative zero
    /// compares equal to zero), while NaN patterns are stored.
    pub fn push_slot_f32(&mut self, vo: u16, bits: u32)
        requires
            old(self).wf(),
            old(self).in_table(),
            4 <= vo <= MAX_SLOT_VOFFSET,
            vo % 2 == 0,
            !has_vo(old(self).pending(), vo as int),
            old(self).bytes().len() + 4 <= MAX_BUFFER_BYTES,
            old(self).bytes().len() + 8 - old(self).mark() <= MAX_TABLE_BYTES,
        ensures
            final(self).wf(),
            final(self).in_table(),
            final(self).mark() == old(self).mark(),
            ext(old(self).bytes(), final(self).bytes()),
            f32_zero_bits(bits) ==> final(self).bytes() == old(self).bytes()
                && final(self).pending() == old(self).pending(),
            !f32_zero_bits(bits) ==> {
                &&& final(self).bytes().len() == old(self).bytes().len() + 4
                &&& le32_at_rev(final(self).bytes(), old(self).bytes().len() + 4int) == bits
                &&& final(self).pending() == old(self).pending().push(
                    (SlotRec { vo, rev: (old(self).bytes().len() + 4) as usize }),
                )
                &&& has_vo(final(self).pending(), vo as int)
            },
            forall|w: int|
                w != vo ==> #[trigger] has_vo(final(self).pending(), w) == has_vo(
                    old(self).pending(),
                    w,
                ),
    {
        if bits == 0 || bits == 0x8000_0000 {
            proof {
                lemma_ext_refl(self.suffix@);
            }
            return ;
        }
        self.push_slot_u32(vo, bits, 0);
    }

    /// Writes a fixed-width struct field inline, always (no default).
    pub fn push_slot_always_bytes(&mut self, vo: u16, data: &Vec<u8>)
        requires
            old(self).wf(),
            old(self).in_table(),
            4 <= vo <= MAX_SLOT_VOFFSET,
            vo % 2 == 0,
            !has_vo(old(self).pending(), vo as int),
            1 <= data@.len(),
            old(self).bytes().len() + data@.len() <= MAX_BUFFER_BYTES,
            old(self).bytes().len() + data@.len() + 4 - old(self).mark() <= MAX_TABLE_BYTES,
        ensures
            final(self).wf(),
            final(self).in_table(),
            final(self).mark() == old(self).mark(),
            ext(old(self).bytes(), final(self).bytes()),
            final(self).bytes() == data@ + old(self).bytes(),
            final(self).pending() == old(self).pending().push(
                (SlotRec { vo, rev: (old(self).bytes().len() + data@.len()) as usize }),
            ),
            has_vo(final(self).pending(), vo as int),
            forall|w: int|
                w != vo ==> #[trigger] has_vo(final(self).pending(), w) == has_vo(
                    old(self).pending(),
                    w,
                ),
    {
        let block = copy_bytes(data);
        self.push_field(vo, block);
    }

    /// Writes an offset field pointing at the object whose rev
    /// coordinate is `target_rev` (a string or a finished table), always.
    pub fn push_slot_ref(&mut self, vo: u16, target_rev: usize)
        requires
            old(self).wf(),
            old(self).in_table(),
            4 <= vo <= MAX_SLOT_VOFFSET,
            vo % 2 == 0,
            !has_vo(old(self).pending(), vo as int),
            target_rev <= old(self).bytes().len(),
            old(self).bytes().len() + 4 <= MAX_BUFFER_BYTES,
            old(self).bytes().len() + 8 - old(self).mark() <= MAX_TABLE_BYTES,
        ensures
            final(self).wf(),
            final(self).in_table(),
            final(self).mark() == old(self).mark(),
            ext(old(self).bytes(), final(self).bytes()),
            final(self).bytes().len() == old(self).bytes().len() + 4,
            le32_at_rev(final(self).bytes(), old(self).bytes().len() + 4int) == old(
                self,
            ).bytes().len() + 4 - target_rev,
            final(self).pending() == old(self).pending().push(
                (SlotRec { vo, rev: (old(self).bytes().len() + 4) as usize }),
            ),
            has_vo(final(self).pending(), vo as int),
            forall|w: int|
                w != vo ==> #[trigger] has_vo(final(self).pending(), w) == has_vo(
                    old(self).pending(),
                    w,
                ),
    {
        let off = self.suffix.len() + 4 - target_rev;
        let mut block: Vec<u8> = Vec::new();
        push_u32(&mut block, off as u32);
        let ghost blk = block@;
        let ghost ob = self.suffix@;
        self.push_field(vo, block);
        proof {
            lemma_front_le32(blk, ob, 0);
        }
    }

    /// Closes the current table: serializes its vtable, reuses an
    /// identical vtable already in the arena if there is one, writes the
    /// table's signed vtable offset, and returns the table's rev
    /// coordinate.
    #[verifier::loop_isolation(false)]
    pub fn end_table(&mut self) -> (rt: usize)
        requires
            old(self).wf(),
            old(self).in_table(),
            old(self).bytes().len() + MAX_TABLE_BYTES + 8 <= MAX_BUFFER_BYTES,
        ensures
            final(self).wf(),
            !final(self).in_table(),
            ext(old(self).bytes(), final(self).bytes()),
            rt == old(self).bytes().len() + 4,
            4 <= rt <= final(self).bytes().len(),
            final(self).bytes().len() <= old(self).bytes().len() + MAX_SLOT_VOFFSET + 6,
            final(self).bytes().len() <= MAX_BUFFER_BYTES,
            table_ok_rev(final(self).bytes(), rt as int),
            tbl_len_rev(final(self).bytes(), rt as int) == rt - old(self).mark(),
            forall|vo: int|
                4 <= vo && vo % 2 == 0 ==> #[trigger] slot_off_rev(
                    final(self).bytes(),
                    rt as int,
                    vo,
                ) == slot_entry(old(self).pending(), rt as int, vo),
    {
        let pre = self.suffix.len();
        let rt = pre + 4;
        let tblen = rt - self.table_mark;
        let ghost ob = self.suffix@;
        let ghost slots0 = self.cur_slots@;
        let vt = build_vtable_bytes(&self.cur_slots, rt, tblen as u16);
        let ghost vtb = vt@;
        let ghost vl = vt@.len() as int;

        // look for an identical vtable already written
        let mut found = false;
        let mut reuse_rev: usize = 0;
        let nv = self.vtables.len();
        let mut j: usize = 0;
        while j < nv
            invariant
                j <= nv,
                found ==> exists|k: int|
                    0 <= k < self.vtables@.len() && (#[trigger] self.vtables@[k]).bytes@ == vtb
                        && self.vtables@[k].rev == reuse_rev,
            decreases nv - j,
        {
            if !found && bytes_equal(&self.vtables[j].bytes, &vt) {
                reuse_rev = self.vtables[j].rev;
                found = true;
            }
            j = j + 1;
        }

        if found {
            proof {
                let k = choose|k: int|
                    0 <= k < self.vtables@.len() && (#[trigger] self.vtables@[k]).bytes@ == vtb
                        && self.vtables@[k].rev == reuse_rev;
                assert(vt_rec_ok(ob, self.vtables@[k]));
                assert(4 <= vl <= reuse_rev <= ob.len());
            }
            let diff = rt - reuse_rev;
            let enc = (0x1_0000_0000u64 - diff as u64) as u32;
            let mut block: Vec<u8> = Vec::new();
            push_u32(&mut block, enc);
            let ghost blk = block@;
            prepend(&mut self.suffix, block);
            self.cur_slots = Vec::new();
            self.nested = false;
            proof {
                let nb = self.suffix@;
                lemma_prepend_ext(blk, ob);
                lemma_vt_recs_ext(ob, nb, self.vtables@);
                let t = nb.len() - rt;
                assert(t == 0);
                lemma_front_le32(blk, ob, 0);
                assert(le32_at(nb, 0) == enc);
                assert(0x1_0000_0000u64 - ((rt - reuse_rev) as u64) < 0x1_0000_0000);
                assert(enc == 0x1_0000_0000 - (rt - reuse_rev));
                assert(signed32(le32_at(nb, t)) == reuse_rev - rt);
                assert(vtable_pos(nb, t) == rt - reuse_rev as int);
                assert(vtable_pos(nb, t) == nb.len() - reuse_rev as int);
                // the stored copy of the vtable is still there
                lemma_ext_subrange(ob, nb, reuse_rev as int, vl);
                assert(nb.subrange(nb.len() - reuse_rev, nb.len() - reuse_rev + vl) == vtb);
                let vp = vtable_pos(nb, t);
                lemma_le16_in_block(nb, vp, vtb, 0);
                lemma_le16_in_block(nb, vp, vtb, 2);
                assert(vt_len(nb, t) == vl);
                assert(tbl_len(nb, t) == tblen);
                assert(table_ok(nb, t));
                assert forall|vo: int| 4 <= vo && vo % 2 == 0 implies #[trigger] slot_off_rev(
                    nb,
                    rt as int,
                    vo,
                ) == slot_entry(slots0, rt as int, vo) by {
                    if vo + 2 <= vl {
                        lemma_le16_in_block(nb, vp, vtb, vo);
                    } else {
                        if has_vo(slots0, vo) {
                            lemma_has_vo_exists(slots0, vo);
                            let i = choose|i: int| 0 <= i < slots0.len() && slots0[i].vo == vo;
                            assert(slots0[i].vo + 2 <= vl);
                        }
                    }
                }
            }
            rt
        } else {
            let mut block = copy_bytes(&vt);
            push_u32(&mut block, vt.len() as u32);
            let ghost blk = block@;
            prepend(&mut self.suffix, block);
            let rec_rev = self.suffix.len();
            let ghost recs_old = self.vtables@;
            self.vtables.push(VtRec { bytes: vt, rev: rec_rev });
            self.cur_slots = Vec::new();
            self.nested = false;
            proof {
                let nb = self.suffix@;
                lemma_prepend_ext(blk, ob);
                let t = nb.len() - rt;
                assert(t == vl);
                lemma_front_le32(blk, ob, vl);
                assert(le32_at(nb, vl) == vl);
                assert(signed32(vl) == vl);
                assert(vtable_pos(nb, t) == 0);
                assert(blk.subrange(0, vl) == vtb);
                lemma_le16_prefix(vtb, blk, 0);
                lemma_le16_prefix(vtb, blk, 2);
                lemma_front_le16(blk, ob, 0);
                lemma_front_le16(blk, ob, 2);
                assert(vt_len(nb, t) == vl);
                assert(tbl_len(nb, t) == tblen);
                assert(table_ok(nb, t));
                assert forall|vo: int| 4 <= vo && vo % 2 == 0 implies #[trigger] slot_off_rev(
                    nb,
                    rt as int,
                    vo,
                ) == slot_entry(slots0, rt as int, vo) by {
                    if vo + 2 <= vl {
                        lemma_le16_prefix(vtb, blk, vo);
                        lemma_front_le16(blk, ob, vo);
                    } else {
                        if has_vo(slots0, vo) {
                            lemma_has_vo_exists(slots0, vo);
                            let i = choose|i: int| 0 <= i < slots0.len() && slots0[i].vo == vo;
                            assert(slots0[i].vo + 2 <= vl);
                        }
                    }
                }
                // the new vtable record
                lemma_vt_recs_ext(ob, nb, recs_old);
                lemma_front_subrange(blk, ob, 0, vl);
                assert(nb.subrange(0, vl) == vtb);
                assert(nb.subrange(nb.len() - rec_rev, nb.len() - rec_rev + vl) == vtb);
                assert forall|j2: int| 0 <= j2 < self.vtables@.len() implies vt_rec_ok(
                    nb,
                    #[trigger] self.vtables@[j2],
                ) by {
                    if j2 < recs_old.len() {
                        assert(self.vtables@[j2] == recs_old[j2]);
                    }
                }
            }
            rt
        }
    }

    /// Seals the buffer: prepends the 32-bit root offset and, if given,
    /// the 4-byte file identifier right after it.
    pub fn finish(self, root_rev: usize, identifier: Option<(u8, u8, u8, u8)>) -> (r: Vec<u8>)
        requires
            self.wf(),
            !self.in_table(),
            4 <= root_rev <= self.bytes().len(),
        ensures
            ext(self.bytes(), r@),
            r@.len() == self.bytes().len() + (if identifier is Some { 8int } else { 4int }),
            root_header_ok(r@),
            root_pos(r@) == r@.len() - root_rev,
            identifier matches Some(a) ==> identifier_at(r@, 4, a.0, a.1, a.2, a.3),
    {
        let mut s = self;
        let head: usize = if identifier.is_some() {
            8
        } else {
            4
        };
        let total = s.suffix.len() + head;
        let mut block: Vec<u8> = Vec::new();
        push_u32(&mut block, (total - root_rev) as u32);
        let ghost blk1 = block@;
        match identifier {
            Some(a) => {
                block.push(a.0);
                block.push(a.1);
                block.push(a.2);
                block.push(a.3);
            },
            None => {},
        }
        let ghost blk = block@;
        let ghost ob = s.suffix@;
        prepend(&mut s.suffix, block);
        proof {
            lemma_prepend_ext(blk, ob);
            assert(blk.subrange(0, 4) =~= blk1);
            lemma_le32_prefix(blk1, blk, 0);
            lemma_front_le32(blk, ob, 0);
        }
        s.suffix
    }

    /// Seals the buffer with a leading 32-bit byte-count prefix, then
    /// the root offset and optional file identifier.
    pub fn finish_size_prefixed(self, root_rev: usize, identifier: Option<(u8, u8, u8, u8)>) -> (r:
        Vec<u8>)
        requires
            self.wf(),
            !self.in_table(),
            4 <= root_rev <= self.bytes().len(),
        ensures
            ext(self.bytes(), r@),
            r@.len() == self.bytes().len() + (if identifier is Some { 12int } else { 8int }),
            sp_header_ok(r@),
            sp_root_pos(r@) == r@.len() - root_rev,
            identifier matches Some(a) ==> identifier_at(r@, 8, a.0, a.1, a.2, a.3),
    {
        let mut s = self;
        let head: usize = if identifier.is_some() {
            12
        } else {
            8
        };
        let total = s.suffix.len() + head;
        let mut block: Vec<u8> = Vec::new();
        push_u32(&mut block, (total - 4) as u32);
        push_u32(&mut block, (total - root_rev - 4) as u32);
        let ghost blk1 = block@;
        match identifier {
            Some(a) => {
                block.push(a.0);
                block.push(a.1);
                block.push(a.2);
                block.push(a.3);
            },
            None => {},
        }
        let ghost blk = block@;
        let ghost ob = s.suffix@;
        prepend(&mut s.suffix, block);
        proof {
            lemma_prepend_ext(blk, ob);
            assert(blk.subrange(0, 8) =~= blk1);
            lemma_le32_prefix(blk1, blk, 0);
            lemma_le32_prefix(blk1, blk, 4);
            lemma_front_le32(blk, ob, 0);
            lemma_front_le32(blk, ob, 4);
        }
        s.suffix
    }
}

} // verus!
