//! Zero-copy reads from a finished buffer.
//!
//! Every function here requires the validity facts the verifier
//! certifies; nothing is re-checked at read time, and no field is
//! touched before its accessor is called.

use vstd::prelude::*;
use crate::bytes::{le32_at, signed32, read_u8, read_u16, read_u32, lemma_le32_bounds};
use crate::layout::{
    vtable_pos, vt_len, tbl_len, slot_off, field_pos, str_pos, str_ok, str_bytes, table_ok,
    scalar_field_ok, str_field_ok, field_u8, field_bool, field_u32, field_str,
};

verus! {

/// Absolute position of the vtable of the (valid) table at `t`.
pub fn vtable_pos_exec(b: &Vec<u8>, t: usize) -> (r: usize)
    requires
        table_ok(b@, t as int),
    ensures
        r == vtable_pos(b@, t as int),
{
    let n = b.len();
    let raw = read_u32(b, t);
    if raw < 0x8000_0000 {
        t - (raw as usize)
    } else {
        let neg = 0x1_0000_0000u64 - raw as u64;
        let r64 = t as u64 + neg;
        proof {
            assert(r64 == vtable_pos(b@, t as int));
            assert(r64 + 4 <= n as u64);
        }
        r64 as usize
    }
}

/// Table-relative offset of slot `vo`, 0 if absent (or beyond the
/// vtable, as with a buffer written by an older schema).
pub fn get_slot_off(b: &Vec<u8>, t: usize, vo: u16) -> (r: u16)
    requires
        table_ok(b@, t as int),
    ensures
        r == slot_off(b@, t as int, vo as int),
{
    let n = b.len();
    let vp = vtable_pos_exec(b, t);
    let vl = read_u16(b, vp);
    if vo as usize + 2 <= vl as usize {
        proof {
            assert(vp + vo + 2 <= n);
        }
        read_u16(b, vp + vo as usize)
    } else {
        0
    }
}

/// Inline byte length of the table at `t`.
pub fn get_tbl_len(b: &Vec<u8>, t: usize) -> (r: u16)
    requires
        table_ok(b@, t as int),
    ensures
        r == tbl_len(b@, t as int),
{
    let n = b.len();
    let vp = vtable_pos_exec(b, t);
    proof {
        assert(vp + 4 <= n);
    }
    read_u16(b, vp + 2)
}

pub fn get_field_u8(b: &Vec<u8>, t: usize, vo: u16, d: u8) -> (r: u8)
    requires
        table_ok(b@, t as int),
        scalar_field_ok(b@, t as int, vo as int, 1),
    ensures
        r == field_u8(b@, t as int, vo as int, d),
{
    let n = b.len();
    let off = get_slot_off(b, t, vo);
    if off == 0 {
        d
    } else {
        proof {
            assert(t + off + 1 <= n);
        }
        read_u8(b, t + off as usize)
    }
}

pub fn get_field_bool(b: &Vec<u8>, t: usize, vo: u16, d: bool) -> (r: bool)
    requires
        table_ok(b@, t as int),
        scalar_field_ok(b@, t as int, vo as int, 1),
    ensures
        r == field_bool(b@, t as int, vo as int, d),
{
    let n = b.len();
    let off = get_slot_off(b, t, vo);
    if off == 0 {
        d
    } else {
        proof {
            assert(t + off + 1 <= n);
        }
        read_u8(b, t + off as usize) != 0
    }
}

pub fn get_field_u32(b: &Vec<u8>, t: usize, vo: u16, d: u32) -> (r: u32)
    requires
        table_ok(b@, t as int),
        scalar_field_ok(b@, t as int, vo as int, 4),
    ensures
        r == field_u32(b@, t as int, vo as int, d),
{
    let n = b.len();
    let off = get_slot_off(b, t, vo);
    if off == 0 {
        d
    } else {
        proof {
            assert(t + off + 4 <= n);
            lemma_le32_bounds(b@, t + off as int);
        }
        read_u32(b, t + off as usize)
    }
}

/// Copies out the bytes of a string field, `None` if absent.
pub fn get_field_str(b: &Vec<u8>, t: usize, vo: u16) -> (r: Option<Vec<u8>>)
    requires
        table_ok(b@, t as int),
        str_field_ok(b@, t as int, vo as int),
    ensures
        field_str(b@, t as int, vo as int) == (match r {
            Some(v) => Some(v@),
            None => None::<Seq<u8>>,
        }),
{
    let n = b.len();
    let off = get_slot_off(b, t, vo);
    if off == 0 {
        return None;
    }
    proof {
        assert(t + off + 4 <= n);
    }
    let fp = t + off as usize;
    let u = read_u32(b, fp);
    let sp64 = fp as u64 + u as u64;
    proof {
        assert(sp64 == str_pos(b@, t as int, vo as int));
        assert(str_ok(b@, sp64 as int));
        assert(sp64 + 4 <= n as u64);
    }
    let sp = sp64 as usize;
    let slen64 = read_u32(b, sp) as u64;
    proof {
        assert(sp + 5 + slen64 <= n as u64);
    }
    let slen = slen64 as usize;
    let mut out: Vec<u8> = Vec::new();
    let mut i: usize = 0;
    while i < slen
        invariant
            i <= slen,
            n == b@.len(),
            sp + 5 + slen <= n,
            slen == le32_at(b@, sp as int),
            str_ok(b@, sp as int),
            out@ == b@.subrange(sp + 4, sp + 4 + i as int),
        decreases slen - i,
    {
        out.push(b[sp + 4 + i]);
        i = i + 1;
        proof {
            assert(out@ =~= b@.subrange(sp + 4, sp + 4 + i as int));
        }
    }
    proof {
        assert(out@ == str_bytes(b@, sp as int));
    }
    Some(out)
}

} // verus!
