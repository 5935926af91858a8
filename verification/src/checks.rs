//! The verifier: bounds- and shape-checks a claimed table without
//! trusting any of the buffer's contents.
//!
//! Each check is specified by a spec-level twin (`check_table_spec`,
//! ...) so that a verification outcome is a function of the bytes alone;
//! the exec functions return exactly that outcome.  Success certifies
//! the validity predicates of `crate::layout`, after which the reader
//! needs no further bounds checks.

use vstd::prelude::*;
use crate::bytes::{le16_at, le32_at, signed32};
use crate::layout::{
    vtable_pos, vt_len, tbl_len, slot_off, field_pos, str_pos, str_ok, table_ok, scalar_field_ok,
    str_field_ok,
};
use crate::reader::{vtable_pos_exec, get_slot_off, get_tbl_len};
use crate::bytes::{read_u8, read_u16, read_u32};

verus! {

/// Why a buffer was rejected.  Unknown vtable slots and unknown enum
/// values are deliberately *not* errors: they are how newer-schema
/// buffers stay readable.
#[derive(Clone, Copy, Debug, PartialEq, Eq, Structural)]
pub enum VerifyError {
    /// A table, vtable, field or string reaches outside the buffer.
    OffsetOutOfBounds,
    /// A vtable or table length too small to be real, or an odd vtable
    /// length.
    VtableMalformed,
    /// A string whose terminating NUL byte is missing.
    MissingNulTerminator,
}

/// What checking the table at `t` returns, as a function of the bytes.
pub open spec fn check_table_spec(b: Seq<u8>, t: int) -> Result<(), VerifyError> {
    if !(0 <= t && t + 4 <= b.len()) {
        Err(VerifyError::OffsetOutOfBounds)
    } else if !(0 <= vtable_pos(b, t) && vtable_pos(b, t) + 4 <= b.len()) {
        Err(VerifyError::OffsetOutOfBounds)
    } else if !(4 <= vt_len(b, t) && vt_len(b, t) % 2 == 0 && 4 <= tbl_len(b, t)) {
        Err(VerifyError::VtableMalformed)
    } else if !(vtable_pos(b, t) + vt_len(b, t) <= b.len() && t + tbl_len(b, t) <= b.len()) {
        Err(VerifyError::OffsetOutOfBounds)
    } else {
        Ok(())
    }
}

pub proof fn lemma_check_table_spec(b: Seq<u8>, t: int)
    ensures
        check_table_spec(b, t) is Ok <==> table_ok(b, t),
{
}

/// What checking a scalar field returns, as a function of the bytes.
pub open spec fn check_scalar_field_spec(b: Seq<u8>, t: int, vo: int, size: int) -> Result<
    (),
    VerifyError,
> {
    if scalar_field_ok(b, t, vo, size) {
        Ok(())
    } else {
        Err(VerifyError::OffsetOutOfBounds)
    }
}

/// What checking a string field returns, as a function of the bytes.
pub open spec fn check_str_field_spec(b: Seq<u8>, t: int, vo: int) -> Result<(), VerifyError> {
    let off = slot_off(b, t, vo);
    if off == 0 {
        Ok(())
    } else if !(4 <= off && off + 4 <= tbl_len(b, t)) {
        Err(VerifyError::OffsetOutOfBounds)
    } else if !(str_pos(b, t, vo) + 4 <= b.len() && str_pos(b, t, vo) + 5 + le32_at(
        b,
        str_pos(b, t, vo),
    ) <= b.len()) {
        Err(VerifyError::OffsetOutOfBounds)
    } else if b[str_pos(b, t, vo) + 4 + le32_at(b, str_pos(b, t, vo))] != 0 {
        Err(VerifyError::MissingNulTerminator)
    } else {
        Ok(())
    }
}

pub proof fn lemma_check_str_field_spec(b: Seq<u8>, t: int, vo: int)
    requires
        table_ok(b, t),
    ensures
        check_str_field_spec(b, t, vo) is Ok <==> str_field_ok(b, t, vo),
{
}

/// Checks that the table at `t` and its vtable are in bounds and
/// well-formed.
pub fn check_table(b: &Vec<u8>, t: usize) -> (r: Result<(), VerifyError>)
    ensures
        r == check_table_spec(b@, t as int),
        r is Ok <==> table_ok(b@, t as int),
{
    proof {
        lemma_check_table_spec(b@, t as int);
    }
    let n = b.len();
    if t > n || n - t < 4 {
        return Err(VerifyError::OffsetOutOfBounds);
    }
    let raw = read_u32(b, t);
    let vp: usize = if raw < 0x8000_0000 {
        if raw as usize > t {
            return Err(VerifyError::OffsetOutOfBounds);
        }
        t - raw as usize
    } else {
        let neg = (0x1_0000_0000u64 - raw as u64) as usize;
        if neg > (n - t) - 4 {
            return Err(VerifyError::OffsetOutOfBounds);
        }
        t + neg
    };
    proof {
        assert(vp == vtable_pos(b@, t as int));
        assert(vp + 4 <= n);
    }
    let vl = read_u16(b, vp);
    let tl = read_u16(b, vp + 2);
    if vl < 4 || vl % 2 != 0 || tl < 4 {
        return Err(VerifyError::VtableMalformed);
    }
    if vl as usize > n - vp || tl as usize > n - t {
        return Err(VerifyError::OffsetOutOfBounds);
    }
    Ok(())
}

/// Checks one scalar field of width `size` of the (already checked)
/// table at `t`.
pub fn check_scalar_field(b: &Vec<u8>, t: usize, vo: u16, size: u16) -> (r: Result<
    (),
    VerifyError,
>)
    requires
        table_ok(b@, t as int),
    ensures
        r == check_scalar_field_spec(b@, t as int, vo as int, size as int),
        r is Ok <==> scalar_field_ok(b@, t as int, vo as int, size as int),
{
    let off = get_slot_off(b, t, vo);
    if off == 0 {
        return Ok(());
    }
    let tl = get_tbl_len(b, t);
    if 4 <= off && off as u64 + size as u64 <= tl as u64 {
        Ok(())
    } else {
        Err(VerifyError::OffsetOutOfBounds)
    }
}

/// Checks one string field of the (already checked) table at `t`:
/// offset in bounds, string in bounds, NUL terminator present.
pub fn check_str_field(b: &Vec<u8>, t: usize, vo: u16) -> (r: Result<(), VerifyError>)
    requires
        table_ok(b@, t as int),
    ensures
        r == check_str_field_spec(b@, t as int, vo as int),
        r is Ok <==> str_field_ok(b@, t as int, vo as int),
{
    proof {
        lemma_check_str_field_spec(b@, t as int, vo as int);
    }
    let n = b.len();
    let off = get_slot_off(b, t, vo);
    if off == 0 {
        return Ok(());
    }
    let tl = get_tbl_len(b, t);
    if !(4 <= off && off as u64 + 4 <= tl as u64) {
        return Err(VerifyError::OffsetOutOfBounds);
    }
    proof {
        assert(t + off + 4 <= n);
    }
    let fp = t + off as usize;
    let u = read_u32(b, fp);
    let room = n - fp;
    if u as u64 > room as u64 {
        return Err(VerifyError::OffsetOutOfBounds);
    }
    let ru = u as usize;
    if room - ru < 4 {
        return Err(VerifyError::OffsetOutOfBounds);
    }
    let sp = fp + ru;
    proof {
        assert(sp == str_pos(b@, t as int, vo as int));
        assert(sp + 4 <= n);
    }
    let slen = read_u32(b, sp);
    if n - sp < 5 {
        return Err(VerifyError::OffsetOutOfBounds);
    }
    if slen as u64 > (n - sp - 5) as u64 {
        return Err(VerifyError::OffsetOutOfBounds);
    }
    let nul = read_u8(b, sp + 4 + slen as usize);
    if nul != 0 {
        return Err(VerifyError::MissingNulTerminator);
    }
    Ok(())
}

} // verus!
