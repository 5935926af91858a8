//! The format's global guarantees, stated and proved once over the spec
//! functions that every contract in this crate speaks through.

use vstd::prelude::*;
use crate::bytes::{le16_at, le32_at};
use crate::layout::{
    vtable_pos, vt_len, tbl_len, slot_off, str_pos, str_ok, table_ok, scalar_field_ok,
    str_field_ok, root_pos,
};
use crate::checks::VerifyError;
use crate::builder::f32_zero_bits;
use crate::collider::{
    ColliderVals, built_matches, collider_valid, collider_root_valid, norm_f32_default,
    root_verify_spec, run_verifier_spec, lemma_run_verifier_spec, spec_collider_type,
    spec_is_trigger, spec_size, spec_radius, spec_height, spec_material_name, spec_mesh_path,
    VT_COLLIDER_TYPE, VT_IS_TRIGGER, VT_SIZE, VT_RADIUS, VT_HEIGHT, VT_MATERIAL_NAME,
    VT_MESH_PATH,
};

verus! {

/// Round trip: a buffer built from a field assignment verifies, and
/// every field reads back exactly as assigned, absent optional fields
/// included (they read as their declared defaults).  The one degree of
/// freedom the wire format allows: a float lane assigned negative zero
/// is omitted (it compares IEEE-equal to the default) and reads back as
/// positive zero.
pub proof fn lemma_build_round_trip(b: Seq<u8>, v: ColliderVals)
    requires
        built_matches(b, v),
    ensures
        root_verify_spec(b) is Ok,
        spec_collider_type(b, root_pos(b)) == v.collider_type,
        spec_is_trigger(b, root_pos(b)) == v.is_trigger,
        spec_size(b, root_pos(b)) == v.size,
        spec_radius(b, root_pos(b)) == norm_f32_default(v.radius),
        spec_height(b, root_pos(b)) == norm_f32_default(v.height),
        !f32_zero_bits(v.radius) ==> spec_radius(b, root_pos(b)) == v.radius,
        !f32_zero_bits(v.height) ==> spec_height(b, root_pos(b)) == v.height,
        spec_material_name(b, root_pos(b)) == v.material_name,
        spec_mesh_path(b, root_pos(b)) == v.mesh_path,
{
    lemma_run_verifier_spec(b, root_pos(b));
}

/// Idempotence: the verification outcome, and with it every field value,
/// is a function of the bytes alone, so verifying an already-verified
/// buffer again returns the same result and readers see the same values.
pub proof fn lemma_verify_idempotent(
    b: Seq<u8>,
    r1: Result<(), VerifyError>,
    r2: Result<(), VerifyError>,
)
    requires
        r1 == root_verify_spec(b),
        r2 == root_verify_spec(b),
    ensures
        r1 == r2,
        r1 is Ok ==> collider_root_valid(b),
{
    lemma_run_verifier_spec(b, root_pos(b));
}

/// Forward compatibility: acceptance constrains only the slots this
/// schema declares, and never bounds the vtable's length from above, so
/// a table whose vtable carries extra trailing slots (written by a newer
/// schema) still verifies, whatever those slots hold.
pub proof fn lemma_forward_compatible(b: Seq<u8>, t: int)
    requires
        table_ok(b, t),
        scalar_field_ok(b, t, VT_COLLIDER_TYPE as int, 1),
        scalar_field_ok(b, t, VT_IS_TRIGGER as int, 1),
        scalar_field_ok(b, t, VT_SIZE as int, 12),
        scalar_field_ok(b, t, VT_RADIUS as int, 4),
        scalar_field_ok(b, t, VT_HEIGHT as int, 4),
        str_field_ok(b, t, VT_MATERIAL_NAME as int),
        str_field_ok(b, t, VT_MESH_PATH as int),
    ensures
        run_verifier_spec(b, t) is Ok,
        collider_valid(b, t),
{
    lemma_run_verifier_spec(b, t);
}

/// Default omission: a built buffer's vtable marks a scalar slot absent
/// exactly when the field equalled its default under the wire
/// comparison — IEEE equality for the float lanes, so negative zero
/// counts as the default too — and the absent slot still reads back as
/// that default.
pub proof fn lemma_default_omitted(b: Seq<u8>, v: ColliderVals)
    requires
        built_matches(b, v),
    ensures
        slot_off(b, root_pos(b), VT_COLLIDER_TYPE as int) == 0 <==> v.collider_type == 0,
        slot_off(b, root_pos(b), VT_IS_TRIGGER as int) == 0 <==> !v.is_trigger,
        slot_off(b, root_pos(b), VT_RADIUS as int) == 0 <==> f32_zero_bits(v.radius),
        slot_off(b, root_pos(b), VT_HEIGHT as int) == 0 <==> f32_zero_bits(v.height),
        f32_zero_bits(v.radius) ==> spec_radius(b, root_pos(b)) == 0,
        f32_zero_bits(v.height) ==> spec_height(b, root_pos(b)) == 0,
{
}

/// Shared vtables are sound: a vtable holds only table-relative
/// offsets, so two tables resolving their slots through the same vtable
/// read the same slot at *different* absolute positions — sharing the
/// metadata can never alias the tables' field bytes, and each table
/// reads back its own values.
pub proof fn lemma_shared_vtable_reads_independent(b: Seq<u8>, t1: int, t2: int, vo: int)
    requires
        collider_valid(b, t1),
        collider_valid(b, t2),
        vtable_pos(b, t1) == vtable_pos(b, t2),
        t1 != t2,
    ensures
        slot_off(b, t1, vo) == slot_off(b, t2, vo),
        slot_off(b, t1, vo) != 0 ==> crate::layout::field_pos(b, t1, vo) != crate::layout::field_pos(
            b,
            t2,
            vo,
        ),
{
}

/// Corruption rejection: truncating a valid buffer at a boundary that
/// cuts through the root table's vtable makes verification fail; the
/// cut can never go unnoticed.
pub proof fn lemma_truncation_in_vtable_rejected(b: Seq<u8>, k: int)
    requires
        collider_root_valid(b),
        0 <= k,
        vtable_pos(b, root_pos(b)) <= k < vtable_pos(b, root_pos(b)) + vt_len(b, root_pos(b)),
    ensures
        !collider_root_valid(b.subrange(0, k)),
{
    let t = root_pos(b);
    let vp = vtable_pos(b, t);
    let s = b.subrange(0, k);
    if collider_root_valid(s) {
        assert(s.len() == k >= 4);
        assert(le32_at(s, 0) == le32_at(b, 0));
        assert(root_pos(s) == t);
        assert(table_ok(s, t));
        assert(t + 4 <= k);
        assert(le32_at(s, t) == le32_at(b, t));
        assert(vtable_pos(s, t) == vp);
        assert(vp + 4 <= k);
        assert(le16_at(s, vp) == le16_at(b, vp));
        assert(vt_len(s, t) == vt_len(b, t));
        assert(vp + vt_len(b, t) <= k);
        assert(false);
    }
}

/// Corruption rejection for strings: truncating a valid buffer inside a
/// present string (its length prefix, its bytes, or its NUL terminator)
/// makes verification fail, provided the cut leaves the table itself
/// intact (the table precedes its strings in a built buffer; a cut
/// before the table is caught by the table checks instead).
pub proof fn lemma_truncation_in_string_rejected(b: Seq<u8>, k: int, vo: int)
    requires
        collider_root_valid(b),
        vo == VT_MATERIAL_NAME as int || vo == VT_MESH_PATH as int,
        slot_off(b, root_pos(b), vo) != 0,
        vtable_pos(b, root_pos(b)) + vt_len(b, root_pos(b)) <= k,
        root_pos(b) + tbl_len(b, root_pos(b)) <= k,
        str_pos(b, root_pos(b), vo) <= k < str_pos(b, root_pos(b), vo) + 5 + le32_at(
            b,
            str_pos(b, root_pos(b), vo),
        ),
    ensures
        !collider_root_valid(b.subrange(0, k)),
{
    let t = root_pos(b);
    let vp = vtable_pos(b, t);
    let sp = str_pos(b, t, vo);
    let s = b.subrange(0, k);
    if collider_root_valid(s) {
        assert(s.len() == k >= 4);
        assert(le32_at(s, 0) == le32_at(b, 0));
        assert(root_pos(s) == t);
        assert(le32_at(s, t) == le32_at(b, t));
        assert(vtable_pos(s, t) == vp);
        assert(le16_at(s, vp) == le16_at(b, vp));
        assert(vt_len(s, t) == vt_len(b, t));
        let off = slot_off(b, t, vo);
        assert(le16_at(s, vp + vo) == le16_at(b, vp + vo));
        assert(slot_off(s, t, vo) == off);
        assert(str_field_ok(s, t, vo));
        assert(le16_at(s, vp + 2) == le16_at(b, vp + 2));
        assert(tbl_len(s, t) == tbl_len(b, t));
        assert(t + off + 4 <= k);
        assert(le32_at(s, t + off) == le32_at(b, t + off));
        assert(str_pos(s, t, vo) == sp);
        assert(str_ok(s, sp));
        assert(sp + 4 <= k);
        assert(le32_at(s, sp) == le32_at(b, sp));
        assert(sp + 5 + le32_at(b, sp) <= k);
        assert(false);
    }
}

} // verus!
