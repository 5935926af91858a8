//! The collider-component schema binding: one concrete table with seven
//! fields, bound to the generic builder, reader and verifier.
//!
//! Field slots: collider type (signed byte enum, default 0), trigger
//! flag (bool, default false), size (inline 12-byte struct of three
//! 32-bit lanes), radius and height (32-bit lanes, default 0), and two
//! strings.  The 32-bit lanes carry IEEE-754 bit patterns; this layer
//! never interprets them as numbers, only stores and returns them.

use vstd::prelude::*;
use crate::bytes::{le16_at, le32_at, lemma_le32_bounds};
use crate::layout::{
    vtable_pos, vt_len, tbl_len, slot_off, field_pos, str_pos, str_ok, str_bytes, table_ok,
    scalar_field_ok, str_field_ok, field_u8, field_bool, field_u32, field_str, root_pos,
    root_header_ok, identifier_at, sp_header_ok, sp_root_pos,
};
use crate::reader::{get_slot_off, get_field_u8, get_field_bool, get_field_u32, get_field_str};
use crate::bytes::{read_u8, read_u32};
use crate::checks::{
    VerifyError, check_table_spec, check_scalar_field_spec, check_str_field_spec, check_table,
    check_scalar_field, check_str_field,
};
use crate::builder::{
    BufferBuilder, SlotRec, has_vo, rev_of_vo, slot_entry, distinct_vos, bool_byte, byte_of_i8,
    f32_zero_bits, lemma_pending_push,
};
use crate::bytes::{push_u32, lemma_front_le32, lemma_le32_prefix, MAX_BUFFER_BYTES,
    MAX_TABLE_BYTES, MAX_SLOT_VOFFSET};
use crate::layout::{
    ext, slot_off_rev, table_ok_rev, tbl_len_rev, str_ok_rev, str_bytes_rev, byte_at_rev,
    le32_at_rev, lemma_ext_refl, lemma_ext_trans, lemma_ext_table, lemma_ext_scalar_bytes,
    lemma_ext_str_field, lemma_ext_str, lemma_ext_le32, lemma_ext_byte, lemma_ext_len,
};

verus! {

pub const VT_COLLIDER_TYPE: u16 = 4;

pub const VT_IS_TRIGGER: u16 = 6;

pub const VT_SIZE: u16 = 8;

pub const VT_RADIUS: u16 = 10;

pub const VT_HEIGHT: u16 = 12;

pub const VT_MATERIAL_NAME: u16 = 14;

pub const VT_MESH_PATH: u16 = 16;

/// The file identifier bytes, `CLDR` in ASCII.
pub const IDENT_0: u8 = 67;

pub const IDENT_1: u8 = 76;

pub const IDENT_2: u8 = 68;

pub const IDENT_3: u8 = 82;

/// The collider shape tag.  A thin wrapper over its wire byte: decoding
/// never fails, so buffers written by a newer schema with more variants
/// still read; only the name lookup is partial.
#[derive(Clone, Copy, PartialEq, Eq, Structural, Hash, Debug, Default)]
pub struct ColliderType(pub i8);

impl ColliderType {
    /// Returns the variant's name, or `None` if unknown.
    pub fn variant_name(self) -> (r: Option<&'static str>)
        ensures
            self.0 == 0 ==> (r matches Some(s) && s@ == "Box"@),
            self.0 == 1 ==> (r matches Some(s) && s@ == "Sphere"@),
            self.0 == 2 ==> (r matches Some(s) && s@ == "Capsule"@),
            self.0 == 3 ==> (r matches Some(s) && s@ == "Mesh"@),
            (self.0 < 0 || self.0 > 3) ==> r is None,
    {
        if self.0 == 0 {
            Some("Box")
        } else if self.0 == 1 {
            Some("Sphere")
        } else if self.0 == 2 {
            Some("Capsule")
        } else if self.0 == 3 {
            Some("Mesh")
        } else {
            None
        }
    }
}

/// A fixed-size inline 3-vector; each lane is the IEEE-754 bit pattern
/// of one float component.
#[derive(Clone, Copy, PartialEq, Eq, Structural, Debug)]
pub struct Vec3 {
    pub x: u32,
    pub y: u32,
    pub z: u32,
}

/// The field assignment a table is built from.  `radius` and `height`
/// hold IEEE-754 bit patterns; strings are raw byte sequences.
pub struct ColliderComponentDataArgs {
    pub collider_type: ColliderType,
    pub is_trigger: bool,
    pub size: Option<Vec3>,
    pub radius: u32,
    pub height: u32,
    pub material_name: Option<Vec<u8>>,
    pub mesh_path: Option<Vec<u8>>,
}

impl Default for ColliderComponentDataArgs {
    /// All fields at their schema defaults: everything absent or zero.
    fn default() -> (r: Self)
        ensures
            r.collider_type.0 == 0,
            !r.is_trigger,
            r.size is None,
            r.radius == 0,
            r.height == 0,
            r.material_name is None,
            r.mesh_path is None,
    {
        ColliderComponentDataArgs {
            collider_type: ColliderType(0),
            is_trigger: false,
            size: None,
            radius: 0,
            height: 0,
            material_name: None,
            mesh_path: None,
        }
    }
}

/// The mathematical value of one table: what every reader sees.
pub struct ColliderVals {
    pub collider_type: i8,
    pub is_trigger: bool,
    pub size: Option<Vec3>,
    pub radius: u32,
    pub height: u32,
    pub material_name: Option<Seq<u8>>,
    pub mesh_path: Option<Seq<u8>>,
}

impl View for ColliderComponentDataArgs {
    type V = ColliderVals;

    open spec fn view(&self) -> ColliderVals {
        ColliderVals {
            collider_type: self.collider_type.0,
            is_trigger: self.is_trigger,
            size: self.size,
            radius: self.radius,
            height: self.height,
            material_name: match self.material_name {
                Some(ref v) => Some(v@),
                None => None,
            },
            mesh_path: match self.mesh_path {
                Some(ref v) => Some(v@),
                None => None,
            },
        }
    }
}

// ----- wire <-> value conversions for the signed byte enum -----

pub open spec fn i8_of_byte(b: u8) -> i8 {
    if b < 0x80 {
        b as i8
    } else {
        (b - 0x100) as i8
    }
}

pub proof fn lemma_i8_byte_roundtrip(v: i8)
    ensures
        i8_of_byte(crate::builder::byte_of_i8(v)) == v,
{
}

// ----- what each field of a table reads as -----

pub open spec fn spec_collider_type(b: Seq<u8>, t: int) -> i8 {
    i8_of_byte(field_u8(b, t, VT_COLLIDER_TYPE as int, 0))
}

pub open spec fn spec_is_trigger(b: Seq<u8>, t: int) -> bool {
    field_bool(b, t, VT_IS_TRIGGER as int, false)
}

pub open spec fn spec_size(b: Seq<u8>, t: int) -> Option<Vec3> {
    if slot_off(b, t, VT_SIZE as int) == 0 {
        None
    } else {
        Some(
            Vec3 {
                x: le32_at(b, field_pos(b, t, VT_SIZE as int)) as u32,
                y: le32_at(b, field_pos(b, t, VT_SIZE as int) + 4) as u32,
                z: le32_at(b, field_pos(b, t, VT_SIZE as int) + 8) as u32,
            },
        )
    }
}

pub open spec fn spec_radius(b: Seq<u8>, t: int) -> u32 {
    field_u32(b, t, VT_RADIUS as int, 0)
}

pub open spec fn spec_height(b: Seq<u8>, t: int) -> u32 {
    field_u32(b, t, VT_HEIGHT as int, 0)
}

pub open spec fn spec_material_name(b: Seq<u8>, t: int) -> Option<Seq<u8>> {
    field_str(b, t, VT_MATERIAL_NAME as int)
}

pub open spec fn spec_mesh_path(b: Seq<u8>, t: int) -> Option<Seq<u8>> {
    field_str(b, t, VT_MESH_PATH as int)
}

pub open spec fn collider_view_at(b: Seq<u8>, t: int) -> ColliderVals {
    ColliderVals {
        collider_type: spec_collider_type(b, t),
        is_trigger: spec_is_trigger(b, t),
        size: spec_size(b, t),
        radius: spec_radius(b, t),
        height: spec_height(b, t),
        material_name: spec_material_name(b, t),
        mesh_path: spec_mesh_path(b, t),
    }
}

/// The bit pattern a float lane stores for a given argument: either
/// zero pattern is omitted (the lane compares IEEE-equal to the default
/// 0.0) and reads back as positive zero; everything else, NaN patterns
/// included, is stored verbatim.
pub open spec fn norm_f32_default(v: u32) -> u32 {
    if f32_zero_bits(v) {
        0
    } else {
        v
    }
}

/// What a built table reads back as, for a given field assignment: every
/// field verbatim, except that the float lanes lose the sign of a
/// negative zero (the slot is omitted and the default read as 0).
pub open spec fn stored_vals(v: ColliderVals) -> ColliderVals {
    ColliderVals {
        collider_type: v.collider_type,
        is_trigger: v.is_trigger,
        size: v.size,
        radius: norm_f32_default(v.radius),
        height: norm_f32_default(v.height),
        material_name: v.material_name,
        mesh_path: v.mesh_path,
    }
}

// ----- validity of one table under this schema -----

pub open spec fn collider_valid(b: Seq<u8>, t: int) -> bool {
    &&& table_ok(b, t)
    &&& scalar_field_ok(b, t, VT_COLLIDER_TYPE as int, 1)
    &&& scalar_field_ok(b, t, VT_IS_TRIGGER as int, 1)
    &&& scalar_field_ok(b, t, VT_SIZE as int, 12)
    &&& scalar_field_ok(b, t, VT_RADIUS as int, 4)
    &&& scalar_field_ok(b, t, VT_HEIGHT as int, 4)
    &&& str_field_ok(b, t, VT_MATERIAL_NAME as int)
    &&& str_field_ok(b, t, VT_MESH_PATH as int)
}

pub open spec fn collider_root_valid(b: Seq<u8>) -> bool {
    &&& root_header_ok(b)
    &&& collider_valid(b, root_pos(b))
}

pub open spec fn sp_collider_root_valid(b: Seq<u8>) -> bool {
    &&& sp_header_ok(b)
    &&& collider_valid(b, sp_root_pos(b))
}

pub open spec fn has_collider_identifier(b: Seq<u8>) -> bool {
    identifier_at(b, 4, IDENT_0, IDENT_1, IDENT_2, IDENT_3)
}

pub open spec fn sp_has_collider_identifier(b: Seq<u8>) -> bool {
    identifier_at(b, 8, IDENT_0, IDENT_1, IDENT_2, IDENT_3)
}

/// What verifying the table at `t` returns, as a function of the bytes:
/// the first failing check decides the error.
pub open spec fn run_verifier_spec(b: Seq<u8>, t: int) -> Result<(), VerifyError> {
    if check_table_spec(b, t) is Err {
        check_table_spec(b, t)
    } else if check_scalar_field_spec(b, t, VT_COLLIDER_TYPE as int, 1) is Err {
        check_scalar_field_spec(b, t, VT_COLLIDER_TYPE as int, 1)
    } else if check_scalar_field_spec(b, t, VT_IS_TRIGGER as int, 1) is Err {
        check_scalar_field_spec(b, t, VT_IS_TRIGGER as int, 1)
    } else if check_scalar_field_spec(b, t, VT_SIZE as int, 12) is Err {
        check_scalar_field_spec(b, t, VT_SIZE as int, 12)
    } else if check_scalar_field_spec(b, t, VT_RADIUS as int, 4) is Err {
        check_scalar_field_spec(b, t, VT_RADIUS as int, 4)
    } else if check_scalar_field_spec(b, t, VT_HEIGHT as int, 4) is Err {
        check_scalar_field_spec(b, t, VT_HEIGHT as int, 4)
    } else if check_str_field_spec(b, t, VT_MATERIAL_NAME as int) is Err {
        check_str_field_spec(b, t, VT_MATERIAL_NAME as int)
    } else if check_str_field_spec(b, t, VT_MESH_PATH as int) is Err {
        check_str_field_spec(b, t, VT_MESH_PATH as int)
    } else {
        Ok(())
    }
}

pub proof fn lemma_run_verifier_spec(b: Seq<u8>, t: int)
    ensures
        run_verifier_spec(b, t) is Ok <==> collider_valid(b, t),
{
    if check_table_spec(b, t) is Ok {
        crate::checks::lemma_check_table_spec(b, t);
        crate::checks::lemma_check_str_field_spec(b, t, VT_MATERIAL_NAME as int);
        crate::checks::lemma_check_str_field_spec(b, t, VT_MESH_PATH as int);
    } else {
        crate::checks::lemma_check_table_spec(b, t);
    }
}

/// Certifies the claimed table at `t`: on success every later read of
/// this table through the typed accessors is in bounds.
pub fn run_verifier(b: &Vec<u8>, t: usize) -> (r: Result<(), VerifyError>)
    ensures
        r == run_verifier_spec(b@, t as int),
        r is Ok <==> collider_valid(b@, t as int),
{
    proof {
        lemma_run_verifier_spec(b@, t as int);
    }
    match check_table(b, t) {
        Err(e) => return Err(e),
        Ok(()) => (),
    }
    match check_scalar_field(b, t, VT_COLLIDER_TYPE, 1) {
        Err(e) => return Err(e),
        Ok(()) => (),
    }
    match check_scalar_field(b, t, VT_IS_TRIGGER, 1) {
        Err(e) => return Err(e),
        Ok(()) => (),
    }
    match check_scalar_field(b, t, VT_SIZE, 12) {
        Err(e) => return Err(e),
        Ok(()) => (),
    }
    match check_scalar_field(b, t, VT_RADIUS, 4) {
        Err(e) => return Err(e),
        Ok(()) => (),
    }
    match check_scalar_field(b, t, VT_HEIGHT, 4) {
        Err(e) => return Err(e),
        Ok(()) => (),
    }
    match check_str_field(b, t, VT_MATERIAL_NAME) {
        Err(e) => return Err(e),
        Ok(()) => (),
    }
    match check_str_field(b, t, VT_MESH_PATH) {
        Err(e) => return Err(e),
        Ok(()) => (),
    }
    Ok(())
}

/// A typed, zero-copy view of one verified table.  Values of this type
/// exist only for buffers the verifier accepted, so the accessors need
/// no further checks.
pub struct ColliderComponentData<'a> {
    buf: &'a Vec<u8>,
    pos: usize,
}

impl<'a> ColliderComponentData<'a> {
    pub closed spec fn sbuf(self) -> Seq<u8> {
        self.buf@
    }

    pub closed spec fn spos(self) -> int {
        self.pos as int
    }

    pub closed spec fn wf(self) -> bool {
        collider_valid(self.buf@, self.pos as int)
    }

    pub fn collider_type(&self) -> (r: ColliderType)
        requires
            self.wf(),
        ensures
            r.0 == spec_collider_type(self.sbuf(), self.spos()),
    {
        let byte = get_field_u8(self.buf, self.pos, VT_COLLIDER_TYPE, 0);
        if byte < 0x80 {
            ColliderType(byte as i8)
        } else {
            ColliderType(-((0xFFu8 - byte) as i8) - 1)
        }
    }

    pub fn is_trigger(&self) -> (r: bool)
        requires
            self.wf(),
        ensures
            r == spec_is_trigger(self.sbuf(), self.spos()),
    {
        get_field_bool(self.buf, self.pos, VT_IS_TRIGGER, false)
    }

    pub fn size(&self) -> (r: Option<Vec3>)
        requires
            self.wf(),
        ensures
            r == spec_size(self.sbuf(), self.spos()),
    {
        let n = self.buf.len();
        let off = get_slot_off(self.buf, self.pos, VT_SIZE);
        if off == 0 {
            return None;
        }
        proof {
            assert(self.pos + off + 12 <= n);
            lemma_le32_bounds(self.buf@, self.pos + off as int);
            lemma_le32_bounds(self.buf@, self.pos + off + 4int);
            lemma_le32_bounds(self.buf@, self.pos + off + 8int);
        }
        let fp = self.pos + off as usize;
        let x = read_u32(self.buf, fp);
        let y = read_u32(self.buf, fp + 4);
        let z = read_u32(self.buf, fp + 8);
        Some(Vec3 { x, y, z })
    }

    /// The radius field's IEEE-754 bit pattern (default 0, the bits of
    /// positive zero).
    pub fn radius(&self) -> (r: u32)
        requires
            self.wf(),
        ensures
            r == spec_radius(self.sbuf(), self.spos()),
    {
        get_field_u32(self.buf, self.pos, VT_RADIUS, 0)
    }

    /// The height field's IEEE-754 bit pattern (default 0).
    pub fn height(&self) -> (r: u32)
        requires
            self.wf(),
        ensures
            r == spec_height(self.sbuf(), self.spos()),
    {
        get_field_u32(self.buf, self.pos, VT_HEIGHT, 0)
    }

    pub fn material_name(&self) -> (r: Option<Vec<u8>>)
        requires
            self.wf(),
        ensures
            spec_material_name(self.sbuf(), self.spos()) == (match r {
                Some(v) => Some(v@),
                None => None::<Seq<u8>>,
            }),
    {
        get_field_str(self.buf, self.pos, VT_MATERIAL_NAME)
    }

    pub fn mesh_path(&self) -> (r: Option<Vec<u8>>)
        requires
            self.wf(),
        ensures
            spec_mesh_path(self.sbuf(), self.spos()) == (match r {
                Some(v) => Some(v@),
                None => None::<Seq<u8>>,
            }),
    {
        get_field_str(self.buf, self.pos, VT_MESH_PATH)
    }
}

// ----- building one table -----

/// Bytes a string field occupies in the arena (length prefix, bytes,
/// NUL), 0 when absent.
pub open spec fn str_space(o: Option<Vec<u8>>) -> int {
    match o {
        Some(v) => v@.len() as int + 5,
        None => 0,
    }
}

/// Room needed to build one collider table on top of `base` bytes.
pub open spec fn create_fits(base: int, args: ColliderComponentDataArgs) -> bool {
    base + str_space(args.material_name) + str_space(args.mesh_path) + MAX_TABLE_BYTES + 64
        <= MAX_BUFFER_BYTES
}

fn maybe_create_string(fbb: &mut BufferBuilder, s: &Option<Vec<u8>>) -> (r: Option<usize>)
    requires
        old(fbb).wf(),
        !old(fbb).in_table(),
        old(fbb).bytes().len() + str_space(*s) <= MAX_BUFFER_BYTES,
    ensures
        final(fbb).wf(),
        !final(fbb).in_table(),
        ext(old(fbb).bytes(), final(fbb).bytes()),
        final(fbb).bytes().len() == old(fbb).bytes().len() + str_space(*s),
        s is None ==> r is None && final(fbb).bytes() == old(fbb).bytes(),
        s matches Some(v) ==> (r matches Some(rv) && rv == final(fbb).bytes().len() && str_ok_rev(
            final(fbb).bytes(),
            rv as int,
        ) && str_bytes_rev(final(fbb).bytes(), rv as int) == v@),
    {
    match s {
        Some(v) => Some(fbb.create_string(v)),
        None => {
            proof {
                lemma_ext_refl(fbb.bytes());
            }
            None
        },
    }
}

/// A finished collider table, with its vtable contents and every field
/// value, survives any backward growth of the buffer around it.
#[verifier::rlimit(100)]
pub proof fn lemma_ext_collider(o: Seq<u8>, n: Seq<u8>, rt: int)
    requires
        ext(o, n),
        4 <= rt <= o.len(),
        collider_valid(o, o.len() - rt),
    ensures
        collider_valid(n, n.len() - rt),
        collider_view_at(n, n.len() - rt) == collider_view_at(o, o.len() - rt),
        forall|vo: int| 4 <= vo ==> #[trigger] slot_off_rev(n, rt, vo) == slot_off_rev(o, rt, vo),
{
    lemma_ext_len(o, n);
    let to = o.len() - rt;
    let tn = n.len() - rt;
    lemma_ext_table(o, n, rt);
    assert(slot_off_rev(n, rt, VT_COLLIDER_TYPE as int) == slot_off_rev(o, rt, VT_COLLIDER_TYPE as int));
    assert(slot_off_rev(n, rt, VT_IS_TRIGGER as int) == slot_off_rev(o, rt, VT_IS_TRIGGER as int));
    assert(slot_off_rev(n, rt, VT_SIZE as int) == slot_off_rev(o, rt, VT_SIZE as int));
    assert(slot_off_rev(n, rt, VT_RADIUS as int) == slot_off_rev(o, rt, VT_RADIUS as int));
    assert(slot_off_rev(n, rt, VT_HEIGHT as int) == slot_off_rev(o, rt, VT_HEIGHT as int));
    assert(slot_off_rev(n, rt, VT_MATERIAL_NAME as int) == slot_off_rev(o, rt, VT_MATERIAL_NAME as int));
    assert(slot_off_rev(n, rt, VT_MESH_PATH as int) == slot_off_rev(o, rt, VT_MESH_PATH as int));
    if slot_off(o, to, VT_COLLIDER_TYPE as int) != 0 {
        lemma_ext_scalar_bytes(o, n, rt, VT_COLLIDER_TYPE as int, 1);
    }
    if slot_off(o, to, VT_IS_TRIGGER as int) != 0 {
        lemma_ext_scalar_bytes(o, n, rt, VT_IS_TRIGGER as int, 1);
    }
    if slot_off(o, to, VT_RADIUS as int) != 0 {
        lemma_ext_scalar_bytes(o, n, rt, VT_RADIUS as int, 4);
    }
    if slot_off(o, to, VT_HEIGHT as int) != 0 {
        lemma_ext_scalar_bytes(o, n, rt, VT_HEIGHT as int, 4);
    }
    if slot_off(o, to, VT_SIZE as int) != 0 {
        let off = slot_off(o, to, VT_SIZE as int);
        lemma_ext_le32(o, n, rt - off);
        lemma_ext_le32(o, n, rt - off - 4);
        lemma_ext_le32(o, n, rt - off - 8);
    }
    lemma_ext_str_field(o, n, rt, VT_MATERIAL_NAME as int);
    lemma_ext_str_field(o, n, rt, VT_MESH_PATH as int);
    assert(spec_collider_type(n, tn) == spec_collider_type(o, to));
    assert(spec_is_trigger(n, tn) == spec_is_trigger(o, to));
    assert(spec_size(n, tn) == spec_size(o, to));
    assert(spec_radius(n, tn) == spec_radius(o, to));
    assert(spec_height(n, tn) == spec_height(o, to));
    assert(spec_material_name(n, tn) == spec_material_name(o, to));
    assert(spec_mesh_path(n, tn) == spec_mesh_path(o, to));
    assert(collider_view_at(n, tn) == collider_view_at(o, to));
}

/// What the pending-slot bookkeeping looks like after all seven pushes:
/// exactly the non-default fields are recorded, each at the rev
/// coordinate where its inline bytes were written.  `l2`..`l8` are the
/// arena sizes before each push.
pub open spec fn pending_summary(
    args: ColliderComponentDataArgs,
    p: Seq<SlotRec>,
    l2: int,
    l3: int,
    l4: int,
    l5: int,
    l6: int,
    l7: int,
    l8: int,
) -> bool {
    &&& (args.mesh_path is Some ==> has_vo(p, VT_MESH_PATH as int) && rev_of_vo(
        p,
        VT_MESH_PATH as int,
    ) == l2 + 4)
    &&& (args.mesh_path is None ==> !has_vo(p, VT_MESH_PATH as int))
    &&& (args.material_name is Some ==> has_vo(p, VT_MATERIAL_NAME as int) && rev_of_vo(
        p,
        VT_MATERIAL_NAME as int,
    ) == l3 + 4)
    &&& (args.material_name is None ==> !has_vo(p, VT_MATERIAL_NAME as int))
    &&& (!f32_zero_bits(args.height) ==> has_vo(p, VT_HEIGHT as int) && rev_of_vo(
        p,
        VT_HEIGHT as int,
    ) == l4 + 4)
    &&& (f32_zero_bits(args.height) ==> !has_vo(p, VT_HEIGHT as int))
    &&& (!f32_zero_bits(args.radius) ==> has_vo(p, VT_RADIUS as int) && rev_of_vo(
        p,
        VT_RADIUS as int,
    ) == l5 + 4)
    &&& (f32_zero_bits(args.radius) ==> !has_vo(p, VT_RADIUS as int))
    &&& (args.size is Some ==> has_vo(p, VT_SIZE as int) && rev_of_vo(p, VT_SIZE as int) == l6
        + 12)
    &&& (args.size is None ==> !has_vo(p, VT_SIZE as int))
    &&& (args.is_trigger ==> has_vo(p, VT_IS_TRIGGER as int) && rev_of_vo(p, VT_IS_TRIGGER as int)
        == l7 + 1)
    &&& (!args.is_trigger ==> !has_vo(p, VT_IS_TRIGGER as int))
    &&& (args.collider_type.0 != 0 ==> has_vo(p, VT_COLLIDER_TYPE as int) && rev_of_vo(
        p,
        VT_COLLIDER_TYPE as int,
    ) == l8 + 1)
    &&& (args.collider_type.0 == 0 ==> !has_vo(p, VT_COLLIDER_TYPE as int))
}

/// Replays the seven conditional pushes over the pending-slot records.
#[verifier::rlimit(100)]
#[verifier::spinoff_prover]
proof fn lemma_pending_chain(
    args: ColliderComponentDataArgs,
    p0: Seq<SlotRec>,
    p1: Seq<SlotRec>,
    p2: Seq<SlotRec>,
    p3: Seq<SlotRec>,
    p4: Seq<SlotRec>,
    p5: Seq<SlotRec>,
    p6: Seq<SlotRec>,
    p7: Seq<SlotRec>,
    l2: int,
    l3: int,
    l4: int,
    l5: int,
    l6: int,
    l7: int,
    l8: int,
)
    requires
        0 <= l2 <= l3 <= l4 <= l5 <= l6 <= l7 <= l8,
        l8 + 1 <= MAX_BUFFER_BYTES,
        p0 == Seq::<SlotRec>::empty(),
        args.mesh_path is Some ==> p1 == p0.push(
            (SlotRec { vo: VT_MESH_PATH, rev: (l2 + 4) as usize }),
        ),
        args.mesh_path is None ==> p1 == p0,
        args.material_name is Some ==> p2 == p1.push(
            (SlotRec { vo: VT_MATERIAL_NAME, rev: (l3 + 4) as usize }),
        ),
        args.material_name is None ==> p2 == p1,
        !f32_zero_bits(args.height) ==> p3 == p2.push(
            (SlotRec { vo: VT_HEIGHT, rev: (l4 + 4) as usize }),
        ),
        f32_zero_bits(args.height) ==> p3 == p2,
        !f32_zero_bits(args.radius) ==> p4 == p3.push(
            (SlotRec { vo: VT_RADIUS, rev: (l5 + 4) as usize }),
        ),
        f32_zero_bits(args.radius) ==> p4 == p3,
        args.size is Some ==> p5 == p4.push((SlotRec { vo: VT_SIZE, rev: (l6 + 12) as usize })),
        args.size is None ==> p5 == p4,
        args.is_trigger ==> p6 == p5.push(
            (SlotRec { vo: VT_IS_TRIGGER, rev: (l7 + 1) as usize }),
        ),
        !args.is_trigger ==> p6 == p5,
        args.collider_type.0 != 0 ==> p7 == p6.push(
            (SlotRec { vo: VT_COLLIDER_TYPE, rev: (l8 + 1) as usize }),
        ),
        args.collider_type.0 == 0 ==> p7 == p6,
    ensures
        pending_summary(args, p7, l2, l3, l4, l5, l6, l7, l8),
{
    if args.mesh_path is Some {
        lemma_pending_push(p0, (SlotRec { vo: VT_MESH_PATH, rev: (l2 + 4) as usize }));
    }
    if args.material_name is Some {
        lemma_pending_push(p1, (SlotRec { vo: VT_MATERIAL_NAME, rev: (l3 + 4) as usize }));
    }
    if !f32_zero_bits(args.height) {
        lemma_pending_push(p2, (SlotRec { vo: VT_HEIGHT, rev: (l4 + 4) as usize }));
    }
    if !f32_zero_bits(args.radius) {
        lemma_pending_push(p3, (SlotRec { vo: VT_RADIUS, rev: (l5 + 4) as usize }));
    }
    if args.size is Some {
        lemma_pending_push(p4, (SlotRec { vo: VT_SIZE, rev: (l6 + 12) as usize }));
    }
    if args.is_trigger {
        lemma_pending_push(p5, (SlotRec { vo: VT_IS_TRIGGER, rev: (l7 + 1) as usize }));
    }
    if args.collider_type.0 != 0 {
        lemma_pending_push(p6, (SlotRec { vo: VT_COLLIDER_TYPE, rev: (l8 + 1) as usize }));
    }
}

/// Everything `create` has after its last push, distilled: given the
/// byte states of each build step and the recorded slots, the table
/// that `end_table` closed is valid and reads back exactly `args`.
#[verifier::rlimit(100)]
#[verifier::spinoff_prover]
proof fn lemma_create_table(
    args: ColliderComponentDataArgs,
    msrev: int,
    masrev: int,
    s2: Seq<u8>,
    s3: Seq<u8>,
    s4: Seq<u8>,
    s5: Seq<u8>,
    s6: Seq<u8>,
    s7: Seq<u8>,
    s8: Seq<u8>,
    s9: Seq<u8>,
    bf: Seq<u8>,
    p7: Seq<SlotRec>,
    mark: int,
    rt: int,
)
    requires
        args.mesh_path is Some ==> 0 < msrev <= s2.len() && str_ok_rev(s2, msrev)
            && str_bytes_rev(s2, msrev) == args.mesh_path->Some_0@,
        args.material_name is Some ==> 0 < masrev <= s2.len() && str_ok_rev(s2, masrev)
            && str_bytes_rev(s2, masrev) == args.material_name->Some_0@,
        mark == s2.len(),
        ext(s2, s3),
        args.mesh_path is Some ==> s3.len() == s2.len() + 4 && le32_at_rev(s3, s2.len() + 4int)
            == s2.len() + 4 - msrev,
        args.mesh_path is None ==> s3.len() == s2.len(),
        ext(s3, s4),
        args.material_name is Some ==> s4.len() == s3.len() + 4 && le32_at_rev(
            s4,
            s3.len() + 4int,
        ) == s3.len() + 4 - masrev,
        args.material_name is None ==> s4.len() == s3.len(),
        ext(s4, s5),
        !f32_zero_bits(args.height) ==> s5.len() == s4.len() + 4 && le32_at_rev(
            s5,
            s4.len() + 4int,
        ) == args.height,
        f32_zero_bits(args.height) ==> s5.len() == s4.len(),
        ext(s5, s6),
        !f32_zero_bits(args.radius) ==> s6.len() == s5.len() + 4 && le32_at_rev(
            s6,
            s5.len() + 4int,
        ) == args.radius,
        f32_zero_bits(args.radius) ==> s6.len() == s5.len(),
        ext(s6, s7),
        args.size is Some ==> s7.len() == s6.len() + 12 && le32_at_rev(s7, s6.len() + 12int)
            == args.size->Some_0.x && le32_at_rev(s7, s6.len() + 8int) == args.size->Some_0.y
            && le32_at_rev(s7, s6.len() + 4int) == args.size->Some_0.z,
        args.size is None ==> s7.len() == s6.len(),
        ext(s7, s8),
        args.is_trigger ==> s8.len() == s7.len() + 1 && byte_at_rev(s8, s7.len() + 1int)
            == bool_byte(true),
        !args.is_trigger ==> s8.len() == s7.len(),
        ext(s8, s9),
        args.collider_type.0 != 0 ==> s9.len() == s8.len() + 1 && byte_at_rev(
            s9,
            s8.len() + 1int,
        ) == byte_of_i8(args.collider_type.0),
        args.collider_type.0 == 0 ==> s9.len() == s8.len(),
        pending_summary(
            args,
            p7,
            s2.len() as int,
            s3.len() as int,
            s4.len() as int,
            s5.len() as int,
            s6.len() as int,
            s7.len() as int,
            s8.len() as int,
        ),
        ext(s9, bf),
        rt == s9.len() + 4,
        4 <= rt <= bf.len(),
        bf.len() <= MAX_BUFFER_BYTES,
        table_ok_rev(bf, rt),
        tbl_len_rev(bf, rt) == rt - mark,
        forall|vo: int|
            4 <= vo && vo % 2 == 0 ==> #[trigger] slot_off_rev(bf, rt, vo) == slot_entry(
                p7,
                rt,
                vo,
            ),
    ensures
        ext(s2, bf),
        collider_valid(bf, bf.len() - rt),
        collider_view_at(bf, bf.len() - rt) == stored_vals(args@),
        slot_off_rev(bf, rt, VT_COLLIDER_TYPE as int) == 0 <==> args.collider_type.0 == 0,
        slot_off_rev(bf, rt, VT_IS_TRIGGER as int) == 0 <==> !args.is_trigger,
        slot_off_rev(bf, rt, VT_SIZE as int) == 0 <==> args.size is None,
        slot_off_rev(bf, rt, VT_RADIUS as int) == 0 <==> f32_zero_bits(args.radius),
        slot_off_rev(bf, rt, VT_HEIGHT as int) == 0 <==> f32_zero_bits(args.height),
        slot_off_rev(bf, rt, VT_MATERIAL_NAME as int) == 0 <==> args.material_name is None,
        slot_off_rev(bf, rt, VT_MESH_PATH as int) == 0 <==> args.mesh_path is None,
{
    lemma_ext_len(s9, bf);
    let t = bf.len() - rt;
    // carry every byte-level fact forward to the finished state
    lemma_ext_trans(s8, s9, bf);
    lemma_ext_trans(s7, s8, bf);
    lemma_ext_trans(s6, s7, bf);
    lemma_ext_trans(s5, s6, bf);
    lemma_ext_trans(s4, s5, bf);
    lemma_ext_trans(s3, s4, bf);
    lemma_ext_trans(s2, s3, bf);
    // collider type
    assert(scalar_field_ok(bf, t, VT_COLLIDER_TYPE as int, 1) && spec_collider_type(bf, t)
        == args.collider_type.0 && (slot_off(bf, t, VT_COLLIDER_TYPE as int) == 0
        <==> args.collider_type.0 == 0)) by {
        if args.collider_type.0 != 0 {
            let rev = s8.len() as int + 1;
            lemma_ext_byte(s9, bf, rev);
            assert(slot_off_rev(bf, rt, VT_COLLIDER_TYPE as int) == slot_entry(
                p7,
                rt,
                VT_COLLIDER_TYPE as int,
            ));
            assert(slot_off(bf, t, VT_COLLIDER_TYPE as int) == rt - rev);
            lemma_i8_byte_roundtrip(args.collider_type.0);
        } else {
            assert(slot_off_rev(bf, rt, VT_COLLIDER_TYPE as int) == slot_entry(
                p7,
                rt,
                VT_COLLIDER_TYPE as int,
            ));
            assert(slot_off(bf, t, VT_COLLIDER_TYPE as int) == 0);
        }
    }
    // trigger flag
    assert(scalar_field_ok(bf, t, VT_IS_TRIGGER as int, 1) && spec_is_trigger(bf, t)
        == args.is_trigger && (slot_off(bf, t, VT_IS_TRIGGER as int) == 0
        <==> !args.is_trigger)) by {
        if args.is_trigger {
            let rev = s7.len() as int + 1;
            lemma_ext_byte(s8, bf, rev);
            assert(slot_off_rev(bf, rt, VT_IS_TRIGGER as int) == slot_entry(
                p7,
                rt,
                VT_IS_TRIGGER as int,
            ));
            assert(slot_off(bf, t, VT_IS_TRIGGER as int) == rt - rev);
        } else {
            assert(slot_off_rev(bf, rt, VT_IS_TRIGGER as int) == slot_entry(
                p7,
                rt,
                VT_IS_TRIGGER as int,
            ));
            assert(slot_off(bf, t, VT_IS_TRIGGER as int) == 0);
        }
    }
    // size
    assert(scalar_field_ok(bf, t, VT_SIZE as int, 12) && spec_size(bf, t) == args.size && (
    slot_off(bf, t, VT_SIZE as int) == 0 <==> args.size is None)) by {
        if args.size is Some {
            let v = args.size->Some_0;
            let rev = s6.len() as int + 12;
            lemma_ext_le32(s7, bf, rev);
            lemma_ext_le32(s7, bf, rev - 4);
            lemma_ext_le32(s7, bf, rev - 8);
            assert(slot_off_rev(bf, rt, VT_SIZE as int) == slot_entry(p7, rt, VT_SIZE as int));
            assert(slot_off(bf, t, VT_SIZE as int) == rt - rev);
            assert(spec_size(bf, t) == Some(v));
        } else {
            assert(slot_off_rev(bf, rt, VT_SIZE as int) == slot_entry(p7, rt, VT_SIZE as int));
            assert(slot_off(bf, t, VT_SIZE as int) == 0);
        }
    }
    // radius
    assert(scalar_field_ok(bf, t, VT_RADIUS as int, 4) && spec_radius(bf, t) == norm_f32_default(
        args.radius,
    ) && (slot_off(bf, t, VT_RADIUS as int) == 0 <==> f32_zero_bits(args.radius))) by {
        if !f32_zero_bits(args.radius) {
            let rev = s5.len() as int + 4;
            lemma_ext_le32(s6, bf, rev);
            assert(slot_off_rev(bf, rt, VT_RADIUS as int) == slot_entry(p7, rt, VT_RADIUS as int));
            assert(slot_off(bf, t, VT_RADIUS as int) == rt - rev);
        } else {
            assert(slot_off_rev(bf, rt, VT_RADIUS as int) == slot_entry(p7, rt, VT_RADIUS as int));
            assert(slot_off(bf, t, VT_RADIUS as int) == 0);
        }
    }
    // height
    assert(scalar_field_ok(bf, t, VT_HEIGHT as int, 4) && spec_height(bf, t) == norm_f32_default(
        args.height,
    ) && (slot_off(bf, t, VT_HEIGHT as int) == 0 <==> f32_zero_bits(args.height))) by {
        if !f32_zero_bits(args.height) {
            let rev = s4.len() as int + 4;
            lemma_ext_le32(s5, bf, rev);
            assert(slot_off_rev(bf, rt, VT_HEIGHT as int) == slot_entry(p7, rt, VT_HEIGHT as int));
            assert(slot_off(bf, t, VT_HEIGHT as int) == rt - rev);
        } else {
            assert(slot_off_rev(bf, rt, VT_HEIGHT as int) == slot_entry(p7, rt, VT_HEIGHT as int));
            assert(slot_off(bf, t, VT_HEIGHT as int) == 0);
        }
    }
    // material name
    assert(str_field_ok(bf, t, VT_MATERIAL_NAME as int) && spec_material_name(bf, t) == (
    match args.material_name {
        Some(v) => Some(v@),
        None => None,
    }) && (slot_off(bf, t, VT_MATERIAL_NAME as int) == 0 <==> args.material_name is None)) by {
    if args.material_name is Some {
        let v = args.material_name->Some_0;
        let srev = masrev;
        let rev = s3.len() as int + 4;
        lemma_ext_le32(s4, bf, rev);
        lemma_ext_str(s2, bf, srev);
        assert(slot_off_rev(bf, rt, VT_MATERIAL_NAME as int) == slot_entry(
            p7,
            rt,
            VT_MATERIAL_NAME as int,
        ));
        assert(slot_off(bf, t, VT_MATERIAL_NAME as int) == rt - rev);
        assert(field_pos(bf, t, VT_MATERIAL_NAME as int) == bf.len() - rev);
        assert(str_pos(bf, t, VT_MATERIAL_NAME as int) == bf.len() - srev);
        assert(str_ok(bf, bf.len() - srev));
        assert(str_field_ok(bf, t, VT_MATERIAL_NAME as int));
        assert(spec_material_name(bf, t) == Some(v@));
    } else {
        assert(slot_off_rev(bf, rt, VT_MATERIAL_NAME as int) == slot_entry(
            p7,
            rt,
            VT_MATERIAL_NAME as int,
        ));
        assert(slot_off(bf, t, VT_MATERIAL_NAME as int) == 0);
        assert(str_field_ok(bf, t, VT_MATERIAL_NAME as int));
    }
    }
    // mesh path
    assert(str_field_ok(bf, t, VT_MESH_PATH as int) && spec_mesh_path(bf, t) == (
    match args.mesh_path {
        Some(v) => Some(v@),
        None => None,
    }) && (slot_off(bf, t, VT_MESH_PATH as int) == 0 <==> args.mesh_path is None)) by {
    if args.mesh_path is Some {
        let v = args.mesh_path->Some_0;
        let srev = msrev;
        let rev = s2.len() as int + 4;
        lemma_ext_le32(s3, bf, rev);
        lemma_ext_str(s2, bf, srev);
        assert(slot_off_rev(bf, rt, VT_MESH_PATH as int) == slot_entry(
            p7,
            rt,
            VT_MESH_PATH as int,
        ));
        assert(slot_off(bf, t, VT_MESH_PATH as int) == rt - rev);
        assert(str_pos(bf, t, VT_MESH_PATH as int) == bf.len() - srev);
        assert(str_field_ok(bf, t, VT_MESH_PATH as int));
        assert(spec_mesh_path(bf, t) == Some(v@));
    } else {
        assert(slot_off_rev(bf, rt, VT_MESH_PATH as int) == slot_entry(
            p7,
            rt,
            VT_MESH_PATH as int,
        ));
        assert(slot_off(bf, t, VT_MESH_PATH as int) == 0);
        assert(str_field_ok(bf, t, VT_MESH_PATH as int));
    }
    }
    assert(collider_valid(bf, t));
    assert(collider_view_at(bf, t) == stored_vals(args@));
}

impl<'a> ColliderComponentData<'a> {
    /// Builds one collider table from `args`: strings first (a forward
    /// offset can only point at an object whose final position is
    /// known), then the inline fields, then the vtable.  Returns the
    /// table's rev coordinate, to be handed to `finish`.  A scalar equal
    /// to its default is omitted; its vtable slot stays 0 and readers
    /// fall back to the default.
    pub fn create(fbb: &mut BufferBuilder, args: &ColliderComponentDataArgs) -> (rt: usize)
        requires
            old(fbb).wf(),
            !old(fbb).in_table(),
            create_fits(old(fbb).bytes().len() as int, *args),
        ensures
            final(fbb).wf(),
            !final(fbb).in_table(),
            ext(old(fbb).bytes(), final(fbb).bytes()),
            4 <= rt <= final(fbb).bytes().len(),
            final(fbb).bytes().len() <= old(fbb).bytes().len() + str_space(args.material_name)
                + str_space(args.mesh_path) + MAX_SLOT_VOFFSET + 36,
            collider_valid(final(fbb).bytes(), final(fbb).bytes().len() - rt),
            collider_view_at(final(fbb).bytes(), final(fbb).bytes().len() - rt) == stored_vals(
                args@,
            ),
            slot_off_rev(final(fbb).bytes(), rt as int, VT_COLLIDER_TYPE as int) == 0
                <==> args.collider_type.0 == 0,
            slot_off_rev(final(fbb).bytes(), rt as int, VT_IS_TRIGGER as int) == 0
                <==> !args.is_trigger,
            slot_off_rev(final(fbb).bytes(), rt as int, VT_SIZE as int) == 0 <==> args.size
                is None,
            slot_off_rev(final(fbb).bytes(), rt as int, VT_RADIUS as int) == 0 <==> f32_zero_bits(
                args.radius,
            ),
            slot_off_rev(final(fbb).bytes(), rt as int, VT_HEIGHT as int) == 0 <==> f32_zero_bits(
                args.height,
            ),
            slot_off_rev(final(fbb).bytes(), rt as int, VT_MATERIAL_NAME as int) == 0
                <==> args.material_name is None,
            slot_off_rev(final(fbb).bytes(), rt as int, VT_MESH_PATH as int) == 0
                <==> args.mesh_path is None,
    {
        let ghost b0 = fbb.bytes();
        let mesh_rev = maybe_create_string(fbb, &args.mesh_path);
        let ghost s1 = fbb.bytes();
        let mat_rev = maybe_create_string(fbb, &args.material_name);
        let ghost s2 = fbb.bytes();
        proof {
            if args.mesh_path is Some {
                lemma_ext_str(s1, s2, s1.len() as int);
            }
            lemma_ext_trans(b0, s1, s2);
        }
        let rt = Self::create_from_revs(fbb, args, mesh_rev, mat_rev);
        proof {
            lemma_ext_trans(b0, s2, fbb.bytes());
        }
        rt
    }

    /// Opens the table and writes the seven fields; `mesh_rev` and
    /// `mat_rev` are the rev coordinates of the two strings, which must
    /// already sit in the arena.
    #[verifier::rlimit(100)]
    #[verifier::spinoff_prover]
    fn create_from_revs(
        fbb: &mut BufferBuilder,
        args: &ColliderComponentDataArgs,
        mesh_rev: Option<usize>,
        mat_rev: Option<usize>,
    ) -> (rt: usize)
        requires
            old(fbb).wf(),
            !old(fbb).in_table(),
            old(fbb).bytes().len() + MAX_TABLE_BYTES + 64 <= MAX_BUFFER_BYTES,
            args.mesh_path is Some <==> mesh_rev is Some,
            args.material_name is Some <==> mat_rev is Some,
            args.mesh_path is Some ==> 0 < mesh_rev->Some_0 <= old(fbb).bytes().len()
                && str_ok_rev(old(fbb).bytes(), mesh_rev->Some_0 as int) && str_bytes_rev(
                old(fbb).bytes(),
                mesh_rev->Some_0 as int,
            ) == args.mesh_path->Some_0@,
            args.material_name is Some ==> 0 < mat_rev->Some_0 <= old(fbb).bytes().len()
                && str_ok_rev(old(fbb).bytes(), mat_rev->Some_0 as int) && str_bytes_rev(
                old(fbb).bytes(),
                mat_rev->Some_0 as int,
            ) == args.material_name->Some_0@,
        ensures
            final(fbb).wf(),
            !final(fbb).in_table(),
            ext(old(fbb).bytes(), final(fbb).bytes()),
            4 <= rt <= final(fbb).bytes().len(),
            final(fbb).bytes().len() <= old(fbb).bytes().len() + MAX_SLOT_VOFFSET + 36,
            collider_valid(final(fbb).bytes(), final(fbb).bytes().len() - rt),
            collider_view_at(final(fbb).bytes(), final(fbb).bytes().len() - rt) == stored_vals(
                args@,
            ),
            slot_off_rev(final(fbb).bytes(), rt as int, VT_COLLIDER_TYPE as int) == 0
                <==> args.collider_type.0 == 0,
            slot_off_rev(final(fbb).bytes(), rt as int, VT_IS_TRIGGER as int) == 0
                <==> !args.is_trigger,
            slot_off_rev(final(fbb).bytes(), rt as int, VT_SIZE as int) == 0 <==> args.size
                is None,
            slot_off_rev(final(fbb).bytes(), rt as int, VT_RADIUS as int) == 0 <==> f32_zero_bits(
                args.radius,
            ),
            slot_off_rev(final(fbb).bytes(), rt as int, VT_HEIGHT as int) == 0 <==> f32_zero_bits(
                args.height,
            ),
            slot_off_rev(final(fbb).bytes(), rt as int, VT_MATERIAL_NAME as int) == 0
                <==> args.material_name is None,
            slot_off_rev(final(fbb).bytes(), rt as int, VT_MESH_PATH as int) == 0
                <==> args.mesh_path is None,
    {
        let ghost s2 = fbb.bytes();
        let ghost msrev: int = if mesh_rev is Some { mesh_rev->Some_0 as int } else { 0 };
        let ghost masrev: int = if mat_rev is Some { mat_rev->Some_0 as int } else { 0 };
        fbb.start_table();
        let ghost mark = fbb.mark();
        let ghost p0 = fbb.pending();
        match mesh_rev {
            Some(rv) => {
                fbb.push_slot_ref(VT_MESH_PATH, rv);
            },
            None => {
                proof {
                    lemma_ext_refl(fbb.bytes());
                }
            },
        }
        let ghost s3 = fbb.bytes();
        let ghost p1 = fbb.pending();
        match mat_rev {
            Some(rv) => {
                fbb.push_slot_ref(VT_MATERIAL_NAME, rv);
            },
            None => {
                proof {
                    lemma_ext_refl(fbb.bytes());
                }
            },
        }
        let ghost s4 = fbb.bytes();
        let ghost p2 = fbb.pending();
        fbb.push_slot_f32(VT_HEIGHT, args.height);
        let ghost s5 = fbb.bytes();
        let ghost p3 = fbb.pending();
        fbb.push_slot_f32(VT_RADIUS, args.radius);
        let ghost s6 = fbb.bytes();
        let ghost p4 = fbb.pending();
        match &args.size {
            Some(v) => {
                let mut sdata: Vec<u8> = Vec::new();
                push_u32(&mut sdata, v.x);
                let ghost d1 = sdata@;
                push_u32(&mut sdata, v.y);
                let ghost d2 = sdata@;
                push_u32(&mut sdata, v.z);
                proof {
                    lemma_le32_prefix(d1, d2, 0);
                    lemma_le32_prefix(d2, sdata@, 0);
                    lemma_le32_prefix(d2, sdata@, 4);
                }
                fbb.push_slot_always_bytes(VT_SIZE, &sdata);
                proof {
                    lemma_front_le32(sdata@, s6, 0);
                    lemma_front_le32(sdata@, s6, 4);
                    lemma_front_le32(sdata@, s6, 8);
                }
            },
            None => {
                proof {
                    lemma_ext_refl(fbb.bytes());
                }
            },
        }
        let ghost s7 = fbb.bytes();
        let ghost p5 = fbb.pending();
        fbb.push_slot_bool(VT_IS_TRIGGER, args.is_trigger, false);
        let ghost s8 = fbb.bytes();
        let ghost p6 = fbb.pending();
        fbb.push_slot_i8(VT_COLLIDER_TYPE, args.collider_type.0, 0);
        let ghost s9 = fbb.bytes();
        let ghost p7 = fbb.pending();
        let rt = fbb.end_table();
        proof {
            lemma_pending_chain(
                *args,
                p0,
                p1,
                p2,
                p3,
                p4,
                p5,
                p6,
                p7,
                s2.len() as int,
                s3.len() as int,
                s4.len() as int,
                s5.len() as int,
                s6.len() as int,
                s7.len() as int,
                s8.len() as int,
            );
            lemma_create_table(
                *args,
                msrev,
                masrev,
                s2,
                s3,
                s4,
                s5,
                s6,
                s7,
                s8,
                s9,
                fbb.bytes(),
                p7,
                mark,
                rt as int,
            );
        }
        rt
    }
}

/// Seals a built table as a complete buffer carrying the `CLDR`
/// identifier.
pub fn finish_collider_component_data_buffer(fbb: BufferBuilder, root: usize) -> (r: Vec<u8>)
    requires
        fbb.wf(),
        !fbb.in_table(),
        4 <= root <= fbb.bytes().len(),
        collider_valid(fbb.bytes(), fbb.bytes().len() - root),
    ensures
        r@.len() == fbb.bytes().len() + 8,
        ext(fbb.bytes(), r@),
        root_pos(r@) == r@.len() - root,
        collider_root_valid(r@),
        has_collider_identifier(r@),
        collider_view_at(r@, root_pos(r@)) == collider_view_at(
            fbb.bytes(),
            fbb.bytes().len() - root,
        ),
        forall|vo: int|
            4 <= vo ==> #[trigger] slot_off_rev(r@, root as int, vo) == slot_off_rev(
                fbb.bytes(),
                root as int,
                vo,
            ),
{
    let ghost ob = fbb.bytes();
    let r = fbb.finish(root, Some((IDENT_0, IDENT_1, IDENT_2, IDENT_3)));
    proof {
        lemma_ext_collider(ob, r@, root as int);
    }
    r
}

/// Seals a built table as a size-prefixed buffer carrying the `CLDR`
/// identifier.
pub fn finish_size_prefixed_collider_component_data_buffer(fbb: BufferBuilder, root: usize) -> (r:
    Vec<u8>)
    requires
        fbb.wf(),
        !fbb.in_table(),
        4 <= root <= fbb.bytes().len(),
        collider_valid(fbb.bytes(), fbb.bytes().len() - root),
    ensures
        r@.len() == fbb.bytes().len() + 12,
        ext(fbb.bytes(), r@),
        sp_root_pos(r@) == r@.len() - root,
        sp_collider_root_valid(r@),
        sp_has_collider_identifier(r@),
        collider_view_at(r@, sp_root_pos(r@)) == collider_view_at(
            fbb.bytes(),
            fbb.bytes().len() - root,
        ),
{
    let ghost ob = fbb.bytes();
    let r = fbb.finish_size_prefixed(root, Some((IDENT_0, IDENT_1, IDENT_2, IDENT_3)));
    proof {
        lemma_ext_collider(ob, r@, root as int);
    }
    r
}

/// The one-call producer path: builds a fresh buffer holding exactly
/// `args`, identifier included.
pub fn build_collider_component_data_buffer(args: &ColliderComponentDataArgs) -> (r: Vec<u8>)
    requires
        create_fits(0, *args),
    ensures
        built_matches(r@, args@),
{
    let mut b = BufferBuilder::new();
    let rt = ColliderComponentData::create(&mut b, args);
    let ghost tb = b.bytes();
    let r = finish_collider_component_data_buffer(b, rt);
    proof {
        assert(slot_off_rev(r@, rt as int, VT_COLLIDER_TYPE as int) == slot_off_rev(
            tb,
            rt as int,
            VT_COLLIDER_TYPE as int,
        ));
        assert(slot_off_rev(r@, rt as int, VT_IS_TRIGGER as int) == slot_off_rev(
            tb,
            rt as int,
            VT_IS_TRIGGER as int,
        ));
        assert(slot_off_rev(r@, rt as int, VT_SIZE as int) == slot_off_rev(
            tb,
            rt as int,
            VT_SIZE as int,
        ));
        assert(slot_off_rev(r@, rt as int, VT_RADIUS as int) == slot_off_rev(
            tb,
            rt as int,
            VT_RADIUS as int,
        ));
        assert(slot_off_rev(r@, rt as int, VT_HEIGHT as int) == slot_off_rev(
            tb,
            rt as int,
            VT_HEIGHT as int,
        ));
        assert(slot_off_rev(r@, rt as int, VT_MATERIAL_NAME as int) == slot_off_rev(
            tb,
            rt as int,
            VT_MATERIAL_NAME as int,
        ));
        assert(slot_off_rev(r@, rt as int, VT_MESH_PATH as int) == slot_off_rev(
            tb,
            rt as int,
            VT_MESH_PATH as int,
        ));
    }
    r
}

/// A buffer that `build` produced from the field assignment `v`: valid,
/// identified, reading back `v` (the float lanes losing only a negative
/// zero's sign), and with a vtable slot written if and only if the field
/// departs from its default under the wire comparison: IEEE equality for
/// the float lanes, so both zero patterns count as the default.
pub open spec fn built_matches(b: Seq<u8>, v: ColliderVals) -> bool {
    &&& collider_root_valid(b)
    &&& has_collider_identifier(b)
    &&& collider_view_at(b, root_pos(b)) == stored_vals(v)
    &&& (slot_off(b, root_pos(b), VT_COLLIDER_TYPE as int) == 0 <==> v.collider_type == 0)
    &&& (slot_off(b, root_pos(b), VT_IS_TRIGGER as int) == 0 <==> !v.is_trigger)
    &&& (slot_off(b, root_pos(b), VT_SIZE as int) == 0 <==> v.size is None)
    &&& (slot_off(b, root_pos(b), VT_RADIUS as int) == 0 <==> f32_zero_bits(v.radius))
    &&& (slot_off(b, root_pos(b), VT_HEIGHT as int) == 0 <==> f32_zero_bits(v.height))
    &&& (slot_off(b, root_pos(b), VT_MATERIAL_NAME as int) == 0 <==> v.material_name is None)
    &&& (slot_off(b, root_pos(b), VT_MESH_PATH as int) == 0 <==> v.mesh_path is None)
}


/// Incremental construction of one table, slot by slot, mirroring the
/// push operations of the kernel builder.  `new` opens the table on the
/// arena it is given; `finish` closes it and hands the arena back with
/// the table's rev coordinate.
pub struct ColliderComponentDataBuilder {
    fbb: BufferBuilder,
}

impl ColliderComponentDataBuilder {
    pub closed spec fn inner(self) -> BufferBuilder {
        self.fbb
    }

    pub fn new(fbb: BufferBuilder) -> (r: ColliderComponentDataBuilder)
        requires
            fbb.wf(),
            !fbb.in_table(),
        ensures
            r.inner().wf(),
            r.inner().in_table(),
            r.inner().bytes() == fbb.bytes(),
            r.inner().pending() == Seq::<SlotRec>::empty(),
            r.inner().mark() == fbb.bytes().len(),
    {
        let mut b = fbb;
        b.start_table();
        ColliderComponentDataBuilder { fbb: b }
    }

    /// Records the tag's wire byte (two's complement) unless it is the
    /// default `0`; any tag value is stored faithfully, values outside
    /// the declared variants included.
    pub fn add_collider_type(&mut self, collider_type: ColliderType)
        requires
            old(self).inner().wf(),
            old(self).inner().in_table(),
            !has_vo(old(self).inner().pending(), VT_COLLIDER_TYPE as int),
            old(self).inner().bytes().len() + 1 <= MAX_BUFFER_BYTES,
            old(self).inner().bytes().len() + 5 - old(self).inner().mark() <= MAX_TABLE_BYTES,
        ensures
            final(self).inner().wf(),
            final(self).inner().in_table(),
            final(self).inner().mark() == old(self).inner().mark(),
            ext(old(self).inner().bytes(), final(self).inner().bytes()),
            collider_type.0 == 0 ==> final(self).inner().bytes() == old(self).inner().bytes()
                && final(self).inner().pending() == old(self).inner().pending(),
            collider_type.0 != 0 ==> {
                &&& final(self).inner().bytes().len() == old(self).inner().bytes().len() + 1
                &&& byte_at_rev(
                    final(self).inner().bytes(),
                    old(self).inner().bytes().len() + 1int,
                ) == byte_of_i8(collider_type.0)
                &&& final(self).inner().pending() == old(self).inner().pending().push(
                    (SlotRec {
                        vo: VT_COLLIDER_TYPE,
                        rev: (old(self).inner().bytes().len() + 1) as usize,
                    }),
                )
                &&& has_vo(final(self).inner().pending(), VT_COLLIDER_TYPE as int)
            },
            forall|w: int|
                w != VT_COLLIDER_TYPE ==> #[trigger] has_vo(final(self).inner().pending(), w)
                    == has_vo(old(self).inner().pending(), w),
    {
        self.fbb.push_slot_i8(VT_COLLIDER_TYPE, collider_type.0, 0)
    }

    /// Records the flag's wire byte unless it is the default `false`.
    pub fn add_is_trigger(&mut self, is_trigger: bool)
        requires
            old(self).inner().wf(),
            old(self).inner().in_table(),
            !has_vo(old(self).inner().pending(), VT_IS_TRIGGER as int),
            old(self).inner().bytes().len() + 1 <= MAX_BUFFER_BYTES,
            old(self).inner().bytes().len() + 5 - old(self).inner().mark() <= MAX_TABLE_BYTES,
        ensures
            final(self).inner().wf(),
            final(self).inner().in_table(),
            final(self).inner().mark() == old(self).inner().mark(),
            ext(old(self).inner().bytes(), final(self).inner().bytes()),
            !is_trigger ==> final(self).inner().bytes() == old(self).inner().bytes()
                && final(self).inner().pending() == old(self).inner().pending(),
            is_trigger ==> {
                &&& final(self).inner().bytes().len() == old(self).inner().bytes().len() + 1
                &&& byte_at_rev(
                    final(self).inner().bytes(),
                    old(self).inner().bytes().len() + 1int,
                ) == bool_byte(true)
                &&& final(self).inner().pending() == old(self).inner().pending().push(
                    (SlotRec {
                        vo: VT_IS_TRIGGER,
                        rev: (old(self).inner().bytes().len() + 1) as usize,
                    }),
                )
                &&& has_vo(final(self).inner().pending(), VT_IS_TRIGGER as int)
            },
            forall|w: int|
                w != VT_IS_TRIGGER ==> #[trigger] has_vo(final(self).inner().pending(), w)
                    == has_vo(old(self).inner().pending(), w),
    {
        self.fbb.push_slot_bool(VT_IS_TRIGGER, is_trigger, false)
    }

    /// Writes the 3-vector inline, always (a nested struct value has no
    /// meaningful default): twelve bytes, the x, y, z bit patterns in
    /// little-endian order.
    pub fn add_size(&mut self, size: &Vec3)
        requires
            old(self).inner().wf(),
            old(self).inner().in_table(),
            !has_vo(old(self).inner().pending(), VT_SIZE as int),
            old(self).inner().bytes().len() + 12 <= MAX_BUFFER_BYTES,
            old(self).inner().bytes().len() + 16 - old(self).inner().mark() <= MAX_TABLE_BYTES,
        ensures
            final(self).inner().wf(),
            final(self).inner().in_table(),
            final(self).inner().mark() == old(self).inner().mark(),
            ext(old(self).inner().bytes(), final(self).inner().bytes()),
            final(self).inner().bytes().len() == old(self).inner().bytes().len() + 12,
            le32_at_rev(final(self).inner().bytes(), old(self).inner().bytes().len() + 12int)
                == size.x,
            le32_at_rev(final(self).inner().bytes(), old(self).inner().bytes().len() + 8int)
                == size.y,
            le32_at_rev(final(self).inner().bytes(), old(self).inner().bytes().len() + 4int)
                == size.z,
            final(self).inner().pending() == old(self).inner().pending().push(
                (SlotRec { vo: VT_SIZE, rev: (old(self).inner().bytes().len() + 12) as usize }),
            ),
            has_vo(final(self).inner().pending(), VT_SIZE as int),
            forall|w: int|
                w != VT_SIZE ==> #[trigger] has_vo(final(self).inner().pending(), w) == has_vo(
                    old(self).inner().pending(),
                    w,
                ),
    {
        let ghost ob = self.fbb.bytes();
        let mut sdata: Vec<u8> = Vec::new();
        push_u32(&mut sdata, size.x);
        let ghost d1 = sdata@;
        push_u32(&mut sdata, size.y);
        let ghost d2 = sdata@;
        push_u32(&mut sdata, size.z);
        proof {
            lemma_le32_prefix(d1, d2, 0);
            lemma_le32_prefix(d2, sdata@, 0);
            lemma_le32_prefix(d2, sdata@, 4);
        }
        self.fbb.push_slot_always_bytes(VT_SIZE, &sdata);
        proof {
            lemma_front_le32(sdata@, ob, 0);
            lemma_front_le32(sdata@, ob, 4);
            lemma_front_le32(sdata@, ob, 8);
        }
    }

    /// Records the radius's IEEE-754 bit pattern unless the value
    /// compares IEEE-equal to the default 0.0 (either zero pattern).
    pub fn add_radius(&mut self, radius: u32)
        requires
            old(self).inner().wf(),
            old(self).inner().in_table(),
            !has_vo(old(self).inner().pending(), VT_RADIUS as int),
            old(self).inner().bytes().len() + 4 <= MAX_BUFFER_BYTES,
            old(self).inner().bytes().len() + 8 - old(self).inner().mark() <= MAX_TABLE_BYTES,
        ensures
            final(self).inner().wf(),
            final(self).inner().in_table(),
            final(self).inner().mark() == old(self).inner().mark(),
            ext(old(self).inner().bytes(), final(self).inner().bytes()),
            f32_zero_bits(radius) ==> final(self).inner().bytes() == old(self).inner().bytes()
                && final(self).inner().pending() == old(self).inner().pending(),
            !f32_zero_bits(radius) ==> {
                &&& final(self).inner().bytes().len() == old(self).inner().bytes().len() + 4
                &&& le32_at_rev(
                    final(self).inner().bytes(),
                    old(self).inner().bytes().len() + 4int,
                ) == radius
                &&& final(self).inner().pending() == old(self).inner().pending().push(
                    (SlotRec {
                        vo: VT_RADIUS,
                        rev: (old(self).inner().bytes().len() + 4) as usize,
                    }),
                )
                &&& has_vo(final(self).inner().pending(), VT_RADIUS as int)
            },
            forall|w: int|
                w != VT_RADIUS ==> #[trigger] has_vo(final(self).inner().pending(), w) == has_vo(
                    old(self).inner().pending(),
                    w,
                ),
    {
        self.fbb.push_slot_f32(VT_RADIUS, radius)
    }

    /// Records the height's IEEE-754 bit pattern unless the value
    /// compares IEEE-equal to the default 0.0 (either zero pattern).
    pub fn add_height(&mut self, height: u32)
        requires
            old(self).inner().wf(),
            old(self).inner().in_table(),
            !has_vo(old(self).inner().pending(), VT_HEIGHT as int),
            old(self).inner().bytes().len() + 4 <= MAX_BUFFER_BYTES,
            old(self).inner().bytes().len() + 8 - old(self).inner().mark() <= MAX_TABLE_BYTES,
        ensures
            final(self).inner().wf(),
            final(self).inner().in_table(),
            final(self).inner().mark() == old(self).inner().mark(),
            ext(old(self).inner().bytes(), final(self).inner().bytes()),
            f32_zero_bits(height) ==> final(self).inner().bytes() == old(self).inner().bytes()
                && final(self).inner().pending() == old(self).inner().pending(),
            !f32_zero_bits(height) ==> {
                &&& final(self).inner().bytes().len() == old(self).inner().bytes().len() + 4
                &&& le32_at_rev(
                    final(self).inner().bytes(),
                    old(self).inner().bytes().len() + 4int,
                ) == height
                &&& final(self).inner().pending() == old(self).inner().pending().push(
                    (SlotRec {
                        vo: VT_HEIGHT,
                        rev: (old(self).inner().bytes().len() + 4) as usize,
                    }),
                )
                &&& has_vo(final(self).inner().pending(), VT_HEIGHT as int)
            },
            forall|w: int|
                w != VT_HEIGHT ==> #[trigger] has_vo(final(self).inner().pending(), w) == has_vo(
                    old(self).inner().pending(),
                    w,
                ),
    {
        self.fbb.push_slot_f32(VT_HEIGHT, height)
    }

    /// Writes the offset field, always: the stored 32-bit forward offset
    /// resolves to the object at rev coordinate `material_name` (a
    /// string already written with `create_string`).
    pub fn add_material_name(&mut self, material_name: usize)
        requires
            old(self).inner().wf(),
            old(self).inner().in_table(),
            !has_vo(old(self).inner().pending(), VT_MATERIAL_NAME as int),
            material_name <= old(self).inner().bytes().len(),
            old(self).inner().bytes().len() + 4 <= MAX_BUFFER_BYTES,
            old(self).inner().bytes().len() + 8 - old(self).inner().mark() <= MAX_TABLE_BYTES,
        ensures
            final(self).inner().wf(),
            final(self).inner().in_table(),
            final(self).inner().mark() == old(self).inner().mark(),
            ext(old(self).inner().bytes(), final(self).inner().bytes()),
            final(self).inner().bytes().len() == old(self).inner().bytes().len() + 4,
            le32_at_rev(final(self).inner().bytes(), old(self).inner().bytes().len() + 4int)
                == old(self).inner().bytes().len() + 4 - material_name,
            final(self).inner().pending() == old(self).inner().pending().push(
                (SlotRec {
                    vo: VT_MATERIAL_NAME,
                    rev: (old(self).inner().bytes().len() + 4) as usize,
                }),
            ),
            has_vo(final(self).inner().pending(), VT_MATERIAL_NAME as int),
            forall|w: int|
                w != VT_MATERIAL_NAME ==> #[trigger] has_vo(final(self).inner().pending(), w)
                    == has_vo(old(self).inner().pending(), w),
    {
        self.fbb.push_slot_ref(VT_MATERIAL_NAME, material_name)
    }

    /// Writes the offset field, always: the stored 32-bit forward offset
    /// resolves to the object at rev coordinate `mesh_path` (a string
    /// already written with `create_string`).
    pub fn add_mesh_path(&mut self, mesh_path: usize)
        requires
            old(self).inner().wf(),
            old(self).inner().in_table(),
            !has_vo(old(self).inner().pending(), VT_MESH_PATH as int),
            mesh_path <= old(self).inner().bytes().len(),
            old(self).inner().bytes().len() + 4 <= MAX_BUFFER_BYTES,
            old(self).inner().bytes().len() + 8 - old(self).inner().mark() <= MAX_TABLE_BYTES,
        ensures
            final(self).inner().wf(),
            final(self).inner().in_table(),
            final(self).inner().mark() == old(self).inner().mark(),
            ext(old(self).inner().bytes(), final(self).inner().bytes()),
            final(self).inner().bytes().len() == old(self).inner().bytes().len() + 4,
            le32_at_rev(final(self).inner().bytes(), old(self).inner().bytes().len() + 4int)
                == old(self).inner().bytes().len() + 4 - mesh_path,
            final(self).inner().pending() == old(self).inner().pending().push(
                (SlotRec { vo: VT_MESH_PATH, rev: (old(self).inner().bytes().len() + 4) as usize }),
            ),
            has_vo(final(self).inner().pending(), VT_MESH_PATH as int),
            forall|w: int|
                w != VT_MESH_PATH ==> #[trigger] has_vo(final(self).inner().pending(), w)
                    == has_vo(old(self).inner().pending(), w),
    {
        self.fbb.push_slot_ref(VT_MESH_PATH, mesh_path)
    }

    /// Closes the table and returns the arena with the table's rev
    /// coordinate: every recorded slot's vtable entry points at its
    /// recorded bytes, every unrecorded slot reads absent, and the arena
    /// grew by at most one vtable and the table's vtable pointer.
    pub fn finish(self) -> (r: (BufferBuilder, usize))
        requires
            self.inner().wf(),
            self.inner().in_table(),
            self.inner().bytes().len() + MAX_TABLE_BYTES + 8 <= MAX_BUFFER_BYTES,
        ensures
            r.0.wf(),
            !r.0.in_table(),
            ext(self.inner().bytes(), r.0.bytes()),
            r.1 == self.inner().bytes().len() + 4,
            4 <= r.1 <= r.0.bytes().len(),
            r.0.bytes().len() <= self.inner().bytes().len() + MAX_SLOT_VOFFSET + 6,
            r.0.bytes().len() <= MAX_BUFFER_BYTES,
            table_ok_rev(r.0.bytes(), r.1 as int),
            tbl_len_rev(r.0.bytes(), r.1 as int) == r.1 - self.inner().mark(),
            forall|vo: int|
                4 <= vo && vo % 2 == 0 ==> #[trigger] slot_off_rev(r.0.bytes(), r.1 as int, vo)
                    == slot_entry(self.inner().pending(), r.1 as int, vo),
    {
        let mut b = self.fbb;
        let rt = b.end_table();
        (b, rt)
    }
}

// ----- entry points over whole buffers -----

/// What verifying a whole buffer returns, as a function of the bytes.
pub open spec fn root_verify_spec(b: Seq<u8>) -> Result<(), VerifyError> {
    if b.len() < 4 {
        Err(VerifyError::OffsetOutOfBounds)
    } else {
        run_verifier_spec(b, root_pos(b))
    }
}

pub open spec fn sp_root_verify_spec(b: Seq<u8>) -> Result<(), VerifyError> {
    if !sp_header_ok(b) {
        Err(VerifyError::OffsetOutOfBounds)
    } else {
        run_verifier_spec(b, sp_root_pos(b))
    }
}

/// Verifies that `buf` contains a collider-component table and returns
/// a typed view of it.
pub fn root_as_collider_component_data<'a>(buf: &'a Vec<u8>) -> (r: Result<
    ColliderComponentData<'a>,
    VerifyError,
>)
    ensures
        r is Ok <==> collider_root_valid(buf@),
        r matches Ok(v) ==> v.wf() && v.sbuf() == buf@ && v.spos() == root_pos(buf@),
        r matches Err(e) ==> root_verify_spec(buf@) == Err::<(), VerifyError>(e),
{
    let n = buf.len();
    if n < 4 {
        return Err(VerifyError::OffsetOutOfBounds);
    }
    let t = read_u32(buf, 0);
    proof {
        lemma_le32_bounds(buf@, 0);
    }
    let t64 = t as u64;
    if t64 > n as u64 {
        proof {
            assert(!table_ok(buf@, t as int));
            lemma_run_verifier_spec(buf@, t as int);
        }
        return Err(VerifyError::OffsetOutOfBounds);
    }
    let pos = t as usize;
    match run_verifier(buf, pos) {
        Ok(()) => Ok(ColliderComponentData { buf, pos }),
        Err(e) => Err(e),
    }
}

/// Verifies a size-prefixed buffer and returns a typed view.
pub fn size_prefixed_root_as_collider_component_data<'a>(buf: &'a Vec<u8>) -> (r: Result<
    ColliderComponentData<'a>,
    VerifyError,
>)
    ensures
        r is Ok <==> sp_collider_root_valid(buf@),
        r matches Ok(v) ==> v.wf() && v.sbuf() == buf@ && v.spos() == sp_root_pos(buf@),
        r matches Err(e) ==> sp_root_verify_spec(buf@) == Err::<(), VerifyError>(e),
{
    let n = buf.len();
    if n < 8 {
        return Err(VerifyError::OffsetOutOfBounds);
    }
    let sz = read_u32(buf, 0);
    if sz as u64 != n as u64 - 4 {
        return Err(VerifyError::OffsetOutOfBounds);
    }
    let off = read_u32(buf, 4);
    proof {
        lemma_le32_bounds(buf@, 4);
    }
    if off as u64 > n as u64 - 4 {
        proof {
            assert(!table_ok(buf@, sp_root_pos(buf@)));
            lemma_run_verifier_spec(buf@, sp_root_pos(buf@));
        }
        return Err(VerifyError::OffsetOutOfBounds);
    }
    let pos = 4 + off as usize;
    match run_verifier(buf, pos) {
        Ok(()) => Ok(ColliderComponentData { buf, pos }),
        Err(e) => Err(e),
    }
}

/// The trusted-input fast path: returns the root view without running
/// any check.  The caller must already hold the validity proof — from a
/// prior verification of the same bytes, or from having built the buffer
/// here — so, unlike an unchecked cast, this cannot be misused on
/// unverified input.
pub fn root_as_collider_component_data_unchecked<'a>(buf: &'a Vec<u8>) -> (r:
    ColliderComponentData<'a>)
    requires
        collider_root_valid(buf@),
    ensures
        r.wf(),
        r.sbuf() == buf@,
        r.spos() == root_pos(buf@),
{
    let pos = read_u32(buf, 0) as usize;
    ColliderComponentData { buf, pos }
}

/// The size-prefixed trusted-input fast path; same contract shape as
/// the plain one.
pub fn size_prefixed_root_as_collider_component_data_unchecked<'a>(buf: &'a Vec<u8>) -> (r:
    ColliderComponentData<'a>)
    requires
        sp_collider_root_valid(buf@),
    ensures
        r.wf(),
        r.sbuf() == buf@,
        r.spos() == sp_root_pos(buf@),
{
    let pos = 4 + read_u32(buf, 4) as usize;
    ColliderComponentData { buf, pos }
}

/// Verifies the claimed table at `pos` (not necessarily the root) and
/// returns a typed view of it; a buffer may hold several tables.
pub fn collider_component_data_at<'a>(buf: &'a Vec<u8>, pos: usize) -> (r: Result<
    ColliderComponentData<'a>,
    VerifyError,
>)
    ensures
        r is Ok <==> collider_valid(buf@, pos as int),
        r matches Ok(v) ==> v.wf() && v.sbuf() == buf@ && v.spos() == pos,
        r matches Err(e) ==> run_verifier_spec(buf@, pos as int) == Err::<(), VerifyError>(e),
{
    match run_verifier(buf, pos) {
        Ok(()) => Ok(ColliderComponentData { buf, pos }),
        Err(e) => Err(e),
    }
}

/// Whether the buffer carries the `CLDR` identifier right after the
/// root offset.
pub fn collider_component_data_buffer_has_identifier(buf: &Vec<u8>) -> (r: bool)
    ensures
        r == has_collider_identifier(buf@),
{
    let n = buf.len();
    if n < 8 {
        return false;
    }
    let b0 = read_u8(buf, 4);
    let b1 = read_u8(buf, 5);
    let b2 = read_u8(buf, 6);
    let b3 = read_u8(buf, 7);
    b0 == IDENT_0 && b1 == IDENT_1 && b2 == IDENT_2 && b3 == IDENT_3
}

/// Whether a size-prefixed buffer carries the `CLDR` identifier.
pub fn collider_component_data_size_prefixed_buffer_has_identifier(buf: &Vec<u8>) -> (r: bool)
    ensures
        r == sp_has_collider_identifier(buf@),
{
    let n = buf.len();
    if n < 12 {
        return false;
    }
    let b0 = read_u8(buf, 8);
    let b1 = read_u8(buf, 9);
    let b2 = read_u8(buf, 10);
    let b3 = read_u8(buf, 11);
    b0 == IDENT_0 && b1 == IDENT_1 && b2 == IDENT_2 && b3 == IDENT_3
}

} // verus!
