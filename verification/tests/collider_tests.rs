use flattable::builder::BufferBuilder;
use flattable::checks::VerifyError;
use flattable::collider::{
    build_collider_component_data_buffer, collider_component_data_at,
    collider_component_data_buffer_has_identifier,
    collider_component_data_size_prefixed_buffer_has_identifier,
    finish_collider_component_data_buffer, finish_size_prefixed_collider_component_data_buffer,
    root_as_collider_component_data, root_as_collider_component_data_unchecked, run_verifier,
    size_prefixed_root_as_collider_component_data, ColliderComponentData,
    ColliderComponentDataArgs, ColliderType, Vec3, VT_RADIUS,
};
use flattable::bytes::read_u32;
use flattable::collider::ColliderComponentDataBuilder;
use flattable::reader::get_slot_off;

fn sphere_args() -> ColliderComponentDataArgs {
    ColliderComponentDataArgs {
        collider_type: ColliderType(1),
        is_trigger: true,
        size: None,
        radius: 2.5f32.to_bits(),
        height: 0.0f32.to_bits(),
        material_name: Some(b"rubber".to_vec()),
        mesh_path: None,
    }
}

#[test]
fn variant_name_known_and_unknown() {
    assert_eq!(ColliderType(0).variant_name(), Some("Box"));
    assert_eq!(ColliderType(1).variant_name(), Some("Sphere"));
    assert_eq!(ColliderType(2).variant_name(), Some("Capsule"));
    assert_eq!(ColliderType(3).variant_name(), Some("Mesh"));
    assert_eq!(ColliderType(4).variant_name(), None);
    assert_eq!(ColliderType(-1).variant_name(), None);
    assert_eq!(ColliderType::default(), ColliderType(0));
}

#[test]
fn sphere_scenario_reads_back_exactly() {
    let buf = build_collider_component_data_buffer(&sphere_args());
    assert!(collider_component_data_buffer_has_identifier(&buf));
    let view = root_as_collider_component_data(&buf).unwrap();
    assert_eq!(view.collider_type(), ColliderType(1));
    assert_eq!(view.collider_type().variant_name(), Some("Sphere"));
    assert!(view.is_trigger());
    assert_eq!(f32::from_bits(view.radius()), 2.5);
    assert_eq!(f32::from_bits(view.height()), 0.0);
    assert_eq!(view.material_name(), Some(b"rubber".to_vec()));
    assert_eq!(view.mesh_path(), None);
    assert_eq!(view.size(), None);
}

#[test]
fn full_round_trip_all_fields() {
    let args = ColliderComponentDataArgs {
        collider_type: ColliderType(3),
        is_trigger: true,
        size: Some(Vec3 { x: 1.0f32.to_bits(), y: 2.0f32.to_bits(), z: 0.5f32.to_bits() }),
        radius: 7.25f32.to_bits(),
        height: 3.5f32.to_bits(),
        material_name: Some(b"steel".to_vec()),
        mesh_path: Some(b"meshes/crate.obj".to_vec()),
    };
    let buf = build_collider_component_data_buffer(&args);
    let view = root_as_collider_component_data(&buf).unwrap();
    assert_eq!(view.collider_type(), ColliderType(3));
    assert!(view.is_trigger());
    let size = view.size().unwrap();
    assert_eq!(f32::from_bits(size.x), 1.0);
    assert_eq!(f32::from_bits(size.y), 2.0);
    assert_eq!(f32::from_bits(size.z), 0.5);
    assert_eq!(f32::from_bits(view.radius()), 7.25);
    assert_eq!(f32::from_bits(view.height()), 3.5);
    assert_eq!(view.material_name(), Some(b"steel".to_vec()));
    assert_eq!(view.mesh_path(), Some(b"meshes/crate.obj".to_vec()));
}

#[test]
fn all_defaults_read_back_as_defaults() {
    let buf = build_collider_component_data_buffer(&ColliderComponentDataArgs::default());
    let view = root_as_collider_component_data(&buf).unwrap();
    assert_eq!(view.collider_type(), ColliderType(0));
    assert!(!view.is_trigger());
    assert_eq!(view.size(), None);
    assert_eq!(view.radius(), 0);
    assert_eq!(view.height(), 0);
    assert_eq!(view.material_name(), None);
    assert_eq!(view.mesh_path(), None);
}

#[test]
fn default_scalar_slot_is_omitted_from_vtable() {
    // height stays at its default in the sphere scenario: its vtable
    // slot must read 0 (absent), and the field must still read 0.0.
    let buf = build_collider_component_data_buffer(&sphere_args());
    let root = read_u32(&buf, 0) as usize;
    assert_eq!(get_slot_off(&buf, root, 12), 0); // height slot absent
    assert_ne!(get_slot_off(&buf, root, 10), 0); // radius slot present
    let view = root_as_collider_component_data(&buf).unwrap();
    assert_eq!(f32::from_bits(view.height()), 0.0);
}

#[test]
fn verification_is_idempotent() {
    let buf = build_collider_component_data_buffer(&sphere_args());
    let first = root_as_collider_component_data(&buf).unwrap();
    let again = root_as_collider_component_data(&buf).unwrap();
    assert_eq!(first.collider_type(), again.collider_type());
    assert_eq!(first.is_trigger(), again.is_trigger());
    assert_eq!(first.radius(), again.radius());
    assert_eq!(first.material_name(), again.material_name());
    let r1 = run_verifier(&buf, read_u32(&buf, 0) as usize);
    let r2 = run_verifier(&buf, read_u32(&buf, 0) as usize);
    assert_eq!(r1, r2);
    assert_eq!(r1, Ok(()));
}

#[test]
fn every_truncation_is_rejected() {
    let args = ColliderComponentDataArgs {
        collider_type: ColliderType(2),
        is_trigger: false,
        size: None,
        radius: 1.0f32.to_bits(),
        height: 4.0f32.to_bits(),
        material_name: Some(b"wood".to_vec()),
        mesh_path: Some(b"m.obj".to_vec()),
    };
    let buf = build_collider_component_data_buffer(&args);
    assert!(root_as_collider_component_data(&buf).is_ok());
    for k in 0..buf.len() {
        let cut: Vec<u8> = buf[..k].to_vec();
        assert!(
            root_as_collider_component_data(&cut).is_err(),
            "truncation at {} was accepted",
            k
        );
    }
}

#[test]
fn unknown_trailing_vtable_slot_is_tolerated() {
    // simulate a newer schema: one extra slot past the ones we know
    let mut b = BufferBuilder::new();
    b.start_table();
    b.push_slot_u32(VT_RADIUS, 9.5f32.to_bits(), 0);
    b.push_slot_u8(18, 7, 0); // a slot this schema does not declare
    let rt = b.end_table();
    let buf = finish_collider_component_data_buffer(b, rt);
    let view = root_as_collider_component_data(&buf).unwrap();
    assert_eq!(f32::from_bits(view.radius()), 9.5);
    assert_eq!(view.collider_type(), ColliderType(0));
    assert_eq!(view.material_name(), None);
}

#[test]
fn identical_presence_patterns_share_one_vtable() {
    // two tables, same present slots (radius only), different values
    let mut b = BufferBuilder::new();
    b.start_table();
    b.push_slot_u32(VT_RADIUS, 1.5f32.to_bits(), 0);
    let rt1 = b.end_table();
    b.start_table();
    b.push_slot_u32(VT_RADIUS, 8.0f32.to_bits(), 0);
    let rt2 = b.end_table();
    let buf = finish_collider_component_data_buffer(b, rt2);
    // layout: 8 head + (12 vtable + 8 table) + 8 table reusing the vtable
    assert_eq!(buf.len(), 36, "the second table did not reuse the vtable");
    let pos1 = buf.len() - rt1;
    let pos2 = buf.len() - rt2;
    let t1 = collider_component_data_at(&buf, pos1).unwrap();
    let t2 = collider_component_data_at(&buf, pos2).unwrap();
    assert_eq!(f32::from_bits(t1.radius()), 1.5);
    assert_eq!(f32::from_bits(t2.radius()), 8.0);
    let root = root_as_collider_component_data(&buf).unwrap();
    assert_eq!(f32::from_bits(root.radius()), 8.0);
}

#[test]
fn size_prefixed_round_trip() {
    let mut b = BufferBuilder::new();
    let rt = ColliderComponentData::create(&mut b, &sphere_args());
    let buf = finish_size_prefixed_collider_component_data_buffer(b, rt);
    assert!(collider_component_data_size_prefixed_buffer_has_identifier(&buf));
    assert!(!collider_component_data_buffer_has_identifier(&buf));
    let view = size_prefixed_root_as_collider_component_data(&buf).unwrap();
    assert_eq!(view.collider_type(), ColliderType(1));
    assert_eq!(f32::from_bits(view.radius()), 2.5);
    assert_eq!(view.material_name(), Some(b"rubber".to_vec()));
    // the prefix counts every byte after itself
    assert_eq!(read_u32(&buf, 0) as usize, buf.len() - 4);
}

#[test]
fn malformed_vtable_is_reported() {
    // root offset 4; the "table" at 4 points at itself as vtable, whose
    // claimed length 0 is impossible
    let buf: Vec<u8> = vec![4, 0, 0, 0, 0, 0, 0, 0];
    assert_eq!(
        root_as_collider_component_data(&buf).err(),
        Some(VerifyError::VtableMalformed)
    );
}

#[test]
fn missing_nul_terminator_is_reported() {
    let args = ColliderComponentDataArgs {
        material_name: Some(b"ab".to_vec()),
        ..Default::default()
    };
    let mut buf = build_collider_component_data_buffer(&args);
    assert!(root_as_collider_component_data(&buf).is_ok());
    // the material string sits at the end of the arena; clobber its NUL
    let last = buf.len() - 1;
    assert_eq!(buf[last], 0);
    buf[last] = 1;
    assert_eq!(
        root_as_collider_component_data(&buf).err(),
        Some(VerifyError::MissingNulTerminator)
    );
}

#[test]
fn out_of_bounds_offsets_are_reported() {
    let empty: Vec<u8> = Vec::new();
    assert_eq!(
        root_as_collider_component_data(&empty).err(),
        Some(VerifyError::OffsetOutOfBounds)
    );
    // root offset way past the end
    let buf: Vec<u8> = vec![200, 0, 0, 0, 0, 0, 0, 0];
    assert_eq!(
        root_as_collider_component_data(&buf).err(),
        Some(VerifyError::OffsetOutOfBounds)
    );
}

#[test]
fn missing_identifier_is_visible() {
    let mut b = BufferBuilder::new();
    let rt = ColliderComponentData::create(&mut b, &ColliderComponentDataArgs::default());
    let buf = b.finish(rt, None);
    assert!(!collider_component_data_buffer_has_identifier(&buf));
    // verification does not require the identifier
    assert!(root_as_collider_component_data(&buf).is_ok());
}

#[test]
fn slot_by_slot_builder_matches_one_shot_build() {
    let mut arena = BufferBuilder::new();
    let mat = arena.create_string(&b"rubber".to_vec());
    let mut tb = ColliderComponentDataBuilder::new(arena);
    tb.add_collider_type(ColliderType(1));
    tb.add_is_trigger(true);
    tb.add_radius(2.5f32.to_bits());
    tb.add_height(0.0f32.to_bits());
    tb.add_material_name(mat);
    let (arena, rt) = tb.finish();
    let buf = finish_collider_component_data_buffer(arena, rt);
    let view = root_as_collider_component_data(&buf).unwrap();
    assert_eq!(view.collider_type(), ColliderType(1));
    assert!(view.is_trigger());
    assert_eq!(f32::from_bits(view.radius()), 2.5);
    assert_eq!(view.height(), 0);
    assert_eq!(view.material_name(), Some(b"rubber".to_vec()));
    assert_eq!(view.mesh_path(), None);
}

#[test]
fn negative_zero_float_is_omitted_like_the_default() {
    // -0.0 compares IEEE-equal to the default 0.0, so the slot is
    // omitted and the field reads back as positive zero.
    let args = ColliderComponentDataArgs {
        radius: (-0.0f32).to_bits(),
        height: (-0.0f32).to_bits(),
        ..Default::default()
    };
    assert_eq!(args.radius, 0x8000_0000);
    let buf = build_collider_component_data_buffer(&args);
    let root = read_u32(&buf, 0) as usize;
    assert_eq!(get_slot_off(&buf, root, 10), 0); // radius slot absent
    assert_eq!(get_slot_off(&buf, root, 12), 0); // height slot absent
    let view = root_as_collider_component_data(&buf).unwrap();
    assert_eq!(view.radius(), 0);
    assert_eq!(f32::from_bits(view.height()), 0.0);
    // a NaN pattern is not the default and must be stored
    let nan_args = ColliderComponentDataArgs { radius: f32::NAN.to_bits(), ..Default::default() };
    let nan_buf = build_collider_component_data_buffer(&nan_args);
    let nan_view = root_as_collider_component_data(&nan_buf).unwrap();
    assert!(f32::from_bits(nan_view.radius()).is_nan());
}

#[test]
fn unchecked_view_after_verification_sees_the_same_values() {
    let buf = build_collider_component_data_buffer(&sphere_args());
    let checked = root_as_collider_component_data(&buf).unwrap();
    let fast = root_as_collider_component_data_unchecked(&buf);
    assert_eq!(checked.collider_type(), fast.collider_type());
    assert_eq!(checked.is_trigger(), fast.is_trigger());
    assert_eq!(checked.radius(), fast.radius());
    assert_eq!(checked.material_name(), fast.material_name());
}
