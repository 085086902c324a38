//! Meshes of elements of the user interface.

use def_compiler::lower::mesh::{DefIndex, MeshRef};

/// Serialize a MeshRef, then parse it back under `tag` (the sibling Type).
fn round_trip_tagged(mr: MeshRef, tag: i32) -> MeshRef {
    let mut buf: Vec<u8> = Vec::new();
    mr.serialize(&mut buf);
    assert_eq!(buf.len(), 4);
    assert_eq!(mr.wire_size(), buf.len());
    MeshRef::parse_tagged(&buf, tag).unwrap()
}

#[test]
fn meshref_variant_is_chosen_by_type_tag() {
    // Asset-backed types (UI_TYPE_MESH=3, UI_TYPE_MOUSE_POINTER=32) => Bank.
    assert!(!MeshRef::type_is_def_ref(3));
    assert!(!MeshRef::type_is_def_ref(32));
    // Container types (UI_TYPE_LIST=8, UI_TYPE_SCROLLING_VIEWPORT=13) => Def.
    assert!(MeshRef::type_is_def_ref(8));
    assert!(MeshRef::type_is_def_ref(13));

    assert_eq!(MeshRef::from_index(3, 8033), MeshRef::Bank(8033));
    assert_eq!(MeshRef::from_index(8, 500), MeshRef::Def(DefIndex(500)));

    // Round-trips preserve the variant: the wire is a plain i32, but re-parsing
    // under the same Type tag reconstructs Bank vs Def.
    assert_eq!(
        round_trip_tagged(MeshRef::Bank(8033), 3),
        MeshRef::Bank(8033)
    );
    assert_eq!(
        round_trip_tagged(MeshRef::Def(DefIndex(500)), 8),
        MeshRef::Def(DefIndex(500))
    );
    // Same bytes, different tag => different variant (proves it's tag-driven).
    assert_eq!(
        round_trip_tagged(MeshRef::Bank(500), 8),
        MeshRef::Def(DefIndex(500))
    );
}

#[test]
fn a_mesh_needs_four_bytes() {
    assert_eq!(MeshRef::parse_tagged(&[1, 2, 3], 3), None);
    assert_eq!(
        MeshRef::parse_tagged(&[1, 2, 0, 0], 3),
        Some(MeshRef::Bank(513))
    );
    assert_eq!(MeshRef::Def(DefIndex(-1)).raw(), -1);
    assert_eq!(MeshRef::Bank(u32::MAX).raw(), -1);
}
