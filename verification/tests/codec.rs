use mrea_patch::bytes::BinaryView;
use mrea_patch::cmdl::CmdlMaterial;
use mrea_patch::cmdl::CmdlMaterialSet;
use mrea_patch::cmdl::Cmdl;
use mrea_patch::cmdl::CmdlUvAnimation;
use mrea_patch::collision::AreaCollision;
use mrea_patch::errors::FormatError;
use mrea_patch::mrea::Lights;
use mrea_patch::mrea::Mrea;
use mrea_patch::mrea::sections_to_bytes;
use mrea_patch::mrea::MreaSection;
use mrea_patch::scly::Scly;
use mrea_patch::scly_props::debris::Debris;

fn be32(out: &mut Vec<u8>, x: u32) {
    out.extend_from_slice(&x.to_be_bytes());
}

fn be16(out: &mut Vec<u8>, x: u16) {
    out.extend_from_slice(&x.to_be_bytes());
}

fn pad32(out: &mut Vec<u8>) {
    while out.len() % 32 != 0 {
        out.push(0);
    }
}

/// A minimal but fully valid collision section: three vertices, three
/// edges, one triangle.
fn collision_bytes(winding_flag_set: bool) -> Vec<u8> {
    let mut body = Vec::new();
    // index data
    be32(&mut body, 1); // collision material count
    be32(
        &mut body,
        if winding_flag_set { 0x0200_0000 } else { 0 },
    );
    be32(&mut body, 0); // vertex material indices
    be32(&mut body, 0); // edge material indices
    be32(&mut body, 1); // tri material indices
    body.push(0);
    be32(&mut body, 3); // edge count
    for (a, b) in [(0u16, 1u16), (1, 2), (2, 0)] {
        be16(&mut body, a);
        be16(&mut body, b);
    }
    be32(&mut body, 3); // tri count: three u16 indices = one triangle
    for e in [0u16, 1, 2] {
        be16(&mut body, e);
    }
    be32(&mut body, 3); // vert count
    for _ in 0..9 {
        be32(&mut body, 0x3F80_0000); // 1.0f bit pattern
    }

    let mut inner = Vec::new();
    be32(&mut inner, 0xDEAF_BABE);
    be32(&mut inner, 3);
    for _ in 0..6 {
        be32(&mut inner, 0); // aabb
    }
    be32(&mut inner, 0); // root node type
    be32(&mut inner, 0); // octree size
    inner.extend_from_slice(&body);

    let mut out = Vec::new();
    be32(&mut out, 0x0100_0000);
    be32(&mut out, inner.len() as u32);
    out.extend_from_slice(&inner);
    out
}

/// A minimal geometry material set: no texture ids, no materials.
fn material_set_bytes() -> Vec<u8> {
    let mut out = Vec::new();
    be32(&mut out, 0); // texture count
    be32(&mut out, 0); // material count
    out
}

fn lights_bytes() -> Vec<u8> {
    let mut out = Vec::new();
    be32(&mut out, 0xBABE_DEAD);
    be32(&mut out, 1);
    // one 65-byte light layer
    be32(&mut out, 0); // light type
    for _ in 0..9 {
        be32(&mut out, 0x3F80_0000); // color, position, direction
    }
    be32(&mut out, 0x3F80_0000); // brightness
    be32(&mut out, 0); // spot cutoff
    be32(&mut out, 0); // unknown
    out.push(7);
    be32(&mut out, 0);
    be32(&mut out, 1); // falloff
    be32(&mut out, 0);
    pad32(&mut out);
    out
}

fn scly_bytes() -> Vec<u8> {
    let mut out = Vec::new();
    be32(&mut out, 0x5343_4C59); // "SCLY"
    be32(&mut out, 1);
    be32(&mut out, 2); // layer count
    be32(&mut out, 3);
    be32(&mut out, 1);
    out.extend_from_slice(&[9, 8, 7]);
    out.push(42);
    out
}

/// Build a whole room container with eight sections.  The declared indices
/// are geometry 0, octree 1, scripts 2, collision 3, reserved 4, lights 5,
/// visibility 6, paths 7 (file order differs).
fn mrea_bytes(sections: &[Vec<u8>], indices: [u32; 8]) -> Vec<u8> {
    let mut out = Vec::new();
    be32(&mut out, 0xDEAD_BEEF);
    be32(&mut out, 0xF);
    for _ in 0..12 {
        be32(&mut out, 0x3F80_0000); // area transform
    }
    be32(&mut out, 1); // world model count
    be32(&mut out, sections.len() as u32);
    // file order: geometry, scripts, collision, reserved, lights,
    // visibility, paths, octree
    be32(&mut out, indices[0]);
    be32(&mut out, indices[2]);
    be32(&mut out, indices[3]);
    be32(&mut out, indices[4]);
    be32(&mut out, indices[5]);
    be32(&mut out, indices[6]);
    be32(&mut out, indices[7]);
    be32(&mut out, indices[1]);
    for s in sections {
        be32(&mut out, s.len() as u32);
    }
    pad32(&mut out);
    for s in sections {
        out.extend_from_slice(s);
    }
    pad32(&mut out);
    out
}

fn standard_sections() -> Vec<Vec<u8>> {
    vec![
        material_set_bytes(),
        vec![1, 2, 3, 4],
        scly_bytes(),
        collision_bytes(false),
        vec![5, 6, 7, 8],
        lights_bytes(),
        vec![9, 10, 11, 12],
        vec![13, 14, 15, 16],
    ]
}

#[test]
fn mrea_raw_round_trip() {
    let bytes = mrea_bytes(&standard_sections(), [0, 1, 2, 3, 4, 5, 6, 7]);
    let m = Mrea::read_from(&bytes).expect("container should decode");
    assert_eq!(m.sections.len(), 8);
    assert_eq!(m.world_geometry_section_idx, 0);
    assert_eq!(m.area_octree_section_idx, 1);
    assert_eq!(m.path_section_idx, 7);
    let back = m.to_bytes().expect("container should re-serialize");
    assert_eq!(back, bytes);
}

#[test]
fn mrea_round_trip_after_promotion_of_other_sections() {
    // Promoting one section must not disturb the bytes of the others.
    let bytes = mrea_bytes(&standard_sections(), [0, 1, 2, 3, 4, 5, 6, 7]);
    let mut m = Mrea::read_from(&bytes).expect("container should decode");
    m.collision_section_mut().expect("collision should promote");
    m.lights_section_mut().expect("lights should promote");
    m.scly_section_mut().expect("scripts should promote");
    let back = m.to_bytes().expect("container should re-serialize");
    // These sections decode cleanly and completely, so the whole image
    // survives promotion byte-for-byte.
    assert_eq!(back, bytes);
}

#[test]
fn mrea_index_ordering_rejected_before_sections() {
    // Swap collision and reserved: ordering violated.  The section bytes
    // are removed entirely, so reaching them would fail differently; the
    // ordering error proves validation happens first.
    let mut header_only = mrea_bytes(&standard_sections(), [0, 1, 2, 4, 3, 5, 6, 7]);
    header_only.truncate(96);
    assert_eq!(
        Mrea::read_from(&header_only),
        Err(FormatError::SectionIndexOrdering)
    );
}

#[test]
fn mrea_index_range_rejected() {
    let bytes = mrea_bytes(&standard_sections(), [0, 1, 2, 3, 4, 5, 6, 8]);
    assert_eq!(Mrea::read_from(&bytes), Err(FormatError::SectionIndexRange));
}

#[test]
fn mrea_bad_magic_rejected() {
    let mut bytes = mrea_bytes(&standard_sections(), [0, 1, 2, 3, 4, 5, 6, 7]);
    bytes[0] = 0;
    assert_eq!(Mrea::read_from(&bytes), Err(FormatError::UnexpectedMagic));
}

#[test]
fn mrea_bad_version_rejected() {
    let mut bytes = mrea_bytes(&standard_sections(), [0, 1, 2, 3, 4, 5, 6, 7]);
    bytes[7] = 0xE;
    assert_eq!(Mrea::read_from(&bytes), Err(FormatError::UnexpectedVersion));
}

#[test]
fn mrea_nonzero_padding_rejected() {
    let sections = standard_sections();
    let mut bytes = mrea_bytes(&sections, [0, 1, 2, 3, 4, 5, 6, 7]);
    // The header plus size table is 128 bytes here (a 32-byte multiple),
    // so the final padding is the only padding; poke its first byte.
    let content: usize = sections.iter().map(|s| s.len()).sum();
    let first_pad = 128 + content;
    assert!(first_pad < bytes.len());
    bytes[first_pad] = 1;
    assert_eq!(Mrea::read_from(&bytes), Err(FormatError::NonzeroPadding));
}

#[test]
fn mrea_truncated_rejected() {
    let bytes = mrea_bytes(&standard_sections(), [0, 1, 2, 3, 4, 5, 6, 7]);
    assert_eq!(
        Mrea::read_from(&bytes[..60]),
        Err(FormatError::Truncated)
    );
}

#[test]
fn section_promotion_is_idempotent() {
    let mut sec = MreaSection::Unknown(lights_bytes());
    sec.convert_to_lights().expect("first promotion should work");
    let first = sec.clone();
    let size_once = sec.size();
    let mut once = Vec::new();
    sec.write_to(&mut once);
    sec.convert_to_lights().expect("second promotion should work");
    assert_eq!(sec, first);
    assert_eq!(sec.size(), size_once);
    let mut twice = Vec::new();
    sec.write_to(&mut twice);
    assert_eq!(once, twice);
}

#[test]
fn section_promotion_to_other_kind_refused() {
    let mut sec = MreaSection::Unknown(lights_bytes());
    sec.convert_to_lights().expect("promotion should work");
    assert_eq!(
        sec.convert_to_collision(),
        Err(FormatError::WrongSectionKind)
    );
}

#[test]
fn collision_section_round_trip() {
    let bytes = collision_bytes(true);
    let mut view = BinaryView::new(&bytes);
    let c = AreaCollision::read_from(&mut view).expect("collision should decode");
    assert_eq!(c.collision.edges.len(), 3);
    assert_eq!(c.collision.tris.len(), 1);
    assert_eq!(c.collision.verts.len(), 3);
    let mut back = Vec::new();
    c.write_to(&mut back);
    assert_eq!(back, bytes);
}

#[test]
fn collision_version_rejected() {
    let mut bytes = collision_bytes(false);
    bytes[15] = 2; // version word
    let mut view = BinaryView::new(&bytes);
    assert_eq!(
        AreaCollision::read_from(&mut view),
        Err(FormatError::UnexpectedVersion)
    );
}

#[test]
fn collision_stored_size_validated() {
    let mut bytes = collision_bytes(false);
    bytes[7] = bytes[7].wrapping_add(1); // stored size word
    let mut view = BinaryView::new(&bytes);
    assert_eq!(
        AreaCollision::read_from(&mut view),
        Err(FormatError::SizeMismatch)
    );
}

#[test]
fn collision_tri_count_divisibility_validated() {
    let mut bytes = collision_bytes(false);
    // tri_count sits after: 8 header words + 8 magic/version + 24 aabb +
    // 8 octree words + 8 material words + 4 + 4 + 5 triangle-material
    // words + 4 edge count + 12 edge bytes.
    let off = 8 + 8 + 24 + 8 + 8 + 4 + 4 + 5 + 4 + 12;
    assert_eq!(&bytes[off..off + 4], &3u32.to_be_bytes());
    bytes[off + 3] = 4;
    let mut view = BinaryView::new(&bytes);
    assert_eq!(
        AreaCollision::read_from(&mut view),
        Err(FormatError::CountNotDivisible)
    );
}

#[test]
fn material_set_round_trip_and_conditional_fields() {
    // One material with the konst flag (0x8) set: two konst words.
    let mut mat = Vec::new();
    be32(&mut mat, 0x8); // flags
    be32(&mut mat, 1); // texture count
    be32(&mut mat, 77); // texture index
    be32(&mut mat, 3); // vertex attribute flags
    be32(&mut mat, 0); // group index
    be32(&mut mat, 2); // konst count
    be32(&mut mat, 0xAAAA_AAAA);
    be32(&mut mat, 0xBBBB_BBBB);
    be16(&mut mat, 1); // blend dst
    be16(&mut mat, 2); // blend src
    be32(&mut mat, 1); // color channel count
    be32(&mut mat, 0xC);
    be32(&mut mat, 1); // tev stage count
    for _ in 0..4 {
        be32(&mut mat, 0);
    }
    mat.extend_from_slice(&[0, 1, 2, 3]); // tev stage bytes
    be16(&mut mat, 0);
    mat.push(4);
    mat.push(5); // texture input
    be32(&mut mat, 1); // texgen count
    be32(&mut mat, 9);
    be32(&mut mat, 4 + 4 + 16); // animation section size: count + one UVScroll
    be32(&mut mat, 1); // animation count
    be32(&mut mat, 2); // UVScroll mode
    for _ in 0..4 {
        be32(&mut mat, 0x3F00_0000);
    }

    let mut set = Vec::new();
    be32(&mut set, 1); // texture id count
    be32(&mut set, 0x1234_5678);
    be32(&mut set, 1); // material count
    be32(&mut set, mat.len() as u32); // material end offset
    set.extend_from_slice(&mat);

    let mut view = BinaryView::new(&set);
    let parsed = CmdlMaterialSet::read_from(&mut view).expect("set should decode");
    assert_eq!(parsed.texture_ids, vec![0x1234_5678]);
    assert_eq!(parsed.materials.len(), 1);
    assert_eq!(parsed.materials[0].konsts, vec![0xAAAA_AAAA, 0xBBBB_BBBB]);
    let mut back = Vec::new();
    parsed.write_to(&mut back);
    assert_eq!(back, set);

    // Conditional-field fidelity: clearing the konst bit after parse must
    // shrink the measured and written layout by the whole konst block,
    // even though the konst array still holds its values.
    let mut toggled = parsed.materials[0].clone();
    let with_flag = toggled.size();
    toggled.flags &= !0x8;
    let without_flag = toggled.size();
    assert_eq!(with_flag - without_flag, 4 + 2 * 4);
    let mut emitted = Vec::new();
    toggled.write_to(&mut emitted);
    assert_eq!(emitted.len(), without_flag);

    // Setting the indirect-slot bit adds exactly its word.
    let mut with_slot = parsed.materials[0].clone();
    with_slot.reflection_indirect_texture_slot_index = Some(6);
    with_slot.flags |= 0x400;
    assert_eq!(with_slot.size(), with_flag + 4);
}

#[test]
fn material_rejects_lying_animation_size() {
    let mut mat = Vec::new();
    be32(&mut mat, 0); // flags: no konst, no slot
    be32(&mut mat, 0); // texture count
    be32(&mut mat, 0); // vertex attribute flags
    be32(&mut mat, 0); // group index
    be16(&mut mat, 0);
    be16(&mut mat, 0);
    be32(&mut mat, 0); // color channel count
    be32(&mut mat, 0); // tev stage count
    be32(&mut mat, 0); // texgen count
    be32(&mut mat, 99); // animation section size: wrong
    be32(&mut mat, 0); // animation count
    let mut view = BinaryView::new(&mat);
    assert_eq!(
        CmdlMaterial::read_from(&mut view),
        Err(FormatError::SizeMismatch)
    );
}

#[test]
fn uv_animation_unknown_mode_rejected() {
    let mut bytes = Vec::new();
    be32(&mut bytes, 8);
    let mut view = BinaryView::new(&bytes);
    assert_eq!(
        CmdlUvAnimation::read_from(&mut view),
        Err(FormatError::UnknownVariantTag)
    );
}

#[test]
fn uv_animation_round_trip() {
    let mut bytes = Vec::new();
    be32(&mut bytes, 3); // rotation
    be32(&mut bytes, 0x4000_0000);
    be32(&mut bytes, 0x3F80_0000);
    let mut view = BinaryView::new(&bytes);
    let a = CmdlUvAnimation::read_from(&mut view).expect("animation should decode");
    assert_eq!(
        a,
        CmdlUvAnimation::Rotation { offset: 0x4000_0000, scale: 0x3F80_0000 }
    );
    assert_eq!(a.size(), 12);
    let mut back = Vec::new();
    a.write_to(&mut back);
    assert_eq!(back, bytes);
}

#[test]
fn scly_round_trip() {
    let bytes = scly_bytes();
    let mut view = BinaryView::new(&bytes);
    let s = Scly::read_from(&mut view).expect("scripts should decode");
    assert_eq!(s.unknown, 1);
    assert_eq!(s.layers, vec![vec![9, 8, 7], vec![42]]);
    let mut back = Vec::new();
    s.write_to(&mut back);
    assert_eq!(back, bytes);
}

#[test]
fn lights_round_trip() {
    let bytes = lights_bytes();
    let mut view = BinaryView::new(&bytes);
    let l = Lights::read_from(&mut view).expect("lights should decode");
    assert_eq!(l.light_layers.len(), 1);
    assert_eq!(l.light_layers[0].unknown1, 7);
    let mut back = Vec::new();
    l.write_to(&mut back);
    assert_eq!(back, bytes);
}

#[test]
fn debris_round_trip() {
    let mut bytes = Vec::new();
    be32(&mut bytes, 24);
    bytes.extend_from_slice(b"Rock\0");
    for _ in 0..9 {
        be32(&mut bytes, 0x3F80_0000);
    }
    let mut view = BinaryView::new(&bytes);
    let d = Debris::read_from(&mut view).expect("debris should decode");
    assert_eq!(d.name, b"Rock".to_vec());
    assert_eq!(d.object_type(), 0x1B);
    let mut back = Vec::new();
    d.write_to(&mut back);
    assert_eq!(back, bytes);
}

#[test]
fn maybe_owned_accessors_read_without_promoting() {
    let bytes = mrea_bytes(&standard_sections(), [0, 1, 2, 3, 4, 5, 6, 7]);
    let m = Mrea::read_from(&bytes).expect("container should decode");
    let collision = m.collision_section().expect("collision should read");
    assert_eq!(collision.get().collision.edges.len(), 3);
    let lights = m.lights_section().expect("lights should read");
    assert_eq!(lights.get().light_layers.len(), 1);
    let scripts = m.scly_section().expect("scripts should read");
    assert_eq!(scripts.get().layers.len(), 2);
    let materials = m.materials_section().expect("materials should read");
    assert_eq!(materials.get().texture_ids.len(), 0);
    // Reading promoted nothing: every section still raw, bytes unchanged.
    let back = m.to_bytes().expect("container should re-serialize");
    assert_eq!(back, bytes);
}

#[test]
fn cmdl_round_trip() {
    let mut set = Vec::new();
    be32(&mut set, 1); // texture id count
    be32(&mut set, 0xAB); // texture id
    be32(&mut set, 0); // material count
    let mut bytes = Vec::new();
    be32(&mut bytes, 0xDEAD_BABE);
    be32(&mut bytes, 2);
    be32(&mut bytes, 0); // flags
    for _ in 0..6 {
        be32(&mut bytes, 0); // bounding box
    }
    be32(&mut bytes, 2); // data section count, material sets included
    be32(&mut bytes, 1); // material set count
    be32(&mut bytes, set.len() as u32);
    be32(&mut bytes, 3); // one opaque data section of three bytes
    pad32(&mut bytes);
    bytes.extend_from_slice(&set);
    bytes.extend_from_slice(&[0xAA, 0xBB, 0xCC]);
    let c = Cmdl::read_from(&bytes).expect("model should decode");
    assert_eq!(c.material_sets.len(), 1);
    assert_eq!(c.material_sets[0].texture_ids, vec![0xAB]);
    assert_eq!(c.data_sections.len(), 1);
    assert_eq!(c.data_sections[0].remainder, vec![0xAA, 0xBB, 0xCC]);
    let mut back = Vec::new();
    c.write_to(&mut back);
    assert_eq!(back, bytes);
}

#[test]
fn measure_tracks_mutation() {
    // The load-bearing codec contract: after any mutation, the measured
    // size equals exactly what write emits.
    let mut set = CmdlMaterialSet {
        texture_ids: vec![1, 2],
        material_ends: Vec::new(),
        materials: Vec::new(),
    };
    let mut before = Vec::new();
    set.write_to(&mut before);
    assert_eq!(before.len(), set.size());
    set.texture_ids.push(3);
    let mut after = Vec::new();
    set.write_to(&mut after);
    assert_eq!(after.len(), set.size());
    assert_eq!(after.len(), before.len() + 4);
}

#[test]
fn sections_serialize_in_order() {
    let sections = vec![
        MreaSection::Unknown(vec![1, 2]),
        MreaSection::Unknown(vec![3]),
        MreaSection::Unknown(vec![4, 5, 6]),
    ];
    assert_eq!(sections_to_bytes(&sections, 0, 3), vec![1, 2, 3, 4, 5, 6]);
    assert_eq!(sections_to_bytes(&sections, 1, 2), vec![3]);
    assert_eq!(sections_to_bytes(&sections, 2, 2), Vec::<u8>::new());
}
