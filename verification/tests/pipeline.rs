use mrea_patch::collision_patch::build_and_run_collision_patches;
use mrea_patch::collision_patch::build_game_texture;
use mrea_patch::collision_patch::patch_mlvl;
use mrea_patch::collision_patch::RoomSpec;
use mrea_patch::collision::TriData;
use mrea_patch::model_creation::make_material_def;
use mrea_patch::patcher::Archive;
use mrea_patch::patcher::FourCC;
use mrea_patch::patcher::Pak;
use mrea_patch::patcher::PatchError;
use mrea_patch::patcher::Resource;
use mrea_patch::patcher::ResourceKind;

fn be32(out: &mut Vec<u8>, x: u32) {
    out.extend_from_slice(&x.to_be_bytes());
}

fn be16(out: &mut Vec<u8>, x: u16) {
    out.extend_from_slice(&x.to_be_bytes());
}

fn pad32(out: &mut Vec<u8>) {
    while out.len() % 32 != 0 {
        out.push(0);
    }
}

const STONE_FLOOR: u32 = 0x8000_0002;

fn collision_bytes() -> Vec<u8> {
    let mut body = Vec::new();
    be32(&mut body, 1);
    be32(&mut body, STONE_FLOOR); // one material: stone floor, flag clear
    be32(&mut body, 0);
    be32(&mut body, 0);
    be32(&mut body, 1);
    body.push(0);
    be32(&mut body, 3);
    for (a, b) in [(0u16, 1u16), (1, 2), (2, 0)] {
        be16(&mut body, a);
        be16(&mut body, b);
    }
    be32(&mut body, 3);
    for e in [0u16, 1, 2] {
        be16(&mut body, e);
    }
    be32(&mut body, 3);
    for _ in 0..9 {
        be32(&mut body, 0x3F80_0000);
    }
    let mut inner = Vec::new();
    be32(&mut inner, 0xDEAF_BABE);
    be32(&mut inner, 3);
    for _ in 0..6 {
        be32(&mut inner, 0);
    }
    be32(&mut inner, 0);
    be32(&mut inner, 0);
    inner.extend_from_slice(&body);
    let mut out = Vec::new();
    be32(&mut out, 0x0100_0000);
    be32(&mut out, inner.len() as u32);
    out.extend_from_slice(&inner);
    out
}

fn material_set_bytes() -> Vec<u8> {
    let mut out = Vec::new();
    be32(&mut out, 0);
    be32(&mut out, 0);
    out
}

fn room_bytes() -> Vec<u8> {
    let sections: Vec<Vec<u8>> = vec![
        material_set_bytes(),
        vec![1, 2, 3, 4],
        vec![5, 6, 7, 8],
        collision_bytes(),
        vec![9, 9, 9, 9],
        vec![8, 8, 8, 8],
        vec![7, 7, 7, 7],
        vec![6, 6, 6, 6],
    ];
    let mut out = Vec::new();
    be32(&mut out, 0xDEAD_BEEF);
    be32(&mut out, 0xF);
    for _ in 0..12 {
        be32(&mut out, 0x3F80_0000);
    }
    be32(&mut out, 1);
    be32(&mut out, sections.len() as u32);
    // geometry 0, scripts 2, collision 3, reserved 4, lights 5,
    // visibility 6, paths 7, octree 1
    for idx in [0u32, 2, 3, 4, 5, 6, 7, 1] {
        be32(&mut out, idx);
    }
    for s in &sections {
        be32(&mut out, s.len() as u32);
    }
    pad32(&mut out);
    for s in &sections {
        out.extend_from_slice(s);
    }
    pad32(&mut out);
    out
}

fn room_archive() -> Archive {
    Archive {
        paks: vec![Pak {
            name: b"Metroid1.pak".to_vec(),
            resources: vec![Resource {
                compressed: false,
                file_id: 0xCAFE,
                kind: ResourceKind::Unknown(room_bytes(), FourCC::from_bytes(b"MREA")),
            }],
        }],
    }
}

fn room_table() -> Vec<RoomSpec> {
    vec![RoomSpec {
        pak_name: "Metroid1.pak".to_string(),
        mrea_id: 0xCAFE,
        room_name: "Landing Site".to_string(),
    }]
}

#[test]
fn pipeline_exports_room_collision() {
    let mut archive = room_archive();
    let (exports, log) =
        build_and_run_collision_patches(&mut archive, &room_table()).expect("run should succeed");
    assert_eq!(log.len(), 1);
    assert_eq!(exports.len(), 1);
    let ex = &exports[0];
    assert_eq!(ex.pak_name, "Metroid1.pak");
    assert_eq!(ex.room_name, "Landing Site");
    assert_eq!(ex.verts.len(), 3);
    assert_eq!(ex.edges.len(), 3);
    assert_eq!(ex.tris.len(), 1);
    // Winding flag clear: the computed triple (0, 2, 1) is reversed.
    assert_eq!(ex.tris[0], TriData { a: 1, b: 2, c: 0 });
    assert_eq!(ex.collision_materials, vec![STONE_FLOOR]);
    assert_eq!(ex.material_defs.len(), 1);
    assert_eq!(ex.material_defs[0].1.line1, "Stone");
    assert_eq!(ex.unique_defs.len(), 1);
    assert_eq!(ex.obj_groups.len(), 1);
    assert_eq!(ex.obj_groups[0].faces, vec![TriData { a: 1, b: 2, c: 0 }]);
    assert_eq!(ex.obj_groups[0].texture_id, 0x2C86_44EE);
    // The resource now holds the decoded container.
    assert!(matches!(
        archive.paks[0].resources[0].kind,
        ResourceKind::Area(_)
    ));
}

#[test]
fn pipeline_reports_room_without_resource() {
    let mut archive = room_archive();
    let mut rooms = room_table();
    rooms.push(RoomSpec {
        pak_name: "Metroid2.pak".to_string(),
        mrea_id: 0xBEEF,
        room_name: "Nowhere".to_string(),
    });
    match build_and_run_collision_patches(&mut archive, &rooms) {
        Err(PatchError::NeverApplied(k)) => assert_eq!(k, 1),
        other => panic!("expected a never-applied error, got {:?}", other.map(|_| ())),
    }
}

#[test]
fn patch_mlvl_promotes_and_round_trips() {
    let bytes = room_bytes();
    let mut res = Resource {
        compressed: false,
        file_id: 0xCAFE,
        kind: ResourceKind::Unknown(bytes.clone(), FourCC::from_bytes(b"MREA")),
    };
    let export = patch_mlvl(&mut res, "p".to_string(), "r".to_string()).expect("patch should run");
    assert_eq!(export.tris.len(), 1);
    match &res.kind {
        ResourceKind::Area(m) => {
            // All sections still raw: the promoted container re-serializes
            // to the exact input bytes.
            assert_eq!(m.to_bytes().expect("should serialize"), bytes);
        }
        other => panic!("expected a decoded area, got {:?}", other),
    }
    // Running the patch again on the decoded resource is refused: one
    // callback per key is the supported model.
    assert!(patch_mlvl(&mut res, "p".to_string(), "r".to_string()).is_err());
}

#[test]
fn game_texture_resource_is_addressed_by_look() {
    let def = make_material_def(STONE_FLOOR);
    let img = vec![255u8; 8 * 8 * 4];
    let res = build_game_texture(&def, &img, 8, 8).expect("texture should build");
    assert_eq!(res.file_id, 0x2C86_44EE);
    match &res.kind {
        ResourceKind::External(bytes, fourcc) => {
            assert_eq!(*fourcc, FourCC::from_bytes(b"TXTR"));
            // format, width, height, mip count, then 32 bytes of pixels.
            assert_eq!(&bytes[0..4], &0u32.to_be_bytes());
            assert_eq!(&bytes[4..6], &8u16.to_be_bytes());
            assert_eq!(&bytes[6..8], &8u16.to_be_bytes());
            assert_eq!(&bytes[8..12], &1u32.to_be_bytes());
            assert_eq!(bytes.len(), 12 + 32);
            assert!(bytes[12..].iter().all(|&b| b == 0x11));
        }
        other => panic!("expected external bytes, got {:?}", other),
    }
}
