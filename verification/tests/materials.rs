use mrea_patch::flags::CollisionMaterialFlags;
use mrea_patch::model_creation::build_obj_groups;
use mrea_patch::model_creation::convert_to_i4;
use mrea_patch::model_creation::create_material_defs;
use mrea_patch::model_creation::decimal_string;
use mrea_patch::model_creation::get_text_line1;
use mrea_patch::model_creation::get_text_line2;
use mrea_patch::model_creation::get_text_line3;
use mrea_patch::model_creation::hex8;
use mrea_patch::model_creation::make_material_def;
use mrea_patch::model_creation::material_name;
use mrea_patch::model_creation::unique_material_defs;
use mrea_patch::model_creation::GeometryMaterialDefinition;
use mrea_patch::collision::TriData;

const STONE: u32 = 0x0000_0002;
const METAL: u32 = 0x0000_0004;
const ORGANIC: u32 = 0x0080_0000;
const HALFPIPE: u32 = 0x0000_2000;
const SHOOT_THRU: u32 = 0x0004_0000;
const CAMERA_THRU: u32 = 0x0020_0000;
const NO_EDGE: u32 = 0x0100_0000;
const SOLID: u32 = 0x0008_0000;
const CEILING: u32 = 0x2000_0000;
const WALL: u32 = 0x4000_0000;
const FLOOR: u32 = 0x8000_0000;

#[test]
fn flag_names_and_masks() {
    assert_eq!(CollisionMaterialFlags::Stone.name(), "Stone");
    assert_eq!(CollisionMaterialFlags::Stone.mask(), STONE);
    assert_eq!(
        CollisionMaterialFlags::RedundantEdgeOrFlippedTri.mask(),
        0x0200_0000
    );
    assert_eq!(CollisionMaterialFlags::Floor.mask(), FLOOR);
    assert_eq!(CollisionMaterialFlags::material_flags().len(), 20);
}

#[test]
fn text_lines() {
    // The last ground flag present wins line one.
    assert_eq!(get_text_line1(STONE | METAL), "Metal");
    assert_eq!(get_text_line1(STONE | ORGANIC), "Organic");
    assert_eq!(get_text_line1(SOLID), "???");
    // Half-pipe beats shoot-through on line two.
    assert_eq!(get_text_line2(HALFPIPE | SHOOT_THRU), "Pipe");
    assert_eq!(get_text_line2(SHOOT_THRU), "Shoot");
    assert_eq!(get_text_line2(CAMERA_THRU), "Cam");
    assert_eq!(get_text_line2(STONE), "");
    assert_eq!(get_text_line3(NO_EDGE), "E");
    assert_eq!(get_text_line3(STONE), "");
}

#[test]
fn material_colors() {
    assert_eq!(make_material_def(STONE | FLOOR).color, 0xFF_FF_80_80);
    assert_eq!(make_material_def(STONE | WALL).color, 0xFF_FF_FF_FF);
    assert_eq!(make_material_def(STONE | CEILING).color, 0xFF_80_FF_80);
    assert_eq!(make_material_def(STONE).color, 0xFF_FF_80_80);
    // Shoot-through halves the alpha of the wall color.
    assert_eq!(make_material_def(STONE | WALL | SHOOT_THRU).color, 0x80_FF_FF_FF);
}

#[test]
fn texture_identity_of_known_material() {
    // MD5 of "Stone" ++ "" ++ "" ++ the floor color little-endian, first
    // four digest bytes read little-endian.
    let def = make_material_def(STONE | FLOOR);
    assert_eq!(def.line1, "Stone");
    assert_eq!(def.line2, "");
    assert_eq!(def.line3, "");
    assert_eq!(def.color, 0xFFFF_8080);
    assert_eq!(def.texture_id(), 0x2C86_44EE);
    assert_eq!(def.texture_id_string(), "2c8644ee");
}

#[test]
fn texture_identity_depends_on_every_field() {
    let def = make_material_def(METAL | WALL | SHOOT_THRU | NO_EDGE);
    assert_eq!(def.line1, "Metal");
    assert_eq!(def.line2, "Shoot");
    assert_eq!(def.line3, "E");
    assert_eq!(def.color, 0x80FF_FFFF);
    assert_eq!(def.texture_id(), 0x91A1_2B6D);
    assert_eq!(def.texture_id_string(), "91a12b6d");
}

#[test]
fn hex_and_decimal_formatting() {
    assert_eq!(hex8(0xDEAD_BEEF), "deadbeef");
    assert_eq!(hex8(0), "00000000");
    assert_eq!(decimal_string(0), "0");
    assert_eq!(decimal_string(746996974), "746996974");
    assert_eq!(material_name(746996974), "material_746996974");
}

#[test]
fn material_map_deduplicates_keys() {
    let flags = vec![STONE | FLOOR, METAL | WALL, STONE | FLOOR];
    let map = create_material_defs(&flags);
    assert_eq!(map.len(), 2);
    assert_eq!(map[0].0, STONE | FLOOR);
    assert_eq!(map[1].0, METAL | WALL);
    assert_eq!(map[0].1.line1, "Stone");
}

#[test]
fn identical_looks_collapse_to_one_artifact() {
    // Two different bitmasks with the same labels and color: SOLID adds
    // nothing visible, so both rooms' materials share one texture.
    let a = STONE | FLOOR;
    let b = STONE | FLOOR | SOLID;
    let map = create_material_defs(&vec![a, b]);
    assert_eq!(map.len(), 2);
    let unique = unique_material_defs(&map);
    assert_eq!(unique.len(), 1);
    let da = make_material_def(a);
    let db = make_material_def(b);
    assert_eq!(da, db);
    assert_eq!(da.texture_id(), db.texture_id());
    assert_eq!(da.texture_id_string(), db.texture_id_string());
}

#[test]
fn different_looks_stay_distinct() {
    let map = create_material_defs(&vec![STONE | FLOOR, METAL | WALL]);
    let unique = unique_material_defs(&map);
    assert_eq!(unique.len(), 2);
    assert_ne!(unique[0].texture_id(), unique[1].texture_id());
}

#[test]
fn obj_groups_split_faces_by_material_index() {
    let flags = vec![STONE | FLOOR, METAL | WALL];
    let map = create_material_defs(&flags);
    let tris = vec![
        TriData { a: 0, b: 1, c: 2 },
        TriData { a: 3, b: 4, c: 5 },
        TriData { a: 6, b: 7, c: 8 },
    ];
    let tmi = vec![0u8, 1, 0];
    let groups = build_obj_groups(&flags, &tmi, &map, &tris).expect("groups should build");
    assert_eq!(groups.len(), 2);
    assert_eq!(groups[0].faces, vec![tris[0], tris[2]]);
    assert_eq!(groups[1].faces, vec![tris[1]]);
    let id0 = make_material_def(STONE | FLOOR).texture_id();
    assert_eq!(groups[0].texture_id, id0);
    assert_eq!(groups[0].material_name, format!("material_{}", id0));
}

#[test]
fn i4_conversion_packs_blocks() {
    // An 8-by-8 all-white image: every nibble is
    // ((255 + 255 + 255 + 128) mod 256) >> 6 == 1, so every byte is 0x11.
    let img = vec![255u8; 8 * 8 * 4];
    let out = convert_to_i4(&img, 8, 8);
    assert_eq!(out.len(), 32);
    assert!(out.iter().all(|&b| b == 0x11));
}

#[test]
fn i4_conversion_block_order() {
    // A 16-by-8 image: left block black, right block white.  The output
    // lists the left block's 32 bytes first, then the right block's.
    let mut img = vec![0u8; 16 * 8 * 4];
    for y in 0..8 {
        for x in 8..16 {
            let p = (y * 16 + x) * 4;
            img[p] = 255;
            img[p + 1] = 255;
            img[p + 2] = 255;
            img[p + 3] = 255;
        }
    }
    let out = convert_to_i4(&img, 16, 8);
    assert_eq!(out.len(), 64);
    // Black: (0 + 0 + 0 + 128) >> 6 == 2, so 0x22 bytes.
    assert!(out[..32].iter().all(|&b| b == 0x22));
    assert!(out[32..].iter().all(|&b| b == 0x11));
}

#[test]
fn definition_equality_is_by_content() {
    let a = GeometryMaterialDefinition {
        line1: "Stone".to_string(),
        line2: String::new(),
        line3: String::new(),
        color: 0xFFFF_8080,
    };
    let b = make_material_def(STONE | FLOOR);
    assert_eq!(a, b);
    assert_eq!(a.texture_id(), 0x2C86_44EE);
}
