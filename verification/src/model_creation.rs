use crate::bytes::push_bytes;
use crate::collision::TriData;
use crate::bytes::spec_le32;
use crate::bytes::spec_le32_of;
use crate::flags::CollisionMaterialFlags;
use vstd::prelude::*;
use vstd::string::StrSliceExecFns;
use vstd::string::StringExecFns;
use vstd::utf8::encode_utf8;

verus! {

/// Everything that decides how one collision material looks when exported:
/// three label lines drawn onto its texture, and its ARGB color.  Two
/// materials with equal labels and color are the same exported artifact.
#[derive(Debug)]
pub struct GeometryMaterialDefinition {
    pub line1: String,
    pub line2: String,
    pub line3: String,
    /// ARGB color.
    pub color: u32,
}

/// Content equality of two material definitions: equal label text and color.
pub open spec fn def_eq(a: GeometryMaterialDefinition, b: GeometryMaterialDefinition) -> bool {
    &&& a.line1@ == b.line1@
    &&& a.line2@ == b.line2@
    &&& a.line3@ == b.line3@
    &&& a.color == b.color
}

impl PartialEq for GeometryMaterialDefinition {
    fn eq(&self, other: &Self) -> (r: bool) {
        self.line1 == other.line1 && self.line2 == other.line2 && self.line3 == other.line3
            && self.color == other.color
    }
}

impl vstd::std_specs::cmp::PartialEqSpecImpl for GeometryMaterialDefinition {
    open spec fn obeys_eq_spec() -> bool {
        true
    }

    open spec fn eq_spec(&self, other: &Self) -> bool {
        def_eq(*self, *other)
    }
}

impl Eq for GeometryMaterialDefinition {

}

impl Clone for GeometryMaterialDefinition {
    fn clone(&self) -> (r: Self)
        ensures
            r == *self,
    {
        GeometryMaterialDefinition {
            line1: self.line1.clone(),
            line2: self.line2.clone(),
            line3: self.line3.clone(),
            color: self.color,
        }
    }
}

/// The byte string whose digest identifies a material artifact: the UTF-8
/// bytes of the three label lines, then the color, little-endian.
pub open spec fn spec_hash_input(d: GeometryMaterialDefinition) -> Seq<u8> {
    encode_utf8(d.line1@) + encode_utf8(d.line2@) + encode_utf8(d.line3@) + spec_le32(d.color)
}

/// The MD5 digest of a byte sequence, named but never written out: nothing
/// in this crate re-states the MD5 algorithm.
pub uninterp spec fn md5_digest(data: Seq<u8>) -> Seq<u8>;

/// Relies on md5::compute: a 16-byte digest that is a function of the input
/// bytes alone.
#[verifier::external_body]
fn compute_md5(data: &Vec<u8>) -> (r: Vec<u8>)
    ensures
        r@ == md5_digest(data@),
        r@.len() == 16,
{
    md5::compute(data.as_slice()).0.to_vec()
}

/// The texture identity of a material definition: the first four digest
/// bytes of its hash input, read little-endian.
pub open spec fn spec_texture_id(d: GeometryMaterialDefinition) -> u32 {
    let h = md5_digest(spec_hash_input(d));
    spec_le32_of(h[0], h[1], h[2], h[3])
}

/// Texture identity is determined by label text and color alone, so
/// identical-looking materials from different rooms collapse to the same
/// exported artifact.
pub proof fn lemma_texture_id_deterministic(
    d1: GeometryMaterialDefinition,
    d2: GeometryMaterialDefinition,
)
    requires
        def_eq(d1, d2),
    ensures
        spec_texture_id(d1) == spec_texture_id(d2),
{
    assert(spec_hash_input(d1) == spec_hash_input(d2));
}

impl GeometryMaterialDefinition {
    /// The deterministic identity of this material's exported texture.
    pub fn texture_id(&self) -> (r: u32)
        ensures
            r == spec_texture_id(*self),
    {
        let mut data: Vec<u8> = Vec::new();
        push_bytes(&mut data, self.line1.as_str().as_bytes());
        push_bytes(&mut data, self.line2.as_str().as_bytes());
        push_bytes(&mut data, self.line3.as_str().as_bytes());
        let c = self.color;
        let c0 = #[verifier::truncate] (c as u8);
        let c1 = #[verifier::truncate] ((c >> 8) as u8);
        let c2 = #[verifier::truncate] ((c >> 16) as u8);
        let c3 = #[verifier::truncate] ((c >> 24) as u8);
        data.push(c0);
        data.push(c1);
        data.push(c2);
        data.push(c3);
        proof {
            assert(data@ =~= spec_hash_input(*self));
        }
        let hash = compute_md5(&data);
        let b0 = hash[0];
        let b1 = hash[1];
        let b2 = hash[2];
        let b3 = hash[3];
        (b0 as u32) | ((b1 as u32) << 8) | ((b2 as u32) << 16) | ((b3 as u32) << 24)
    }

    /// The texture identity formatted as eight lowercase hex digits.
    pub fn texture_id_string(&self) -> (r: String)
        ensures
            r@ == spec_hex8(spec_texture_id(*self)),
    {
        let id = self.texture_id();
        hex8(id)
    }
}

/// The lowercase hex digit for a value below 16.
pub open spec fn spec_hex_digit(d: u32) -> char {
    if d == 0 {
        '0'
    } else if d == 1 {
        '1'
    } else if d == 2 {
        '2'
    } else if d == 3 {
        '3'
    } else if d == 4 {
        '4'
    } else if d == 5 {
        '5'
    } else if d == 6 {
        '6'
    } else if d == 7 {
        '7'
    } else if d == 8 {
        '8'
    } else if d == 9 {
        '9'
    } else if d == 10 {
        'a'
    } else if d == 11 {
        'b'
    } else if d == 12 {
        'c'
    } else if d == 13 {
        'd'
    } else if d == 14 {
        'e'
    } else {
        'f'
    }
}

/// A 32-bit value as eight lowercase hex digits, most significant first.
pub open spec fn spec_hex8(x: u32) -> Seq<char> {
    seq![
        spec_hex_digit((x >> 28) & 0xf),
        spec_hex_digit((x >> 24) & 0xf),
        spec_hex_digit((x >> 20) & 0xf),
        spec_hex_digit((x >> 16) & 0xf),
        spec_hex_digit((x >> 12) & 0xf),
        spec_hex_digit((x >> 8) & 0xf),
        spec_hex_digit((x >> 4) & 0xf),
        spec_hex_digit(x & 0xf),
    ]
}

fn hex_digit_str(d: u32) -> (r: &'static str)
    requires
        d < 16,
    ensures
        r@ =~= seq![spec_hex_digit(d)],
{
    proof {
        reveal_strlit("0");
        reveal_strlit("1");
        reveal_strlit("2");
        reveal_strlit("3");
        reveal_strlit("4");
        reveal_strlit("5");
        reveal_strlit("6");
        reveal_strlit("7");
        reveal_strlit("8");
        reveal_strlit("9");
        reveal_strlit("a");
        reveal_strlit("b");
        reveal_strlit("c");
        reveal_strlit("d");
        reveal_strlit("e");
        reveal_strlit("f");
    }
    if d == 0 {
        "0"
    } else if d == 1 {
        "1"
    } else if d == 2 {
        "2"
    } else if d == 3 {
        "3"
    } else if d == 4 {
        "4"
    } else if d == 5 {
        "5"
    } else if d == 6 {
        "6"
    } else if d == 7 {
        "7"
    } else if d == 8 {
        "8"
    } else if d == 9 {
        "9"
    } else if d == 10 {
        "a"
    } else if d == 11 {
        "b"
    } else if d == 12 {
        "c"
    } else if d == 13 {
        "d"
    } else if d == 14 {
        "e"
    } else {
        "f"
    }
}

proof fn lemma_low_nibble_bound()
    by (bit_vector)
    ensures
        forall|y: u32| #[trigger] (y & 0xf) < 16,
{
}

/// Format a 32-bit value as eight lowercase hex digits.
pub fn hex8(x: u32) -> (r: String)
    ensures
        r@ == spec_hex8(x),
{
    proof {
        lemma_low_nibble_bound();
    }
    let mut s = String::new();
    s.append(hex_digit_str((x >> 28) & 0xf));
    s.append(hex_digit_str((x >> 24) & 0xf));
    s.append(hex_digit_str((x >> 20) & 0xf));
    s.append(hex_digit_str((x >> 16) & 0xf));
    s.append(hex_digit_str((x >> 12) & 0xf));
    s.append(hex_digit_str((x >> 8) & 0xf));
    s.append(hex_digit_str((x >> 4) & 0xf));
    s.append(hex_digit_str(x & 0xf));
    proof {
        assert(s@ =~= spec_hex8(x));
    }
    s
}


/// The first label line: the name of the highest-priority ground-material
/// flag present in the bitmask, scanning the twenty material flags from
/// highest priority down; a mask with none of them reads as unknown.
pub open spec fn spec_text_line1(flags: u32) -> Seq<char> {
    if flags & CollisionMaterialFlags::Organic.spec_mask() != 0 {
        CollisionMaterialFlags::Organic.spec_name()
    } else if flags & CollisionMaterialFlags::Wood.spec_mask() != 0 {
        CollisionMaterialFlags::Wood.spec_name()
    } else if flags & CollisionMaterialFlags::Sand.spec_mask() != 0 {
        CollisionMaterialFlags::Sand.spec_name()
    } else if flags & CollisionMaterialFlags::Shield.spec_mask() != 0 {
        CollisionMaterialFlags::Shield.spec_name()
    } else if flags & CollisionMaterialFlags::Glass.spec_mask() != 0 {
        CollisionMaterialFlags::Glass.spec_name()
    } else if flags & CollisionMaterialFlags::Mud.spec_mask() != 0 {
        CollisionMaterialFlags::Mud.spec_name()
    } else if flags & CollisionMaterialFlags::Halfpipe.spec_mask() != 0 {
        CollisionMaterialFlags::Halfpipe.spec_name()
    } else if flags & CollisionMaterialFlags::MudSlow.spec_mask() != 0 {
        CollisionMaterialFlags::MudSlow.spec_name()
    } else if flags & CollisionMaterialFlags::Snow.spec_mask() != 0 {
        CollisionMaterialFlags::Snow.spec_name()
    } else if flags & CollisionMaterialFlags::LavaStone.spec_mask() != 0 {
        CollisionMaterialFlags::LavaStone.spec_name()
    } else if flags & CollisionMaterialFlags::Lava.spec_mask() != 0 {
        CollisionMaterialFlags::Lava.spec_name()
    } else if flags & CollisionMaterialFlags::Dirt.spec_mask() != 0 {
        CollisionMaterialFlags::Dirt.spec_name()
    } else if flags & CollisionMaterialFlags::Phazon.spec_mask() != 0 {
        CollisionMaterialFlags::Phazon.spec_name()
    } else if flags & CollisionMaterialFlags::MetalGrating.spec_mask() != 0 {
        CollisionMaterialFlags::MetalGrating.spec_name()
    } else if flags & CollisionMaterialFlags::Pillar.spec_mask() != 0 {
        CollisionMaterialFlags::Pillar.spec_name()
    } else if flags & CollisionMaterialFlags::Ice.spec_mask() != 0 {
        CollisionMaterialFlags::Ice.spec_name()
    } else if flags & CollisionMaterialFlags::Grass.spec_mask() != 0 {
        CollisionMaterialFlags::Grass.spec_name()
    } else if flags & CollisionMaterialFlags::Metal.spec_mask() != 0 {
        CollisionMaterialFlags::Metal.spec_name()
    } else if flags & CollisionMaterialFlags::Stone.spec_mask() != 0 {
        CollisionMaterialFlags::Stone.spec_name()
    } else if flags & CollisionMaterialFlags::Unknown.spec_mask() != 0 {
        CollisionMaterialFlags::Unknown.spec_name()
    } else {
        "???"@
    }
}

/// Exec form of [`spec_text_line1`].
pub fn get_text_line1(collision_material_flags: u32) -> (r: String)
    ensures
        r@ == spec_text_line1(collision_material_flags),
{
    let flags = collision_material_flags;
    if flags & CollisionMaterialFlags::Organic.mask() != 0 {
        String::from_str(CollisionMaterialFlags::Organic.name())
    } else if flags & CollisionMaterialFlags::Wood.mask() != 0 {
        String::from_str(CollisionMaterialFlags::Wood.name())
    } else if flags & CollisionMaterialFlags::Sand.mask() != 0 {
        String::from_str(CollisionMaterialFlags::Sand.name())
    } else if flags & CollisionMaterialFlags::Shield.mask() != 0 {
        String::from_str(CollisionMaterialFlags::Shield.name())
    } else if flags & CollisionMaterialFlags::Glass.mask() != 0 {
        String::from_str(CollisionMaterialFlags::Glass.name())
    } else if flags & CollisionMaterialFlags::Mud.mask() != 0 {
        String::from_str(CollisionMaterialFlags::Mud.name())
    } else if flags & CollisionMaterialFlags::Halfpipe.mask() != 0 {
        String::from_str(CollisionMaterialFlags::Halfpipe.name())
    } else if flags & CollisionMaterialFlags::MudSlow.mask() != 0 {
        String::from_str(CollisionMaterialFlags::MudSlow.name())
    } else if flags & CollisionMaterialFlags::Snow.mask() != 0 {
        String::from_str(CollisionMaterialFlags::Snow.name())
    } else if flags & CollisionMaterialFlags::LavaStone.mask() != 0 {
        String::from_str(CollisionMaterialFlags::LavaStone.name())
    } else if flags & CollisionMaterialFlags::Lava.mask() != 0 {
        String::from_str(CollisionMaterialFlags::Lava.name())
    } else if flags & CollisionMaterialFlags::Dirt.mask() != 0 {
        String::from_str(CollisionMaterialFlags::Dirt.name())
    } else if flags & CollisionMaterialFlags::Phazon.mask() != 0 {
        String::from_str(CollisionMaterialFlags::Phazon.name())
    } else if flags & CollisionMaterialFlags::MetalGrating.mask() != 0 {
        String::from_str(CollisionMaterialFlags::MetalGrating.name())
    } else if flags & CollisionMaterialFlags::Pillar.mask() != 0 {
        String::from_str(CollisionMaterialFlags::Pillar.name())
    } else if flags & CollisionMaterialFlags::Ice.mask() != 0 {
        String::from_str(CollisionMaterialFlags::Ice.name())
    } else if flags & CollisionMaterialFlags::Grass.mask() != 0 {
        String::from_str(CollisionMaterialFlags::Grass.name())
    } else if flags & CollisionMaterialFlags::Metal.mask() != 0 {
        String::from_str(CollisionMaterialFlags::Metal.name())
    } else if flags & CollisionMaterialFlags::Stone.mask() != 0 {
        String::from_str(CollisionMaterialFlags::Stone.name())
    } else if flags & CollisionMaterialFlags::Unknown.mask() != 0 {
        String::from_str(CollisionMaterialFlags::Unknown.name())
    } else {
        String::from_str("???")
    }
}

/// The second label line: which kind of pass-through the surface allows,
/// a half-pipe winning over shoot-through, camera-through, scan-through.
pub open spec fn spec_text_line2(flags: u32) -> Seq<char> {
    if flags & CollisionMaterialFlags::Halfpipe.spec_mask() != 0 {
        "Pipe"@
    } else if flags & CollisionMaterialFlags::ShootThru.spec_mask() != 0 {
        "Shoot"@
    } else if flags & CollisionMaterialFlags::CameraThru.spec_mask() != 0 {
        "Cam"@
    } else if flags & CollisionMaterialFlags::ScanThru.spec_mask() != 0 {
        "Scan"@
    } else {
        ""@
    }
}

/// Exec form of [`spec_text_line2`].
pub fn get_text_line2(collision_material_flags: u32) -> (r: String)
    ensures
        r@ == spec_text_line2(collision_material_flags),
{
    if collision_material_flags & CollisionMaterialFlags::Halfpipe.mask() != 0 {
        String::from_str("Pipe")
    } else if collision_material_flags & CollisionMaterialFlags::ShootThru.mask() != 0 {
        String::from_str("Shoot")
    } else if collision_material_flags & CollisionMaterialFlags::CameraThru.mask() != 0 {
        String::from_str("Cam")
    } else if collision_material_flags & CollisionMaterialFlags::ScanThru.mask() != 0 {
        String::from_str("Scan")
    } else {
        String::from_str("")
    }
}

/// The third label line: a marker for surfaces without edge collision.
pub open spec fn spec_text_line3(flags: u32) -> Seq<char> {
    if flags & CollisionMaterialFlags::NoEdgeCollision.spec_mask() != 0 {
        "E"@
    } else {
        ""@
    }
}

/// Exec form of [`spec_text_line3`].
pub fn get_text_line3(collision_material_flags: u32) -> (r: String)
    ensures
        r@ == spec_text_line3(collision_material_flags),
{
    let mut ret = String::from_str("");
    if collision_material_flags & CollisionMaterialFlags::NoEdgeCollision.mask() != 0 {
        ret.append("E");
        proof {
            assert(""@ + "E"@ =~= "E"@) by {
                reveal_strlit("");
                reveal_strlit("E");
            }
        }
    }
    ret
}

/// The ARGB color of a material's exported texture: red-tinted floors,
/// white walls, green-tinted ceilings, and half alpha when the surface can
/// be shot through.
pub open spec fn spec_color(flags: u32) -> u32 {
    let base: u32 = if flags & CollisionMaterialFlags::Floor.spec_mask() != 0 {
        0xFF_FF_80_80
    } else if flags & CollisionMaterialFlags::Wall.spec_mask() != 0 {
        0xFF_FF_FF_FF
    } else if flags & CollisionMaterialFlags::Ceiling.spec_mask() != 0 {
        0xFF_80_FF_80
    } else {
        0xFF_FF_80_80
    };
    if flags & CollisionMaterialFlags::ShootThru.spec_mask() != 0 {
        (base & 0x00_FF_FF_FF) | 0x80_00_00_00
    } else {
        base
    }
}

/// Whether `d` is exactly the material definition derived from a bitmask.
pub open spec fn def_matches(flags: u32, d: GeometryMaterialDefinition) -> bool {
    &&& d.line1@ == spec_text_line1(flags)
    &&& d.line2@ == spec_text_line2(flags)
    &&& d.line3@ == spec_text_line3(flags)
    &&& d.color == spec_color(flags)
}

/// Derive the exported look of one material bitmask.
pub fn make_material_def(collision_material: u32) -> (d: GeometryMaterialDefinition)
    ensures
        def_matches(collision_material, d),
{
    let line1 = get_text_line1(collision_material);
    let line2 = get_text_line2(collision_material);
    let line3 = get_text_line3(collision_material);
    let base: u32 = if collision_material & CollisionMaterialFlags::Floor.mask() != 0 {
        0xFF_FF_80_80
    } else if collision_material & CollisionMaterialFlags::Wall.mask() != 0 {
        0xFF_FF_FF_FF
    } else if collision_material & CollisionMaterialFlags::Ceiling.mask() != 0 {
        0xFF_80_FF_80
    } else {
        0xFF_FF_80_80
    };
    let color: u32 = if collision_material & CollisionMaterialFlags::ShootThru.mask() != 0 {
        (base & 0x00_FF_FF_FF) | 0x80_00_00_00
    } else {
        base
    };
    GeometryMaterialDefinition { line1, line2, line3, color }
}

/// Whether an association list already binds a key.
pub open spec fn map_has_key(m: Seq<(u32, GeometryMaterialDefinition)>, k: u32) -> bool {
    exists|j: int| 0 <= j < m.len() && m[j].0 == k
}

fn map_has_key_exec(m: &Vec<(u32, GeometryMaterialDefinition)>, k: u32) -> (r: bool)
    ensures
        r == map_has_key(m@, k),
{
    let mut j: usize = 0;
    while j < m.len()
        invariant
            j <= m@.len(),
            forall|i: int| 0 <= i < j ==> (#[trigger] m@[i]).0 != k,
        decreases m@.len() - j,
    {
        if m[j].0 == k {
            return true;
        }
        j = j + 1;
    }
    false
}

/// Find the entry bound to a key in an association list.
pub fn map_lookup(m: &Vec<(u32, GeometryMaterialDefinition)>, k: u32) -> (r: Option<usize>)
    ensures
        r matches Some(j) ==> j < m@.len() && m@[j as int].0 == k,
        r is None <==> !map_has_key(m@, k),
    {
    let mut j: usize = 0;
    while j < m.len()
        invariant
            j <= m@.len(),
            forall|i: int| 0 <= i < j ==> (#[trigger] m@[i]).0 != k,
        decreases m@.len() - j,
    {
        if m[j].0 == k {
            return Some(j);
        }
        j = j + 1;
    }
    None
}

/// Map every distinct material bitmask of a collision index to its exported
/// look.  Each key appears once; every input bitmask is covered; every bound
/// definition is exactly the one derived from its key.
pub fn create_material_defs(collision_material_flags: &Vec<u32>) -> (r: Vec<
    (u32, GeometryMaterialDefinition),
>)
    ensures
        forall|j: int, k: int| 0 <= j < k < r@.len() ==> (#[trigger] r@[j]).0 != (#[trigger] r@[k]).0,
        forall|j: int|
            0 <= j < r@.len() ==> collision_material_flags@.contains((#[trigger] r@[j]).0),
        forall|i: int|
            0 <= i < collision_material_flags@.len() ==> map_has_key(
                r@,
                #[trigger] collision_material_flags@[i],
            ),
        forall|j: int| 0 <= j < r@.len() ==> def_matches((#[trigger] r@[j]).0, r@[j].1),
{
    let mut map: Vec<(u32, GeometryMaterialDefinition)> = Vec::new();
    let mut i: usize = 0;
    while i < collision_material_flags.len()
        invariant
            i <= collision_material_flags@.len(),
            forall|j: int, k: int|
                0 <= j < k < map@.len() ==> (#[trigger] map@[j]).0 != (#[trigger] map@[k]).0,
            forall|j: int|
                0 <= j < map@.len() ==> collision_material_flags@.contains((#[trigger] map@[j]).0),
            forall|i0: int|
                0 <= i0 < i ==> map_has_key(map@, #[trigger] collision_material_flags@[i0]),
            forall|j: int| 0 <= j < map@.len() ==> def_matches((#[trigger] map@[j]).0, map@[j].1),
        decreases collision_material_flags@.len() - i,
    {
        let collision_material = collision_material_flags[i];
        if !map_has_key_exec(&map, collision_material) {
            let def = make_material_def(collision_material);
            let ghost m0 = map@;
            map.push((collision_material, def));
            proof {
                assert(map@[map@.len() - 1].0 == collision_material);
                assert(collision_material_flags@[i as int] == collision_material);
                assert forall|i0: int|
                    0 <= i0 < i implies map_has_key(
                    map@,
                    #[trigger] collision_material_flags@[i0],
                ) by {
                    let k = collision_material_flags@[i0];
                    let j = choose|j: int| 0 <= j < m0.len() && m0[j].0 == k;
                    assert(map@[j] == m0[j]);
                }
            }
        }
        i = i + 1;
    }
    map
}

/// Whether a definition with this content is already in the list.
pub open spec fn defs_contain(
    s: Seq<GeometryMaterialDefinition>,
    d: GeometryMaterialDefinition,
) -> bool {
    exists|j: int| 0 <= j < s.len() && def_eq(s[j], d)
}

fn defs_contain_exec(s: &Vec<GeometryMaterialDefinition>, d: &GeometryMaterialDefinition) -> (r:
    bool)
    ensures
        r == defs_contain(s@, *d),
{
    let mut j: usize = 0;
    while j < s.len()
        invariant
            j <= s@.len(),
            forall|i: int| 0 <= i < j ==> !def_eq(#[trigger] s@[i], *d),
        decreases s@.len() - j,
    {
        if s[j] == *d {
            return true;
        }
        j = j + 1;
    }
    false
}

/// Every element of `out` has a content-equal source among the map's values.
pub open spec fn defs_from(
    out: Seq<GeometryMaterialDefinition>,
    map: Seq<(u32, GeometryMaterialDefinition)>,
) -> bool {
    forall|j: int|
        0 <= j < out.len() ==> exists|i: int|
            0 <= i < map.len() && def_eq(#[trigger] out[j], map[i].1)
}

/// The distinct exported looks of a material map, first occurrence first:
/// one texture artifact is emitted per element of this list, so a look
/// shared by several bitmasks (or several rooms) is emitted once.
pub fn unique_material_defs(map: &Vec<(u32, GeometryMaterialDefinition)>) -> (r: Vec<
    GeometryMaterialDefinition,
>)
    ensures
        forall|j: int, k: int| 0 <= j < k < r@.len() ==> !def_eq(#[trigger] r@[j], #[trigger] r@[k]),
        forall|i: int| 0 <= i < map@.len() ==> defs_contain(r@, (#[trigger] map@[i]).1),
        defs_from(r@, map@),
{
    let mut out: Vec<GeometryMaterialDefinition> = Vec::new();
    let mut i: usize = 0;
    while i < map.len()
        invariant
            i <= map@.len(),
            forall|j: int, k: int|
                0 <= j < k < out@.len() ==> !def_eq(#[trigger] out@[j], #[trigger] out@[k]),
            forall|i0: int| 0 <= i0 < i ==> defs_contain(out@, (#[trigger] map@[i0]).1),
            defs_from(out@, map@),
        decreases map@.len() - i,
    {
        let d = &map[i].1;
        if !defs_contain_exec(&out, d) {
            let ghost o0 = out@;
            out.push(d.clone());
            proof {
                assert(def_eq(out@[out@.len() - 1], map@[i as int].1));
                assert forall|i0: int|
                    0 <= i0 < i implies defs_contain(out@, (#[trigger] map@[i0]).1) by {
                    let dd = map@[i0].1;
                    let j = choose|j: int| 0 <= j < o0.len() && def_eq(o0[j], dd);
                    assert(out@[j] == o0[j]);
                }
                assert forall|j: int|
                    0 <= j < out@.len() implies exists|i0: int|
                    0 <= i0 < map@.len() && def_eq(#[trigger] out@[j], map@[i0].1) by {
                    if j < o0.len() {
                        assert(out@[j] == o0[j]);
                        assert(defs_from(o0, map@));
                        assert(exists|i0: int|
                            0 <= i0 < map@.len() && def_eq(o0[j], map@[i0].1));
                    } else {
                        assert(def_eq(out@[j], map@[i as int].1));
                    }
                }
                assert(defs_from(out@, map@));
            }
        }
        i = i + 1;
    }
    out
}



/// The decimal digits of a value, most significant first.
pub open spec fn spec_decimal(x: int) -> Seq<char>
    decreases x,
{
    if x < 10 {
        seq![spec_hex_digit(x as u32)]
    } else {
        spec_decimal(x / 10) + seq![spec_hex_digit((x % 10) as u32)]
    }
}

/// Format a value in decimal.
pub fn decimal_string(x: u32) -> (r: String)
    ensures
        r@ == spec_decimal(x as int),
    decreases x,
{
    if x < 10 {
        String::from_str(hex_digit_str(x))
    } else {
        let mut s = decimal_string(x / 10);
        s.append(hex_digit_str(x % 10));
        s
    }
}

/// The exported material name for a texture identity.
pub open spec fn spec_material_name(id: u32) -> Seq<char> {
    "material_"@ + spec_decimal(id as int)
}

/// Exec form of [`spec_material_name`].
pub fn material_name(id: u32) -> (r: String)
    ensures
        r@ == spec_material_name(id),
{
    let mut s = String::from_str("material_");
    s.append(decimal_string(id).as_str());
    s
}

/// One face group of an exported mesh: every face that carries one
/// material-flag index, under that material's deterministic name, in the
/// triangle list's original order.
#[derive(Debug)]
pub struct ObjGroup {
    pub material_name: String,
    pub texture_id: u32,
    pub faces: Vec<TriData>,
}

/// The faces among the first `upto` triangles whose material-flag index is
/// `g`, in original order.
pub open spec fn spec_faces(tris: Seq<TriData>, tmi: Seq<u8>, g: int, upto: int) -> Seq<TriData>
    decreases upto,
{
    if upto <= 0 {
        Seq::empty()
    } else if tmi[upto - 1] == g {
        spec_faces(tris, tmi, g, upto - 1).push(tris[upto - 1])
    } else {
        spec_faces(tris, tmi, g, upto - 1)
    }
}

/// Group an exported mesh's triangles by material-flag index: one group per
/// index, named after the material bound to that index's bitmask, holding
/// that index's faces in the triangle list's original order.
///
/// Fails when more flag indices exist than a one-byte index can address,
/// when the triangle material table is shorter than the triangle list, or
/// when a bitmask has no binding in the map.
pub fn build_obj_groups(
    material_collision_flags: &Vec<u32>,
    tri_material_indices: &Vec<u8>,
    map: &Vec<(u32, GeometryMaterialDefinition)>,
    tris: &Vec<TriData>,
) -> (r: Result<Vec<ObjGroup>, crate::errors::FormatError>)
    ensures
        r is Ok <==> {
            &&& material_collision_flags@.len() <= 255
            &&& tri_material_indices@.len() >= tris@.len()
            &&& forall|g: int|
                0 <= g < material_collision_flags@.len() ==> map_has_key(
                    map@,
                    #[trigger] material_collision_flags@[g],
                )
        },
        r matches Ok(groups) ==> {
            &&& groups@.len() == material_collision_flags@.len()
            &&& forall|g: int|
                0 <= g < groups@.len() ==> {
                    let grp = #[trigger] groups@[g];
                    &&& grp.faces@ == spec_faces(tris@, tri_material_indices@, g, tris@.len() as int)
                    &&& grp.material_name@ == spec_material_name(grp.texture_id)
                    &&& exists|j: int|
                        0 <= j < map@.len() && (#[trigger] map@[j]).0
                            == material_collision_flags@[g] && grp.texture_id == spec_texture_id(
                            map@[j].1,
                        )
                }
        },
{
    if material_collision_flags.len() > 255 {
        return Err(crate::errors::FormatError::IndexOutOfRange);
    }
    if tri_material_indices.len() < tris.len() {
        return Err(crate::errors::FormatError::IndexOutOfRange);
    }
    let mut groups: Vec<ObjGroup> = Vec::new();
    let nflags = material_collision_flags.len();
    let mut g: usize = 0;
    while g < nflags
        invariant
            nflags == material_collision_flags@.len(),
            nflags <= 255,
            tri_material_indices@.len() >= tris@.len(),
            g <= nflags,
            groups@.len() == g,
            forall|g0: int|
                0 <= g0 < g ==> map_has_key(map@, #[trigger] material_collision_flags@[g0]),
            forall|g0: int|
                0 <= g0 < g ==> {
                    let grp = #[trigger] groups@[g0];
                    &&& grp.faces@ == spec_faces(
                        tris@,
                        tri_material_indices@,
                        g0,
                        tris@.len() as int,
                    )
                    &&& grp.material_name@ == spec_material_name(grp.texture_id)
                    &&& exists|j: int|
                        0 <= j < map@.len() && (#[trigger] map@[j]).0
                            == material_collision_flags@[g0] && grp.texture_id == spec_texture_id(
                            map@[j].1,
                        )
                },
        decreases nflags - g,
    {
        let flag = material_collision_flags[g];
        let j = match map_lookup(map, flag) {
            Some(j) => j,
            None => {
                return Err(crate::errors::FormatError::IndexOutOfRange);
            },
        };
        let id = map[j].1.texture_id();
        let name = material_name(id);
        let mut faces: Vec<TriData> = Vec::new();
        let ntris = tris.len();
        let mut i: usize = 0;
        while i < ntris
            invariant
                0 <= g < 255,
                ntris == tris@.len(),
                tri_material_indices@.len() >= tris@.len(),
                i <= ntris,
                faces@ == spec_faces(tris@, tri_material_indices@, g as int, i as int),
            decreases ntris - i,
        {
            if tri_material_indices[i] == (g as u8) {
                faces.push(tris[i]);
            }
            proof {
                assert((g as u8) as int == g as int);
            }
            i = i + 1;
        }
        let ghost g0 = groups@;
        groups.push(ObjGroup { material_name: name, texture_id: id, faces });
        proof {
            assert forall|gg: int|
                0 <= gg < g + 1 implies map_has_key(
                map@,
                #[trigger] material_collision_flags@[gg],
            ) by {
                if gg < g as int {
                } else {
                    assert(map@[j as int].0 == flag);
                }
            }
            assert forall|gg: int|
                0 <= gg < groups@.len() implies {
                let grp = #[trigger] groups@[gg];
                &&& grp.faces@ == spec_faces(tris@, tri_material_indices@, gg, tris@.len() as int)
                &&& grp.material_name@ == spec_material_name(grp.texture_id)
                &&& exists|jj: int|
                    0 <= jj < map@.len() && (#[trigger] map@[jj]).0
                        == material_collision_flags@[gg] && grp.texture_id == spec_texture_id(
                        map@[jj].1,
                    )
            } by {
                if gg < g0.len() {
                    assert(groups@[gg] == g0[gg]);
                } else {
                    assert(groups@[gg] == groups@.last());
                    assert(map@[j as int].0 == material_collision_flags@[gg]);
                }
            }
        }
        g = g + 1;
    }
    Ok(groups)
}



/// The 4-bit grayscale of one pixel of an RGBA image: red, green, blue and
/// a rounding bias summed with wrapping byte arithmetic, then the top bits
/// taken, exactly as the exporter always computed it.
pub open spec fn spec_i4_nibble(img: Seq<u8>, width: int, x: int, y: int) -> u8 {
    let p = (y * width + x) * 4;
    (((img[p] + img[p + 1] + img[p + 2] + 0x80) as u8) >> 6) & 0xF
}

/// Byte `p` of the block-linearized 4-bit image: the high nibble from the
/// even pixel of the pair, the low nibble from the odd one.
pub open spec fn spec_i4_byte(img: Seq<u8>, width: int, x_blocks: int, p: int) -> u8 {
    let pos = 2 * p;
    let block = pos / 64;
    let brel = pos % 64;
    let bry = brel / 8;
    let brx = brel % 8;
    let bx = block % x_blocks;
    let by = block / x_blocks;
    let x0 = bx * 8 + brx;
    let y0 = by * 8 + bry;
    (spec_i4_nibble(img, width, x0, y0) << 4) | spec_i4_nibble(img, width, x0 + 1, y0)
}

fn i4_nibble(img: &Vec<u8>, width: u32, x: u32, y: u32) -> (r: u8)
    requires
        ((y as int) * (width as int) + (x as int)) * 4 + 3 < img@.len(),
    ensures
        r == spec_i4_nibble(img@, width as int, x as int, y as int),
{
    let n = img.len();
    proof {
        assert(img@.len() == n as int);
        assert((y as int) * (width as int) >= 0) by (nonlinear_arith);
        assert(((y as int) * (width as int) + (x as int)) * 4 >= (y as int) * (width as int) + (
        x as int)) by (nonlinear_arith)
            requires
                (y as int) * (width as int) + (x as int) >= 0,
        ;
        assert((y as int) * (width as int) <= (y as int) * (width as int) + (x as int));
    }
    let p = ((y as usize) * (width as usize) + (x as usize)) * 4;
    let red = img[p];
    let green = img[p + 1];
    let blue = img[p + 2];
    let sum = #[verifier::truncate] (((red as u32) + (green as u32) + (blue as u32) + 0x80u32)
        as u8);
    (sum >> 6) & 0xF
}

/// Convert a drawn RGBA texture to the 4-bit grayscale block layout the
/// game's texture format stores: 8-by-8 pixel blocks in row-major block
/// order, two pixels per byte, the region past the whole blocks left zero.
#[verifier::rlimit(100)]
#[verifier::spinoff_prover]
pub fn convert_to_i4(img: &Vec<u8>, width: u32, height: u32) -> (r: Vec<u8>)
    requires
        img@.len() == 4 * (width as int) * (height as int),
    ensures
        r@.len() == (width as int) * (height as int) / 2,
        forall|p: int|
            0 <= p < ((width as int) / 8) * ((height as int) / 8) * 32 ==> r@[p]
                == spec_i4_byte(img@, width as int, (width as int) / 8, p),
        forall|p: int|
            ((width as int) / 8) * ((height as int) / 8) * 32 <= p < r@.len() ==> r@[p] == 0u8,
{
    let x_blocks = width / 8;
    let y_blocks = height / 8;
    let ghost w = width as int;
    let ghost h = height as int;
    let ghost xb = (width as int) / 8;
    let ghost yb = (height as int) / 8;
    let img_len = img.len();
    proof {
        assert(img@.len() == img_len as int);
        assert(4 * w * h >= 0 ==> w * h >= 0) by (nonlinear_arith);
        assert(4 * w * h == img@.len());
        assert(w * h <= 4 * w * h) by (nonlinear_arith)
            requires
                w >= 0 && h >= 0,
        ;
    }
    let mut out: Vec<u8> = Vec::new();
    let mut block_y: u32 = 0;
    while block_y < y_blocks
        invariant
            xb == w / 8,
            yb == h / 8,
            x_blocks == xb,
            y_blocks == yb,
            w == width as int,
            h == height as int,
            img@.len() == 4 * w * h,
            w * h <= usize::MAX,
            block_y <= y_blocks,
            out@.len() == (block_y as int) * xb * 32,
            forall|p: int|
                0 <= p < out@.len() ==> r_byte_matches(img@, w, xb, #[trigger] out@[p], p),
        decreases y_blocks - block_y,
    {
        proof {
            assert((block_y as int) * xb * 32 <= yb * xb * 32) by (nonlinear_arith)
                requires
                    0 <= block_y as int <= yb && xb >= 0,
            ;
            assert(yb * xb * 64 <= w * h) by (nonlinear_arith)
                requires
                    xb == w / 8 && yb == h / 8 && w >= 0 && h >= 0,
            ;
        }
        let mut block_x: u32 = 0;
        while block_x < x_blocks
            invariant
                xb == w / 8,
                yb == h / 8,
                x_blocks == xb,
                y_blocks == yb,
                w == width as int,
                h == height as int,
                img@.len() == 4 * w * h,
                w * h <= usize::MAX,
                0 <= (block_y as int) < yb,
                block_x <= x_blocks,
                out@.len() == ((block_y as int) * xb + block_x as int) * 32,
                forall|p: int|
                    0 <= p < out@.len() ==> r_byte_matches(img@, w, xb, #[trigger] out@[p], p),
            decreases x_blocks - block_x,
        {
            let mut bry: u32 = 0;
            while bry < 8
                invariant
                    xb == w / 8,
                    yb == h / 8,
                    x_blocks == xb,
                    y_blocks == yb,
                    w == width as int,
                    h == height as int,
                    img@.len() == 4 * w * h,
                    w * h <= usize::MAX,
                    0 <= (block_y as int) < yb,
                    0 <= (block_x as int) < xb,
                    bry <= 8,
                    out@.len() == ((block_y as int) * xb + block_x as int) * 32 + (bry as int)
                        * 4,
                    forall|p: int|
                        0 <= p < out@.len() ==> r_byte_matches(
                            img@,
                            w,
                            xb,
                            #[trigger] out@[p],
                            p,
                        ),
                decreases 8 - bry,
            {
                let mut k: u32 = 0;
                while k < 4
                    invariant
                        xb == w / 8,
                        yb == h / 8,
                        x_blocks == xb,
                        y_blocks == yb,
                        w == width as int,
                        h == height as int,
                        img@.len() == 4 * w * h,
                        w * h <= usize::MAX,
                        0 <= (block_y as int) < yb,
                        0 <= (block_x as int) < xb,
                        0 <= (bry as int) < 8,
                        k <= 4,
                        out@.len() == ((block_y as int) * xb + block_x as int) * 32 + (
                        bry as int) * 4 + k as int,
                        forall|p: int|
                            0 <= p < out@.len() ==> r_byte_matches(
                                img@,
                                w,
                                xb,
                                #[trigger] out@[p],
                                p,
                            ),
                    decreases 4 - k,
                {
                    let ghost big_l = out@.len() as int;
                    let x0 = block_x * 8 + 2 * k;
                    let y0 = block_y * 8 + bry;
                    proof {
                        assert((y0 as int) < h && (x0 as int) + 1 < w) by (nonlinear_arith)
                            requires
                                xb == w / 8 && yb == h / 8 && w >= 0 && h >= 0 && 0
                                    <= (block_y as int) < yb && 0 <= (block_x as int) < xb && 0
                                    <= (bry as int) < 8 && 0 <= (k as int) < 4 && y0 as int == (
                                block_y as int) * 8 + bry as int && x0 as int == (block_x as int)
                                    * 8 + 2 * (k as int),
                        ;
                        assert(((y0 as int) * w + (x0 as int) + 1) * 4 + 3 < 4 * w * h)
                            by (nonlinear_arith)
                            requires
                                0 <= (y0 as int) < h && 0 <= (x0 as int) && (x0 as int) + 1 < w && w
                                    >= 0 && h >= 0,
                        ;
                    }
                    let hi = i4_nibble(img, width, x0, y0);
                    let lo = i4_nibble(img, width, x0 + 1, y0);
                    let byte = (hi << 4) | lo;
                    out.push(byte);
                    proof {
                        let big_b = (block_y as int) * xb + block_x as int;
                        let rr = (bry as int) * 8 + 2 * (k as int);
                        assert(2 * big_l == big_b * 64 + rr);
                        assert((big_b * 64 + rr) / 64 == big_b && (big_b * 64 + rr) % 64 == rr)
                            by (nonlinear_arith)
                            requires
                                0 <= rr < 64 && big_b >= 0,
                        ;
                        assert(rr / 8 == bry as int && rr % 8 == 2 * (k as int))
                            by (nonlinear_arith)
                            requires
                                rr == (bry as int) * 8 + 2 * (k as int) && 0 <= (bry as int) < 8
                                    && 0 <= (k as int) < 4,
                        ;
                        assert(big_b % xb == block_x as int && big_b / xb == block_y as int)
                            by (nonlinear_arith)
                            requires
                                big_b == (block_y as int) * xb + block_x as int && 0
                                    <= (block_x as int) < xb && block_y as int >= 0,
                        ;
                        assert(spec_i4_byte(img@, w, xb, big_l) == byte);
                        assert(r_byte_matches(img@, w, xb, out@[big_l], big_l));
                        assert forall|p: int|
                            0 <= p < out@.len() implies r_byte_matches(
                            img@,
                            w,
                            xb,
                            #[trigger] out@[p],
                            p,
                        ) by {
                            if p < big_l {
                                assert(out@[p] == out@.subrange(0, big_l)[p]);
                            }
                        }
                    }
                    k = k + 1;
                }
                bry = bry + 1;
            }
            proof {
                assert(((block_y as int) * xb + block_x as int) * 32 + 8 * 4 == ((
                block_y as int) * xb + (block_x as int) + 1) * 32) by (nonlinear_arith);
            }
            block_x = block_x + 1;
        }
        proof {
            assert(((block_y as int) * xb + xb) * 32 == ((block_y as int) + 1) * xb * 32)
                by (nonlinear_arith);
        }
        block_y = block_y + 1;
    }
    proof {
        assert(out@.len() == yb * xb * 32);
        assert(yb * xb * 32 == xb * yb * 32) by (nonlinear_arith);
        assert(xb * yb * 64 <= w * h) by (nonlinear_arith)
            requires
                xb == w / 8 && yb == h / 8 && w >= 0 && h >= 0,
        ;
        assert(xb * yb * 32 <= w * h / 2) by (nonlinear_arith)
            requires
                xb * yb * 64 <= w * h,
        ;
    }
    let target = (width as usize) * (height as usize) / 2;
    while out.len() < target
        invariant
            xb == w / 8,
            yb == h / 8,
            w == width as int,
            h == height as int,
            target == w * h / 2,
            xb * yb * 32 <= out@.len() <= target,
            forall|p: int|
                0 <= p < xb * yb * 32 ==> r_byte_matches(img@, w, xb, #[trigger] out@[p], p),
            forall|p: int| xb * yb * 32 <= p < out@.len() ==> out@[p] == 0u8,
        decreases target - out@.len(),
    {
        out.push(0u8);
    }
    proof {
        assert forall|p: int|
            0 <= p < xb * yb * 32 implies out@[p] == spec_i4_byte(img@, w, xb, p) by {
            assert(r_byte_matches(img@, w, xb, out@[p], p));
        }
    }
    out
}

/// Whether an emitted byte is the one the block layout demands at its
/// position.
pub open spec fn r_byte_matches(img: Seq<u8>, width: int, x_blocks: int, b: u8, p: int) -> bool {
    b == spec_i4_byte(img, width, x_blocks, p)
}


} // verus!
