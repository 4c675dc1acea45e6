use crate::bytes::spec_be16;
use crate::bytes::spec_be32;
use crate::collision::AreaCollision;
use crate::collision::CollisionVert;
use crate::collision::EdgeData;
use crate::collision::TriData;
use crate::errors::FormatError;
use crate::geometry::reconstruct_triangles;
use crate::geometry::spec_reconstructed_tri;
use crate::geometry::spec_tri_ok;
use crate::model_creation::build_obj_groups;
use crate::model_creation::create_material_defs;
use crate::model_creation::def_matches;
use crate::model_creation::defs_contain;
use crate::model_creation::defs_from;
use crate::model_creation::map_has_key;
use crate::model_creation::unique_material_defs;
use crate::model_creation::GeometryMaterialDefinition;
use crate::model_creation::ObjGroup;
use crate::mrea::Mrea;
use crate::mrea::MreaSection;
use crate::patcher::mrea_fourcc;
use crate::patcher::Archive;
use crate::patcher::PatchApplication;
use crate::patcher::PatchEngine;
use crate::patcher::PatchError;
use crate::patcher::spec_first_match_from;
use crate::patcher::spec_key_matches;
use crate::patcher::spec_log_covers_patch;
use crate::patcher::spec_res_match;
use crate::patcher::FourCC;
use crate::patcher::PatchKey;
use crate::patcher::Resource;
use crate::patcher::ResourceKind;
use crate::patcher::ResourcePatch;
use crate::txtr::Txtr;
use crate::txtr::TXTR_FORMAT_I4;
use vstd::prelude::*;
use vstd::string::StrSliceExecFns;
use vstd::string::StringExecFns;

verus! {

/// Everything derived from one room's collision section for export: the
/// raw indexed mesh, the reconstructed triangles, the per-bitmask material
/// looks, the distinct looks to emit as texture artifacts, and the face
/// groups of the mesh file.
#[derive(Debug)]
pub struct RoomExport {
    pub pak_name: String,
    pub room_name: String,
    pub verts: Vec<CollisionVert>,
    pub edges: Vec<EdgeData>,
    pub raw_tris: Vec<TriData>,
    pub tri_material_indices: Vec<u8>,
    pub collision_materials: Vec<u32>,
    pub tris: Vec<TriData>,
    pub material_defs: Vec<(u32, GeometryMaterialDefinition)>,
    pub unique_defs: Vec<GeometryMaterialDefinition>,
    pub obj_groups: Vec<ObjGroup>,
}

/// Derive one room's export data from its decoded collision section: copy
/// the indexed mesh out, reconstruct the oriented triangles, derive the
/// material looks, de-duplicate them, and group the faces by material
/// index.  Fails loudly on broken topology, out-of-range indices, or more
/// material bitmasks than a one-byte index can address.
#[verifier::rlimit(100)]
#[verifier::spinoff_prover]
pub fn build_room_export(
    collision: &AreaCollision,
    pak_name: String,
    room_name: String,
) -> (r: Result<RoomExport, FormatError>)
    ensures
        r is Ok <==> {
            &&& collision.collision.tris@.len() <= collision.collision.tri_material_indices@.len()
            &&& (forall|i: int|
                0 <= i < collision.collision.tris@.len() ==> #[trigger] spec_tri_ok(
                    collision.collision.edges@,
                    collision.collision.tris@,
                    collision.collision.tri_material_indices@,
                    collision.collision.collision_materials@,
                    i,
                ))
            &&& collision.collision.collision_materials@.len() <= 255
        },
        r matches Ok(ex) ==> {
            &&& ex.pak_name == pak_name
            &&& ex.room_name == room_name
            &&& ex.verts@ == collision.collision.verts@
            &&& ex.edges@ == collision.collision.edges@
            &&& ex.raw_tris@ == collision.collision.tris@
            &&& ex.tri_material_indices@ == collision.collision.tri_material_indices@
            &&& ex.collision_materials@ == collision.collision.collision_materials@
            &&& ex.tris@.len() == collision.collision.tris@.len()
            &&& (forall|i: int|
                0 <= i < ex.tris@.len() ==> #[trigger] ex.tris@[i] == spec_reconstructed_tri(
                    collision.collision.edges@,
                    collision.collision.tris@,
                    collision.collision.tri_material_indices@,
                    collision.collision.collision_materials@,
                    i,
                ))
            &&& (forall|j: int, k: int|
                0 <= j < k < ex.material_defs@.len() ==> (#[trigger] ex.material_defs@[j]).0 != (
                #[trigger] ex.material_defs@[k]).0)
            &&& (forall|i: int|
                0 <= i < collision.collision.collision_materials@.len() ==> map_has_key(
                    ex.material_defs@,
                    #[trigger] collision.collision.collision_materials@[i],
                ))
            &&& (forall|j: int|
                0 <= j < ex.material_defs@.len() ==> def_matches(
                    (#[trigger] ex.material_defs@[j]).0,
                    ex.material_defs@[j].1,
                ))
            &&& (forall|j: int, k: int|
                0 <= j < k < ex.unique_defs@.len() ==> !crate::model_creation::def_eq(
                    #[trigger] ex.unique_defs@[j],
                    #[trigger] ex.unique_defs@[k],
                ))
            &&& (forall|i: int|
                0 <= i < ex.material_defs@.len() ==> defs_contain(
                    ex.unique_defs@,
                    (#[trigger] ex.material_defs@[i]).1,
                ))
            &&& defs_from(ex.unique_defs@, ex.material_defs@)
            &&& ex.obj_groups@.len() == collision.collision.collision_materials@.len()
            &&& (forall|g: int|
                0 <= g < ex.obj_groups@.len() ==> (#[trigger] ex.obj_groups@[g]).faces@
                    == crate::model_creation::spec_faces(
                    ex.tris@,
                    collision.collision.tri_material_indices@,
                    g,
                    ex.tris@.len() as int,
                ))
        },
{
    let verts = copy_verts(&collision.collision.verts);
    let edges = copy_edges(&collision.collision.edges);
    let raw_tris = copy_tris(&collision.collision.tris);
    let tri_material_indices = copy_bytes(&collision.collision.tri_material_indices);
    let collision_materials = copy_words(&collision.collision.collision_materials);
    let tris = match reconstruct_triangles(
        &collision.collision.edges,
        &collision.collision.tris,
        &collision.collision.tri_material_indices,
        &collision.collision.collision_materials,
    ) {
        Ok(t) => t,
        Err(e) => {
            return Err(e);
        },
    };
    let material_defs = create_material_defs(&collision.collision.collision_materials);
    let unique_defs = unique_material_defs(&material_defs);
    let obj_groups = match build_obj_groups(
        &collision.collision.collision_materials,
        &collision.collision.tri_material_indices,
        &material_defs,
        &tris,
    ) {
        Ok(g) => g,
        Err(e) => {
            return Err(e);
        },
    };
    Ok(
        RoomExport {
            pak_name,
            room_name,
            verts,
            edges,
            raw_tris,
            tri_material_indices,
            collision_materials,
            tris,
            material_defs,
            unique_defs,
            obj_groups,
        },
    )
}

fn copy_verts(v: &Vec<CollisionVert>) -> (r: Vec<CollisionVert>)
    ensures
        r@ == v@,
{
    let mut out: Vec<CollisionVert> = Vec::new();
    let mut i: usize = 0;
    while i < v.len()
        invariant
            i <= v@.len(),
            out@ == v@.take(i as int),
        decreases v@.len() - i,
    {
        out.push(v[i]);
        proof {
            assert(out@ =~= v@.take(i + 1));
        }
        i = i + 1;
    }
    proof {
        assert(v@.take(v@.len() as int) =~= v@);
    }
    out
}

fn copy_edges(v: &Vec<EdgeData>) -> (r: Vec<EdgeData>)
    ensures
        r@ == v@,
{
    let mut out: Vec<EdgeData> = Vec::new();
    let mut i: usize = 0;
    while i < v.len()
        invariant
            i <= v@.len(),
            out@ == v@.take(i as int),
        decreases v@.len() - i,
    {
        out.push(v[i]);
        proof {
            assert(out@ =~= v@.take(i + 1));
        }
        i = i + 1;
    }
    proof {
        assert(v@.take(v@.len() as int) =~= v@);
    }
    out
}

fn copy_tris(v: &Vec<TriData>) -> (r: Vec<TriData>)
    ensures
        r@ == v@,
{
    let mut out: Vec<TriData> = Vec::new();
    let mut i: usize = 0;
    while i < v.len()
        invariant
            i <= v@.len(),
            out@ == v@.take(i as int),
        decreases v@.len() - i,
    {
        out.push(v[i]);
        proof {
            assert(out@ =~= v@.take(i + 1));
        }
        i = i + 1;
    }
    proof {
        assert(v@.take(v@.len() as int) =~= v@);
    }
    out
}

fn copy_bytes(v: &Vec<u8>) -> (r: Vec<u8>)
    ensures
        r@ == v@,
{
    let mut out: Vec<u8> = Vec::new();
    let mut i: usize = 0;
    while i < v.len()
        invariant
            i <= v@.len(),
            out@ == v@.take(i as int),
        decreases v@.len() - i,
    {
        out.push(v[i]);
        proof {
            assert(out@ =~= v@.take(i + 1));
        }
        i = i + 1;
    }
    proof {
        assert(v@.take(v@.len() as int) =~= v@);
    }
    out
}

fn copy_words(v: &Vec<u32>) -> (r: Vec<u32>)
    ensures
        r@ == v@,
{
    let mut out: Vec<u32> = Vec::new();
    let mut i: usize = 0;
    while i < v.len()
        invariant
            i <= v@.len(),
            out@ == v@.take(i as int),
        decreases v@.len() - i,
    {
        out.push(v[i]);
        proof {
            assert(out@ =~= v@.take(i + 1));
        }
        i = i + 1;
    }
    proof {
        assert(v@.take(v@.len() as int) =~= v@);
    }
    out
}

/// Patch one room resource: decode its container (validating the declared
/// section-index ordering before any section is read), read its collision
/// and geometry-material sections, and derive its export data.  On success
/// the resource holds the decoded container, whose raw sections
/// re-serialize to the exact input bytes.
pub fn patch_mlvl(resource: &mut Resource, pak_name: String, room_name: String) -> (r: Result<
    RoomExport,
    String,
>)
    ensures
        r is Ok ==> (*final(resource)).kind is Area,
        r is Ok ==> ((*old(resource)).kind matches ResourceKind::Unknown(b, fc)
            ==> ((*final(resource)).kind matches ResourceKind::Area(m) ==> m.wf() && m.all_raw()
            && m.spec_serialize() == b@)),
        r matches Ok(ex) ==> ex.pak_name == pak_name && ex.room_name == room_name,
        r matches Ok(ex) ==> ((*final(resource)).kind matches ResourceKind::Area(m) ==> exists|
            c: AreaCollision,
        |
            {
                &&& #[trigger] c.wf()
                &&& (m.sections@[m.collision_section_idx as int] matches MreaSection::Unknown(sb)
                    && c.spec_serialize() == sb@.subrange(0, c.spec_size()))
                &&& ex.verts@ == c.collision.verts@
                &&& ex.edges@ == c.collision.edges@
                &&& ex.raw_tris@ == c.collision.tris@
                &&& ex.tri_material_indices@ == c.collision.tri_material_indices@
                &&& ex.collision_materials@ == c.collision.collision_materials@
                &&& ex.tris@.len() == c.collision.tris@.len()
                &&& (forall|i: int|
                    0 <= i < ex.tris@.len() ==> #[trigger] ex.tris@[i] == spec_reconstructed_tri(
                        c.collision.edges@,
                        c.collision.tris@,
                        c.collision.tri_material_indices@,
                        c.collision.collision_materials@,
                        i,
                    ))
            }),
        r is Err ==> *final(resource) == *old(resource),
        !((*old(resource)).kind is Unknown) ==> r is Err,
        (*old(resource)).kind matches ResourceKind::Unknown(b, fc) ==> (fc
            != crate::patcher::spec_mrea_fourcc() ==> r is Err),
{
    let m = match &resource.kind {
        ResourceKind::Unknown(b, fc) => {
            if !(fc.0 == 0x4D && fc.1 == 0x52 && fc.2 == 0x45 && fc.3 == 0x41) {
                return Err(String::from_str("resource does not carry a room container tag"));
            }
            if b.len() > 0xFFFF_FF00 {
                return Err(String::from_str("room container too large"));
            }
            match Mrea::read_from(b.as_slice()) {
                Ok(m) => m,
                Err(e) => {
                    return Err(String::from_str(e.describe()));
                },
            }
        },
        _ => {
            return Err(String::from_str("resource payload is already decoded"));
        },
    };
    let collision_view = match m.collision_section() {
        Ok(c) => c,
        Err(e) => {
            return Err(String::from_str(e.describe()));
        },
    };
    // The export pass reads the room's geometry material set alongside the
    // collision, so a malformed set is still a loud failure even though
    // only the collision is exported.
    match m.materials_section() {
        Ok(mats) => mats,
        Err(e) => {
            return Err(String::from_str(e.describe()));
        },
    };
    let export = match build_room_export(collision_view.get(), pak_name, room_name) {
        Ok(ex) => ex,
        Err(e) => {
            return Err(String::from_str(e.describe()));
        },
    };
    let ghost cwit = collision_view.value();
    proof {
        assert(cwit.wf());
    }
    resource.kind = ResourceKind::Area(m);
    Ok(export)
}

/// The patch registered for every known room: derives the room's collision
/// export and collects it; the file writing happens outside the engine.
#[derive(Debug)]
pub struct CollisionModelPatch {
    pub pak_name: String,
    pub room_name: String,
    pub exports: Vec<RoomExport>,
}

impl ResourcePatch for CollisionModelPatch {
    fn apply(&mut self, resource: &mut Resource) -> Result<(), String> {
        let pak_name = self.pak_name.clone();
        let room_name = self.room_name.clone();
        match patch_mlvl(resource, pak_name, room_name) {
            Ok(export) => {
                self.exports.push(export);
                Ok(())
            },
            Err(e) => Err(e),
        }
    }
}

/// One known room of the injected room table: which pak holds it, its room
/// container id, and its display name.
#[derive(Debug, Clone)]
pub struct RoomSpec {
    pub pak_name: String,
    pub mrea_id: u32,
    pub room_name: String,
}

/// Register one collision-export patch per known room, keyed by the room's
/// enclosing pak name, container id, and the room container tag.
pub fn build_collision_patches(rooms: &Vec<RoomSpec>) -> (r: PatchEngine<CollisionModelPatch>)
    ensures
        r.patches@.len() == rooms@.len(),
        forall|i: int|
            0 <= i < rooms@.len() ==> {
                let entry = #[trigger] r.patches@[i];
                &&& entry.0.file_id == rooms@[i].mrea_id
                &&& entry.0.fourcc == crate::patcher::spec_mrea_fourcc()
                &&& entry.0.pak_names@.len() == 1
                &&& entry.0.pak_names@[0]@ == vstd::utf8::encode_utf8(rooms@[i].pak_name@)
                &&& entry.1.exports@.len() == 0
            },
{
    let mut engine: PatchEngine<CollisionModelPatch> = PatchEngine::new();
    let mut i: usize = 0;
    while i < rooms.len()
        invariant
            i <= rooms@.len(),
            engine.patches@.len() == i,
            forall|j: int|
                0 <= j < i ==> {
                    let entry = #[trigger] engine.patches@[j];
                    &&& entry.0.file_id == rooms@[j].mrea_id
                    &&& entry.0.fourcc == crate::patcher::spec_mrea_fourcc()
                    &&& entry.0.pak_names@.len() == 1
                    &&& entry.0.pak_names@[0]@ == vstd::utf8::encode_utf8(rooms@[j].pak_name@)
                    &&& entry.1.exports@.len() == 0
                },
        decreases rooms@.len() - i,
    {
        let room = &rooms[i];
        let mut pak_names: Vec<Vec<u8>> = Vec::new();
        pak_names.push(room.pak_name.as_str().as_bytes_vec());
        let key = PatchKey { pak_names, file_id: room.mrea_id, fourcc: mrea_fourcc() };
        let patch = CollisionModelPatch {
            pak_name: room.pak_name.clone(),
            room_name: room.room_name.clone(),
            exports: Vec::new(),
        };
        let ghost e0 = engine.patches@;
        engine.add_resource_patch(key, patch);
        proof {
            assert forall|j: int|
                0 <= j < i + 1 implies {
                let entry = #[trigger] engine.patches@[j];
                &&& entry.0.file_id == rooms@[j].mrea_id
                &&& entry.0.fourcc == crate::patcher::spec_mrea_fourcc()
                &&& entry.0.pak_names@.len() == 1
                &&& entry.0.pak_names@[0]@ == vstd::utf8::encode_utf8(rooms@[j].pak_name@)
                &&& entry.1.exports@.len() == 0
            } by {
                if j < i as int {
                    assert(engine.patches@[j] == e0[j]);
                }
            }
        }
        i = i + 1;
    }
    engine
}

/// Whether one room of the table selects a resource with the given
/// coordinates: its pak name in UTF-8, its container id, and the room tag.
pub open spec fn spec_room_matches(room: RoomSpec, name: Seq<u8>, id: u32, fourcc: FourCC) -> bool {
    &&& name == vstd::utf8::encode_utf8(room.pak_name@)
    &&& id == room.mrea_id
    &&& fourcc == crate::patcher::spec_mrea_fourcc()
}

/// The first room of the table, scanning from `i`, that selects the given
/// coordinates.
pub open spec fn spec_first_room_match_from(
    rooms: Seq<RoomSpec>,
    i: int,
    name: Seq<u8>,
    id: u32,
    fourcc: FourCC,
) -> Option<int>
    decreases rooms.len() - i,
{
    if i < 0 || i >= rooms.len() {
        None
    } else if spec_room_matches(rooms[i], name, id, fourcc) {
        Some(i)
    } else {
        spec_first_room_match_from(rooms, i + 1, name, id, fourcc)
    }
}

/// The room (if any) whose patch a run dispatches to resource `ri` of pak
/// `pi`.
pub open spec fn spec_room_res_match(
    rooms: Seq<RoomSpec>,
    archive: Archive,
    pi: int,
    ri: int,
) -> Option<int> {
    spec_first_room_match_from(
        rooms,
        0,
        archive.paks@[pi].name@,
        archive.paks@[pi].resources@[ri].file_id,
        archive.paks@[pi].resources@[ri].kind.spec_fourcc(),
    )
}

/// The engine built from a room table dispatches exactly as the table
/// reads: its key scan and the room scan pick the same first match.
pub proof fn lemma_room_match_agrees(
    patches: Seq<(PatchKey, CollisionModelPatch)>,
    rooms: Seq<RoomSpec>,
    i: int,
    name: Seq<u8>,
    id: u32,
    fourcc: FourCC,
)
    requires
        patches.len() == rooms.len(),
        forall|j: int|
            0 <= j < rooms.len() ==> {
                let entry = #[trigger] patches[j];
                &&& entry.0.file_id == rooms[j].mrea_id
                &&& entry.0.fourcc == crate::patcher::spec_mrea_fourcc()
                &&& entry.0.pak_names@.len() == 1
                &&& entry.0.pak_names@[0]@ == vstd::utf8::encode_utf8(rooms[j].pak_name@)
            },
        0 <= i,
    ensures
        spec_first_match_from(patches, i, name, id, fourcc) == spec_first_room_match_from(
            rooms,
            i,
            name,
            id,
            fourcc,
        ),
    decreases patches.len() - i,
{
    if i < patches.len() {
        assert(spec_key_matches(patches[i].0, name, id, fourcc) <==> spec_room_matches(
            rooms[i],
            name,
            id,
            fourcc,
        )) by {
            if spec_room_matches(rooms[i], name, id, fourcc) {
                assert((patches[i].0.pak_names@[0])@ == name);
            }
        }
        lemma_room_match_agrees(patches, rooms, i + 1, name, id, fourcc);
    }
}

/// Build the collision patches for the given room table and run them over
/// the archive in one pass, collecting every room's export data in patch
/// registration order.  The run's guarantees carry over to the table: a
/// resource matching no room is left byte-identical, the log lists exactly
/// the dispatched resources, every room is dispatched at least once on
/// success, and a room whose key matches nothing aborts the run with its
/// index.
#[verifier::rlimit(100)]
#[verifier::spinoff_prover]
pub fn build_and_run_collision_patches(archive: &mut Archive, rooms: &Vec<RoomSpec>) -> (r: Result<
    (Vec<RoomExport>, Vec<PatchApplication>),
    PatchError,
>)
    ensures
        final(archive).paks@.len() == old(archive).paks@.len(),
        forall|pi: int|
            0 <= pi < old(archive).paks@.len() ==> (#[trigger] final(archive).paks@[pi]).name@
                == old(archive).paks@[pi].name@ && final(archive).paks@[pi].resources@.len()
                == old(archive).paks@[pi].resources@.len(),
        forall|pi: int, ri: int|
            0 <= pi < old(archive).paks@.len() && 0 <= ri < old(
                archive,
            ).paks@[pi].resources@.len() && spec_room_res_match(rooms@, *old(archive), pi, ri)
                is None ==> #[trigger] final(archive).paks@[pi].resources@[ri] == old(
                archive,
            ).paks@[pi].resources@[ri],
        r matches Ok(out) ==> {
            &&& forall|j: int|
                0 <= j < out.1@.len() ==> {
                    let a = #[trigger] out.1@[j];
                    &&& 0 <= a.pak < old(archive).paks@.len()
                    &&& 0 <= a.resource < old(archive).paks@[a.pak as int].resources@.len()
                    &&& Some(a.patch as int) == spec_room_res_match(
                        rooms@,
                        *old(archive),
                        a.pak as int,
                        a.resource as int,
                    )
                }
            &&& forall|j1: int, j2: int|
                0 <= j1 < j2 < out.1@.len() ==> ((#[trigger] out.1@[j1]).pak,
                out.1@[j1].resource) != ((#[trigger] out.1@[j2]).pak, out.1@[j2].resource)
            &&& forall|pi: int, ri: int|
                0 <= pi < old(archive).paks@.len() && 0 <= ri < old(
                    archive,
                ).paks@[pi].resources@.len() && (#[trigger] spec_room_res_match(
                    rooms@,
                    *old(archive),
                    pi,
                    ri,
                )) is Some ==> exists|j: int|
                    0 <= j < out.1@.len() && (#[trigger] out.1@[j]).pak == pi
                        && out.1@[j].resource == ri
            &&& forall|k: int|
                0 <= k < rooms@.len() ==> #[trigger] spec_log_covers_patch(out.1@, k)
        },
        r matches Err(e) ==> (e matches PatchError::NeverApplied(k) ==> {
            &&& (k as int) < rooms@.len()
            &&& forall|pi: int, ri: int|
                0 <= pi < old(archive).paks@.len() && 0 <= ri < old(
                    archive,
                ).paks@[pi].resources@.len() ==> #[trigger] spec_room_res_match(
                    rooms@,
                    *old(archive),
                    pi,
                    ri,
                ) != Some(k as int)
        }),
{
    let mut engine = build_collision_patches(rooms);
    let ghost keys = engine.patches@;
    let run_result = engine.run(archive);
    proof {
        assert forall|pi: int, ri: int|
            0 <= pi < old(archive).paks@.len() && 0 <= ri < old(
            archive,
        ).paks@[pi].resources@.len() implies #[trigger] spec_room_res_match(
            rooms@,
            *old(archive),
            pi,
            ri,
        ) == spec_res_match(keys, *old(archive), pi, ri) by {
            lemma_room_match_agrees(
                keys,
                rooms@,
                0,
                old(archive).paks@[pi].name@,
                old(archive).paks@[pi].resources@[ri].file_id,
                old(archive).paks@[pi].resources@[ri].kind.spec_fourcc(),
            );
        }
    }
    let log = match run_result {
        Ok(log) => log,
        Err(e) => {
            return Err(e);
        },
    };
    let mut exports: Vec<RoomExport> = Vec::new();
    let mut patches = engine.patches;
    let n = patches.len();
    let mut i: usize = 0;
    while i < n
        invariant
            i <= n,
            n - i == patches@.len(),
        decreases n - i,
    {
        let (_key, mut patch) = patches.remove(0);
        let mut j: usize = 0;
        let m = patch.exports.len();
        while j < m
            invariant
                j <= m,
                m - j == patch.exports@.len(),
            decreases m - j,
        {
            let ex = patch.exports.remove(0);
            exports.push(ex);
            j = j + 1;
        }
        i = i + 1;
    }
    Ok((exports, log))
}

/// Build the in-game texture resource for one distinct material look from
/// its drawn RGBA image: convert the pixels to the 4-bit block format and
/// wrap them in a texture record addressed by the material's deterministic
/// texture identity.
pub fn build_game_texture(
    def: &GeometryMaterialDefinition,
    rgba: &Vec<u8>,
    width: u32,
    height: u32,
) -> (r: Result<Resource, FormatError>)
    requires
        rgba@.len() == 4 * (width as int) * (height as int),
    ensures
        r is Ok <==> (width as int) * (height as int) / 2 <= 0xFFFF_0000,
        r matches Err(e) ==> e == FormatError::OversizedRecord,
        r matches Ok(res) ==> {
            &&& res.file_id == crate::model_creation::spec_texture_id(*def)
            &&& res.compressed == false
            &&& res.kind matches ResourceKind::External(b, fc) && {
                &&& fc == (spec_txtr_fourcc())
                &&& b@.len() == 12 + (width as int) * (height as int) / 2
                &&& b@.subrange(0, 12) == spec_be32(TXTR_FORMAT_I4) + spec_be16(width as u16)
                    + spec_be16(height as u16) + spec_be32(1)
                &&& (forall|p: int|
                    0 <= p < ((width as int) / 8) * ((height as int) / 8) * 32
                        ==> #[trigger] b@[12 + p] == crate::model_creation::spec_i4_byte(
                        rgba@,
                        width as int,
                        (width as int) / 8,
                        p,
                    ))
                &&& (forall|p: int|
                    ((width as int) / 8) * ((height as int) / 8) * 32 <= p < (width as int) * (
                    height as int) / 2 ==> #[trigger] b@[12 + p] == 0u8)
            }
        },
{
    let i4 = crate::model_creation::convert_to_i4(rgba, width, height);
    if i4.len() > 0xFFFF_0000 {
        return Err(FormatError::OversizedRecord);
    }
    let mut pixel_data: Vec<Vec<u8>> = Vec::new();
    pixel_data.push(i4);
    let w16 = #[verifier::truncate] (width as u16);
    let h16 = #[verifier::truncate] (height as u16);
    let txtr = Txtr { format: TXTR_FORMAT_I4, width: w16, height: h16, pixel_data };
    proof {
        crate::txtr::lemma_mip_lens(txtr.pixel_data@);
        assert(txtr.pixel_data@.len() == 1);
        assert(txtr.pixel_data@.drop_last() =~= Seq::<Vec<u8>>::empty());
        assert(crate::txtr::spec_mip_total(txtr.pixel_data@) == crate::txtr::spec_mip_total(
            txtr.pixel_data@.drop_last(),
        ) + txtr.pixel_data@.last()@.len());
        assert(crate::txtr::spec_mip_total(txtr.pixel_data@) <= 0xFFFF_0000);
        assert(txtr.wf());
    }
    let mut txtr_bytes: Vec<u8> = Vec::new();
    txtr.write_to(&mut txtr_bytes);
    proof {
        let header = spec_be32(TXTR_FORMAT_I4) + spec_be16(width as u16) + spec_be16(
            height as u16,
        ) + spec_be32(1);
        assert(crate::txtr::spec_mip_blobs(txtr.pixel_data@) == crate::txtr::spec_mip_blobs(
            txtr.pixel_data@.drop_last(),
        ) + txtr.pixel_data@.last()@);
        assert(txtr_bytes@.subrange(0, 12) =~= header);
        assert(txtr_bytes@.subrange(12, txtr_bytes@.len() as int)
            =~= txtr.pixel_data@.last()@);
        assert forall|p: int|
            0 <= p < txtr.pixel_data@.last()@.len() implies txtr_bytes@[12 + p]
            == txtr.pixel_data@.last()@[p] by {
            assert(txtr.pixel_data@.last()@[p] == txtr_bytes@.subrange(
                12,
                txtr_bytes@.len() as int,
            )[p]);
        }
        assert(((width as int) / 8) * ((height as int) / 8) * 64 <= (width as int) * (
        height as int)) by (nonlinear_arith)
            requires
                width as int >= 0 && height as int >= 0,
        ;
        assert(((width as int) / 8) * ((height as int) / 8) * 32 <= (width as int) * (
        height as int) / 2) by (nonlinear_arith)
            requires
                ((width as int) / 8) * ((height as int) / 8) * 64 <= (width as int) * (
                height as int),
        ;
        assert forall|p: int|
            0 <= p < ((width as int) / 8) * ((height as int) / 8) * 32 implies #[trigger] txtr_bytes@[12
            + p] == crate::model_creation::spec_i4_byte(
            rgba@,
            width as int,
            (width as int) / 8,
            p,
        ) by {
            assert(0 <= p < txtr.pixel_data@.last()@.len());
            assert(txtr_bytes@[12 + p] == txtr.pixel_data@.last()@[p]);
        }
        assert(((width as int) / 8) * ((height as int) / 8) * 32 >= 0) by (nonlinear_arith)
            requires
                width as int >= 0 && height as int >= 0,
        ;
        assert forall|p: int|
            ((width as int) / 8) * ((height as int) / 8) * 32 <= p < (width as int) * (
            height as int) / 2 implies #[trigger] txtr_bytes@[12 + p] == 0u8 by {
            assert(0 <= p < txtr.pixel_data@.last()@.len());
            assert(txtr_bytes@[12 + p] == txtr.pixel_data@.last()@[p]);
        }
    }
    let id = def.texture_id();
    Ok(
        Resource {
            compressed: false,
            file_id: id,
            kind: ResourceKind::External(txtr_bytes, txtr_fourcc()),
        },
    )
}

/// The tag of a texture resource.
pub open spec fn spec_txtr_fourcc() -> crate::patcher::FourCC {
    crate::patcher::FourCC(0x54, 0x58, 0x54, 0x52)
}

/// The tag of a texture resource (`TXTR` in ASCII).
pub fn txtr_fourcc() -> (r: crate::patcher::FourCC)
    ensures
        r == spec_txtr_fourcc(),
{
    crate::patcher::FourCC(0x54, 0x58, 0x54, 0x52)
}

} // verus!
