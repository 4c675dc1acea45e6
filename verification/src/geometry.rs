use crate::collision::EdgeData;
use crate::collision::TriData;
use crate::errors::FormatError;
use crate::flags::CollisionMaterialFlags;
use vstd::prelude::*;

verus! {

/// Second half of the reconstruction: `a` and `b` are fixed, and `c` is
/// whichever endpoint of the remaining edge is not `b`.  `None` when neither
/// endpoint matches, i.e. the three edges do not close into a 3-cycle.
pub open spec fn spec_third_vertex(a: u16, b: u16, other: EdgeData) -> Option<TriData> {
    if b == other.a {
        Some(TriData { a, b, c: other.b })
    } else if b == other.b {
        Some(TriData { a, b, c: other.a })
    } else {
        None
    }
}

/// Reconstruction of one oriented vertex triple from three stored edges, in
/// stored order, before the winding fix-up.  `a` is the first endpoint of the
/// first edge; the edge sharing `a` is found by testing, in this exact
/// priority order, the first then second endpoint of the second edge, then
/// the first then second endpoint of the third; the first match contributes
/// `b` as its other endpoint.  `None` when no endpoint matches.
pub open spec fn spec_reconstruct(e1: EdgeData, e2: EdgeData, e3: EdgeData) -> Option<TriData> {
    if e1.a == e2.a {
        spec_third_vertex(e1.a, e2.b, e3)
    } else if e1.a == e2.b {
        spec_third_vertex(e1.a, e2.a, e3)
    } else if e1.a == e3.a {
        spec_third_vertex(e1.a, e3.b, e2)
    } else if e1.a == e3.b {
        spec_third_vertex(e1.a, e3.a, e2)
    } else {
        None
    }
}

/// The winding fix-up: a triangle whose material carries the
/// redundant-edge-or-flipped bit is emitted as computed, any other is
/// reversed.  This compensates a storage-time winding convention that is
/// only known empirically from the flag.
pub open spec fn spec_wind(t: TriData, flipped: bool) -> TriData {
    if flipped {
        t
    } else {
        TriData { a: t.c, b: t.b, c: t.a }
    }
}

/// Reconstruct one triangle's oriented vertex indices from its three edges.
///
/// Fails loudly (never guesses) when the edges do not pairwise share the
/// endpoints a closed triangle requires.
pub fn reconstruct_tri(e1: EdgeData, e2: EdgeData, e3: EdgeData, flipped: bool) -> (r: Result<
    TriData,
    FormatError,
>)
    ensures
        r is Ok <==> spec_reconstruct(e1, e2, e3) is Some,
        r matches Ok(t) ==> t == spec_wind(spec_reconstruct(e1, e2, e3).unwrap(), flipped),
        r matches Err(e) ==> e == FormatError::BrokenTriangle,
{
    let a = e1.a;
    let (b, other_edge) = if e1.a == e2.a {
        (e2.b, e3)
    } else if e1.a == e2.b {
        (e2.a, e3)
    } else if e1.a == e3.a {
        (e3.b, e2)
    } else if e1.a == e3.b {
        (e3.a, e2)
    } else {
        return Err(FormatError::BrokenTriangle);
    };
    let c = if b == other_edge.a {
        other_edge.b
    } else if b == other_edge.b {
        other_edge.a
    } else {
        return Err(FormatError::BrokenTriangle);
    };
    if flipped {
        Ok(TriData { a, b, c })
    } else {
        Ok(TriData { a: c, b, c: a })
    }
}

/// Whether triangle `i` of a collision index can be reconstructed: its
/// material index and its three edge indices are in range, and its edges
/// close into a 3-cycle.
pub open spec fn spec_tri_ok(
    edges: Seq<EdgeData>,
    tris: Seq<TriData>,
    tri_material_indices: Seq<u8>,
    collision_materials: Seq<u32>,
    i: int,
) -> bool {
    &&& (tri_material_indices[i] as int) < collision_materials.len()
    &&& (tris[i].a as int) < edges.len()
    &&& (tris[i].b as int) < edges.len()
    &&& (tris[i].c as int) < edges.len()
    &&& spec_reconstruct(
        edges[tris[i].a as int],
        edges[tris[i].b as int],
        edges[tris[i].c as int],
    ) is Some
}

/// The reconstructed, winding-fixed vertex triple of triangle `i`.
pub open spec fn spec_reconstructed_tri(
    edges: Seq<EdgeData>,
    tris: Seq<TriData>,
    tri_material_indices: Seq<u8>,
    collision_materials: Seq<u32>,
    i: int,
) -> TriData {
    spec_wind(
        spec_reconstruct(
            edges[tris[i].a as int],
            edges[tris[i].b as int],
            edges[tris[i].c as int],
        ).unwrap(),
        collision_materials[tri_material_indices[i] as int]
            & CollisionMaterialFlags::RedundantEdgeOrFlippedTri.spec_mask() != 0,
    )
}

/// Reconstruct every triangle of a collision index: for each stored
/// edge-index triple, recover the oriented vertex triple, winding-fixed by
/// the redundant-edge-or-flipped bit of the triangle's material.
///
/// Succeeds exactly when every triangle has a material index and reconstructs
/// cleanly; any out-of-range index or open triangle is a fatal
/// data-integrity error, never a best-effort guess.
pub fn reconstruct_triangles(
    edges: &Vec<EdgeData>,
    tris: &Vec<TriData>,
    tri_material_indices: &Vec<u8>,
    collision_materials: &Vec<u32>,
) -> (r: Result<Vec<TriData>, FormatError>)
    ensures
        r is Ok <==> (tris@.len() <= tri_material_indices@.len() && (forall|i: int|
            0 <= i < tris@.len() ==> #[trigger] spec_tri_ok(
                edges@,
                tris@,
                tri_material_indices@,
                collision_materials@,
                i,
            ))),
        r matches Ok(out) ==> {
            &&& out@.len() == tris@.len()
            &&& forall|i: int|
                0 <= i < tris@.len() ==> #[trigger] out@[i] == spec_reconstructed_tri(
                    edges@,
                    tris@,
                    tri_material_indices@,
                    collision_materials@,
                    i,
                )
        },
        r matches Err(e) ==> e == FormatError::IndexOutOfRange || e
            == FormatError::BrokenTriangle,
{
    let mut out: Vec<TriData> = Vec::new();
    if tri_material_indices.len() < tris.len() {
        return Err(FormatError::IndexOutOfRange);
    }
    let n = tris.len();
    let mut i: usize = 0;
    while i < n
        invariant
            n == tris@.len(),
            tris@.len() <= tri_material_indices@.len(),
            i <= n,
            out@.len() == i,
            forall|j: int|
                0 <= j < i ==> #[trigger] spec_tri_ok(
                    edges@,
                    tris@,
                    tri_material_indices@,
                    collision_materials@,
                    j,
                ),
            forall|j: int|
                0 <= j < i ==> #[trigger] out@[j] == spec_reconstructed_tri(
                    edges@,
                    tris@,
                    tri_material_indices@,
                    collision_materials@,
                    j,
                ),
        decreases n - i,
    {
        let tri = tris[i];
        let mat_idx = tri_material_indices[i];
        if (mat_idx as usize) >= collision_materials.len() {
            proof {
                assert(!spec_tri_ok(
                    edges@,
                    tris@,
                    tri_material_indices@,
                    collision_materials@,
                    i as int,
                ));
            }
            return Err(FormatError::IndexOutOfRange);
        }
        let tri_material = collision_materials[mat_idx as usize];
        if (tri.a as usize) >= edges.len() || (tri.b as usize) >= edges.len() || (tri.c as usize)
            >= edges.len() {
            proof {
                assert(!spec_tri_ok(
                    edges@,
                    tris@,
                    tri_material_indices@,
                    collision_materials@,
                    i as int,
                ));
            }
            return Err(FormatError::IndexOutOfRange);
        }
        let e1 = edges[tri.a as usize];
        let e2 = edges[tri.b as usize];
        let e3 = edges[tri.c as usize];
        let flipped = tri_material & CollisionMaterialFlags::RedundantEdgeOrFlippedTri.mask() != 0;
        let t = match reconstruct_tri(e1, e2, e3, flipped) {
            Ok(t) => t,
            Err(e) => {
                proof {
                    assert(!spec_tri_ok(
                        edges@,
                        tris@,
                        tri_material_indices@,
                        collision_materials@,
                        i as int,
                    ));
                }
                return Err(e);
            },
        };
        out.push(t);
        proof {
            assert(out@[i as int] == spec_reconstructed_tri(
                edges@,
                tris@,
                tri_material_indices@,
                collision_materials@,
                i as int,
            ));
        }
        i = i + 1;
    }
    Ok(out)
}

} // verus!
