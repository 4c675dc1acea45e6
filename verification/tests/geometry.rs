use mrea_patch::collision::EdgeData;
use mrea_patch::collision::TriData;
use mrea_patch::errors::FormatError;
use mrea_patch::geometry::reconstruct_tri;
use mrea_patch::geometry::reconstruct_triangles;

fn edge(a: u16, b: u16) -> EdgeData {
    EdgeData { a, b }
}

#[test]
fn triangle_reconstruction_deterministic() {
    // Edges (0,1), (1,2), (2,0): the first edge's first endpoint 0 matches
    // the third edge's second endpoint, so b is that edge's other endpoint
    // 2, and c is the remaining edge's endpoint that is not b, giving
    // (0, 2, 1); with the winding flag clear the triple is reversed.
    let e1 = edge(0, 1);
    let e2 = edge(1, 2);
    let e3 = edge(2, 0);
    let flagged = reconstruct_tri(e1, e2, e3, true).expect("closed triangle");
    assert_eq!(flagged, TriData { a: 0, b: 2, c: 1 });
    let unflagged = reconstruct_tri(e1, e2, e3, false).expect("closed triangle");
    assert_eq!(unflagged, TriData { a: 1, b: 2, c: 0 });
}

#[test]
fn reconstruction_priority_order() {
    // The first endpoint of the first edge is tested against the second
    // edge's endpoints first: with e2 = (0, 5) the match is e2's first
    // endpoint, so b = 5 and e3 supplies c.
    let t = reconstruct_tri(edge(0, 1), edge(0, 5), edge(5, 1), true).expect("closed triangle");
    assert_eq!(t, TriData { a: 0, b: 5, c: 1 });
}

#[test]
fn reconstruction_failure_is_loud() {
    // Three edges with no shared endpoints must fail, never guess.
    assert_eq!(
        reconstruct_tri(edge(0, 1), edge(2, 3), edge(4, 5), false),
        Err(FormatError::BrokenTriangle)
    );
    // A partial match that cannot close the cycle fails too.
    assert_eq!(
        reconstruct_tri(edge(0, 1), edge(0, 2), edge(7, 8), false),
        Err(FormatError::BrokenTriangle)
    );
}

#[test]
fn whole_mesh_reconstruction() {
    let edges = vec![edge(0, 1), edge(1, 2), edge(2, 0), edge(1, 3), edge(3, 2)];
    // Triangle 0 uses edges 0,1,2 (material 0, flag clear: reversed);
    // triangle 1 uses edges 3,4,1 (material 1, flag set: as computed).
    let tris = vec![TriData { a: 0, b: 1, c: 2 }, TriData { a: 3, b: 4, c: 1 }];
    let tmi = vec![0u8, 1];
    let materials = vec![0u32, 0x0200_0000];
    let out = reconstruct_triangles(&edges, &tris, &tmi, &materials).expect("mesh should close");
    assert_eq!(out.len(), 2);
    assert_eq!(out[0], TriData { a: 1, b: 2, c: 0 });
    // Triangle 1: e1=(1,3), e2=(3,2), e3=(1,2): 1 == e3.a, so b = 2,
    // other edge is e2, c = 3; flag set keeps (1, 2, 3).
    assert_eq!(out[1], TriData { a: 1, b: 2, c: 3 });
}

#[test]
fn mesh_with_out_of_range_edge_index_rejected() {
    let edges = vec![edge(0, 1), edge(1, 2), edge(2, 0)];
    let tris = vec![TriData { a: 0, b: 1, c: 9 }];
    let tmi = vec![0u8];
    let materials = vec![0u32];
    assert_eq!(
        reconstruct_triangles(&edges, &tris, &tmi, &materials),
        Err(FormatError::IndexOutOfRange)
    );
}

#[test]
fn mesh_with_missing_material_index_rejected() {
    let edges = vec![edge(0, 1), edge(1, 2), edge(2, 0)];
    let tris = vec![TriData { a: 0, b: 1, c: 2 }];
    let tmi: Vec<u8> = Vec::new();
    let materials = vec![0u32];
    assert_eq!(
        reconstruct_triangles(&edges, &tris, &tmi, &materials),
        Err(FormatError::IndexOutOfRange)
    );
}
