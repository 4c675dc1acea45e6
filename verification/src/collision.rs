use crate::bytes::push_be16;
use crate::bytes::push_be32;
use crate::bytes::push_be32_array;
use crate::bytes::push_bytes;
use crate::bytes::read_be32_array;
use crate::bytes::spec_be16;
use crate::bytes::spec_be32;
use crate::bytes::spec_be32_array;
use crate::bytes::spec_u32_at;
use crate::bytes::BinaryView;
use crate::errors::FormatError;
use vstd::prelude::*;

verus! {

/// An undirected edge of the collision mesh: a pair of vertex indices.
#[derive(Clone, Copy, Debug, PartialEq, Eq, Structural)]
pub struct EdgeData {
    pub a: u16,
    pub b: u16,
}

impl EdgeData {
    /// Exact serialized form: both endpoints, big-endian.
    pub open spec fn spec_serialize(self) -> Seq<u8> {
        spec_be16(self.a) + spec_be16(self.b)
    }

    pub fn read_from(v: &mut BinaryView) -> (r: Result<EdgeData, FormatError>)
        requires
            old(v).wf(),
        ensures
            final(v).wf(),
            final(v).data() == old(v).data(),
            r matches Ok(e) ==> {
                &&& final(v).position() == old(v).position() + 4
                &&& e.spec_serialize() == old(v).data().subrange(
                    old(v).position(),
                    old(v).position() + 4,
                )
            },
            r matches Err(e) ==> e == FormatError::Truncated && old(v).remaining() < 4,
            old(v).remaining() >= 4 ==> r is Ok,
    {
        let ghost p0 = v.position();
        let a = v.read_u16()?;
        let b = v.read_u16()?;
        proof {
            assert(spec_be16(a) + spec_be16(b) =~= old(v).data().subrange(p0, p0 + 4));
        }
        Ok(EdgeData { a, b })
    }

    pub fn write_to(&self, out: &mut Vec<u8>) -> (n: usize)
        ensures
            final(out)@ == old(out)@ + self.spec_serialize(),
            n == self.spec_serialize().len(),
    {
        push_be16(out, self.a);
        push_be16(out, self.b);
        4
    }

    /// The exact number of bytes [`Self::write_to`] emits.
    pub fn size(&self) -> (n: usize)
        ensures
            n == self.spec_serialize().len(),
    {
        4
    }
}

/// A triangle of the collision mesh.  As stored, the three fields index the
/// shared edge array; after reconstruction they are vertex indices.
#[derive(Clone, Copy, Debug, PartialEq, Eq, Structural)]
pub struct TriData {
    pub a: u16,
    pub b: u16,
    pub c: u16,
}

impl TriData {
    /// Exact serialized form: the three indices, big-endian.
    pub open spec fn spec_serialize(self) -> Seq<u8> {
        spec_be16(self.a) + spec_be16(self.b) + spec_be16(self.c)
    }

    pub fn read_from(v: &mut BinaryView) -> (r: Result<TriData, FormatError>)
        requires
            old(v).wf(),
        ensures
            final(v).wf(),
            final(v).data() == old(v).data(),
            r matches Ok(t) ==> {
                &&& final(v).position() == old(v).position() + 6
                &&& t.spec_serialize() == old(v).data().subrange(
                    old(v).position(),
                    old(v).position() + 6,
                )
            },
            r matches Err(e) ==> e == FormatError::Truncated && old(v).remaining() < 6,
            old(v).remaining() >= 6 ==> r is Ok,
    {
        let ghost p0 = v.position();
        let a = v.read_u16()?;
        let b = v.read_u16()?;
        let c = v.read_u16()?;
        proof {
            assert(spec_be16(a) + spec_be16(b) + spec_be16(c) =~= old(v).data().subrange(
                p0,
                p0 + 6,
            ));
        }
        Ok(TriData { a, b, c })
    }

    pub fn write_to(&self, out: &mut Vec<u8>) -> (n: usize)
        ensures
            final(out)@ == old(out)@ + self.spec_serialize(),
            n == self.spec_serialize().len(),
    {
        push_be16(out, self.a);
        push_be16(out, self.b);
        push_be16(out, self.c);
        6
    }

    /// The exact number of bytes [`Self::write_to`] emits.
    pub fn size(&self) -> (n: usize)
        ensures
            n == self.spec_serialize().len(),
    {
        6
    }
}


/// One collision vertex: three 32-bit floats carried as raw bit patterns.
/// The codec never interprets coordinates, it only carries them.
#[derive(Clone, Copy, Debug, PartialEq, Eq, Structural)]
pub struct CollisionVert {
    pub x: u32,
    pub y: u32,
    pub z: u32,
}

impl CollisionVert {
    /// Exact serialized form: the three coordinate words, big-endian.
    pub open spec fn spec_serialize(self) -> Seq<u8> {
        spec_be32(self.x) + spec_be32(self.y) + spec_be32(self.z)
    }

    pub fn read_from(v: &mut BinaryView) -> (r: Result<CollisionVert, FormatError>)
        requires
            old(v).wf(),
        ensures
            final(v).wf(),
            final(v).data() == old(v).data(),
            r matches Ok(t) ==> {
                &&& final(v).position() == old(v).position() + 12
                &&& t.spec_serialize() == old(v).data().subrange(
                    old(v).position(),
                    old(v).position() + 12,
                )
            },
            r matches Err(e) ==> e == FormatError::Truncated && old(v).remaining() < 12,
            old(v).remaining() >= 12 ==> r is Ok,
    {
        let ghost p0 = v.position();
        let x = v.read_u32()?;
        let y = v.read_u32()?;
        let z = v.read_u32()?;
        proof {
            assert(spec_be32(x) + spec_be32(y) + spec_be32(z) =~= old(v).data().subrange(
                p0,
                p0 + 12,
            ));
        }
        Ok(CollisionVert { x, y, z })
    }

    pub fn write_to(&self, out: &mut Vec<u8>) -> (n: usize)
        ensures
            final(out)@ == old(out)@ + self.spec_serialize(),
            n == self.spec_serialize().len(),
    {
        push_be32(out, self.x);
        push_be32(out, self.y);
        push_be32(out, self.z);
        12
    }

    /// The exact number of bytes [`Self::write_to`] emits.
    pub fn size(&self) -> (n: usize)
        ensures
            n == self.spec_serialize().len(),
    {
        12
    }
}

/// Concatenated serialization of a sequence of edges.
pub open spec fn spec_edge_array(s: Seq<EdgeData>) -> Seq<u8>
    decreases s.len(),
{
    if s.len() == 0 {
        Seq::empty()
    } else {
        spec_edge_array(s.drop_last()) + s.last().spec_serialize()
    }
}

pub proof fn lemma_edge_array_len(s: Seq<EdgeData>)
    ensures
        spec_edge_array(s).len() == 4 * s.len(),
    decreases s.len(),
{
    if s.len() > 0 {
        lemma_edge_array_len(s.drop_last());
    }
}

/// Concatenated serialization of a sequence of edge-index triangles.
pub open spec fn spec_tri_array(s: Seq<TriData>) -> Seq<u8>
    decreases s.len(),
{
    if s.len() == 0 {
        Seq::empty()
    } else {
        spec_tri_array(s.drop_last()) + s.last().spec_serialize()
    }
}

pub proof fn lemma_tri_array_len(s: Seq<TriData>)
    ensures
        spec_tri_array(s).len() == 6 * s.len(),
    decreases s.len(),
{
    if s.len() > 0 {
        lemma_tri_array_len(s.drop_last());
    }
}

/// Concatenated serialization of a sequence of vertices.
pub open spec fn spec_vert_array(s: Seq<CollisionVert>) -> Seq<u8>
    decreases s.len(),
{
    if s.len() == 0 {
        Seq::empty()
    } else {
        spec_vert_array(s.drop_last()) + s.last().spec_serialize()
    }
}

pub proof fn lemma_vert_array_len(s: Seq<CollisionVert>)
    ensures
        spec_vert_array(s).len() == 12 * s.len(),
    decreases s.len(),
{
    if s.len() > 0 {
        lemma_vert_array_len(s.drop_last());
    }
}

fn read_edge_array(v: &mut BinaryView, n: usize) -> (r: Result<Vec<EdgeData>, FormatError>)
    requires
        old(v).wf(),
    ensures
        final(v).wf(),
        final(v).data() == old(v).data(),
        r matches Ok(a) ==> {
            &&& a@.len() == n
            &&& final(v).position() == old(v).position() + 4 * n
            &&& spec_edge_array(a@) == old(v).data().subrange(
                old(v).position(),
                final(v).position(),
            )
        },
        r matches Err(e) ==> e == FormatError::Truncated && old(v).remaining() < 4 * n,
{
    let mut a: Vec<EdgeData> = Vec::new();
    let ghost start = v.position();
    let mut i: usize = 0;
    while i < n
        invariant
            old(v).wf(),
            v.wf(),
            v.data() == old(v).data(),
            start == old(v).position(),
            i <= n,
            a@.len() == i,
            v.position() == start + 4 * i,
            spec_edge_array(a@) == old(v).data().subrange(start, v.position()),
        decreases n - i,
    {
        let ghost pos0 = v.position();
        let ghost a0 = a@;
        let x = match EdgeData::read_from(v) {
            Ok(x) => x,
            Err(e) => {
                return Err(e);
            },
        };
        a.push(x);
        proof {
            assert(a@ =~= a0.push(x));
            assert(a@.drop_last() =~= a0);
            assert(a@.last() == x);
            assert(spec_edge_array(a@) == spec_edge_array(a0) + x.spec_serialize());
            crate::bytes::lemma_subrange_join(old(v).data(), start, pos0, v.position());
        }
        i = i + 1;
    }
    Ok(a)
}

fn write_edge_array(out: &mut Vec<u8>, a: &Vec<EdgeData>)
    ensures
        final(out)@ == old(out)@ + spec_edge_array(a@),
{
    let mut i: usize = 0;
    while i < a.len()
        invariant
            i <= a@.len(),
            out@ == old(out)@ + spec_edge_array(a@.take(i as int)),
        decreases a@.len() - i,
    {
        let x = a[i];
        x.write_to(out);
        proof {
            assert(a@.take(i + 1).drop_last() =~= a@.take(i as int));
            assert(a@.take(i + 1).last() == x);
            assert(spec_edge_array(a@.take(i + 1)) == spec_edge_array(a@.take(i as int))
                + x.spec_serialize());
        }
        i = i + 1;
    }
    proof {
        assert(a@.take(a@.len() as int) =~= a@);
    }
}

fn read_tri_array(v: &mut BinaryView, n: usize) -> (r: Result<Vec<TriData>, FormatError>)
    requires
        old(v).wf(),
    ensures
        final(v).wf(),
        final(v).data() == old(v).data(),
        r matches Ok(a) ==> {
            &&& a@.len() == n
            &&& final(v).position() == old(v).position() + 6 * n
            &&& spec_tri_array(a@) == old(v).data().subrange(
                old(v).position(),
                final(v).position(),
            )
        },
        r matches Err(e) ==> e == FormatError::Truncated && old(v).remaining() < 6 * n,
{
    let mut a: Vec<TriData> = Vec::new();
    let ghost start = v.position();
    let mut i: usize = 0;
    while i < n
        invariant
            old(v).wf(),
            v.wf(),
            v.data() == old(v).data(),
            start == old(v).position(),
            i <= n,
            a@.len() == i,
            v.position() == start + 6 * i,
            spec_tri_array(a@) == old(v).data().subrange(start, v.position()),
        decreases n - i,
    {
        let ghost pos0 = v.position();
        let ghost a0 = a@;
        let x = match TriData::read_from(v) {
            Ok(x) => x,
            Err(e) => {
                return Err(e);
            },
        };
        a.push(x);
        proof {
            assert(a@ =~= a0.push(x));
            assert(a@.drop_last() =~= a0);
            assert(a@.last() == x);
            assert(spec_tri_array(a@) == spec_tri_array(a0) + x.spec_serialize());
            crate::bytes::lemma_subrange_join(old(v).data(), start, pos0, v.position());
        }
        i = i + 1;
    }
    Ok(a)
}

fn write_tri_array(out: &mut Vec<u8>, a: &Vec<TriData>)
    ensures
        final(out)@ == old(out)@ + spec_tri_array(a@),
{
    let mut i: usize = 0;
    while i < a.len()
        invariant
            i <= a@.len(),
            out@ == old(out)@ + spec_tri_array(a@.take(i as int)),
        decreases a@.len() - i,
    {
        let x = a[i];
        x.write_to(out);
        proof {
            assert(a@.take(i + 1).drop_last() =~= a@.take(i as int));
            assert(a@.take(i + 1).last() == x);
            assert(spec_tri_array(a@.take(i + 1)) == spec_tri_array(a@.take(i as int))
                + x.spec_serialize());
        }
        i = i + 1;
    }
    proof {
        assert(a@.take(a@.len() as int) =~= a@);
    }
}

fn read_vert_array(v: &mut BinaryView, n: usize) -> (r: Result<Vec<CollisionVert>, FormatError>)
    requires
        old(v).wf(),
    ensures
        final(v).wf(),
        final(v).data() == old(v).data(),
        r matches Ok(a) ==> {
            &&& a@.len() == n
            &&& final(v).position() == old(v).position() + 12 * n
            &&& spec_vert_array(a@) == old(v).data().subrange(
                old(v).position(),
                final(v).position(),
            )
        },
        r matches Err(e) ==> e == FormatError::Truncated && old(v).remaining() < 12 * n,
{
    let mut a: Vec<CollisionVert> = Vec::new();
    let ghost start = v.position();
    let mut i: usize = 0;
    while i < n
        invariant
            old(v).wf(),
            v.wf(),
            v.data() == old(v).data(),
            start == old(v).position(),
            i <= n,
            a@.len() == i,
            v.position() == start + 12 * i,
            spec_vert_array(a@) == old(v).data().subrange(start, v.position()),
        decreases n - i,
    {
        let ghost pos0 = v.position();
        let ghost a0 = a@;
        let x = match CollisionVert::read_from(v) {
            Ok(x) => x,
            Err(e) => {
                return Err(e);
            },
        };
        a.push(x);
        proof {
            assert(a@ =~= a0.push(x));
            assert(a@.drop_last() =~= a0);
            assert(a@.last() == x);
            assert(spec_vert_array(a@) == spec_vert_array(a0) + x.spec_serialize());
            crate::bytes::lemma_subrange_join(old(v).data(), start, pos0, v.position());
        }
        i = i + 1;
    }
    Ok(a)
}

fn write_vert_array(out: &mut Vec<u8>, a: &Vec<CollisionVert>)
    ensures
        final(out)@ == old(out)@ + spec_vert_array(a@),
{
    let mut i: usize = 0;
    while i < a.len()
        invariant
            i <= a@.len(),
            out@ == old(out)@ + spec_vert_array(a@.take(i as int)),
        decreases a@.len() - i,
    {
        let x = a[i];
        x.write_to(out);
        proof {
            assert(a@.take(i + 1).drop_last() =~= a@.take(i as int));
            assert(a@.take(i + 1).last() == x);
            assert(spec_vert_array(a@.take(i + 1)) == spec_vert_array(a@.take(i as int))
                + x.spec_serialize());
        }
        i = i + 1;
    }
    proof {
        assert(a@.take(a@.len() as int) =~= a@);
    }
}



/// Byte offset just past an indexed collision mesh that starts at `pos`:
/// the seven count words each sized from the stored counts, the triangle
/// count taken as u16 indices, three per triangle.
pub open spec fn spec_collision_index_end(data: Seq<u8>, pos: int) -> int {
    let cm = spec_u32_at(data, pos) as int;
    let o1 = pos + 4 + 4 * cm;
    let vmi = spec_u32_at(data, o1) as int;
    let o2 = o1 + 4 + vmi;
    let emi = spec_u32_at(data, o2) as int;
    let o3 = o2 + 4 + emi;
    let tmi = spec_u32_at(data, o3) as int;
    let o4 = o3 + 4 + tmi;
    let ec = spec_u32_at(data, o4) as int;
    let o5 = o4 + 4 + 4 * ec;
    let tc = spec_u32_at(data, o5) as int;
    let o6 = o5 + 4 + 6 * (tc / 3);
    let vc = spec_u32_at(data, o6) as int;
    o6 + 4 + 12 * vc
}

/// Whether an indexed collision mesh decodes at `pos`: every stored count
/// leaves its array inside the data, and the stored triangle-index count
/// is divisible by three.
pub open spec fn spec_collision_index_parses(data: Seq<u8>, pos: int) -> bool {
    let len = data.len() as int;
    &&& pos + 4 <= len
    &&& {
        let cm = spec_u32_at(data, pos) as int;
        let o1 = pos + 4 + 4 * cm;
        &&& o1 + 4 <= len
        &&& {
            let vmi = spec_u32_at(data, o1) as int;
            let o2 = o1 + 4 + vmi;
            &&& o2 + 4 <= len
            &&& {
                let emi = spec_u32_at(data, o2) as int;
                let o3 = o2 + 4 + emi;
                &&& o3 + 4 <= len
                &&& {
                    let tmi = spec_u32_at(data, o3) as int;
                    let o4 = o3 + 4 + tmi;
                    &&& o4 + 4 <= len
                    &&& {
                        let ec = spec_u32_at(data, o4) as int;
                        let o5 = o4 + 4 + 4 * ec;
                        &&& o5 + 4 <= len
                        &&& {
                            let tc = spec_u32_at(data, o5) as int;
                            let o6 = o5 + 4 + 6 * (tc / 3);
                            &&& tc % 3 == 0
                            &&& o6 + 4 <= len
                            &&& {
                                let vc = spec_u32_at(data, o6) as int;
                                o6 + 4 + 12 * vc <= len
                            }
                        }
                    }
                }
            }
        }
    }
}

/// Whether a whole collision section decodes at `pos`: its marker, magic
/// and version words hold their constants, the octree blob and the indexed
/// mesh fit, and the stored size field equals the measured extent past it.
pub open spec fn spec_area_collision_parses(data: Seq<u8>, pos: int) -> bool {
    let len = data.len() as int;
    &&& pos + 8 <= len
    &&& spec_u32_at(data, pos) == COLLISION_UNKNOWN_WORD
    &&& pos + 16 <= len
    &&& spec_u32_at(data, pos + 8) == COLLISION_MAGIC
    &&& spec_u32_at(data, pos + 12) == COLLISION_VERSION
    &&& pos + 48 <= len
    &&& {
        let octsize = spec_u32_at(data, pos + 44) as int;
        let cstart = pos + 48 + octsize;
        &&& cstart <= len
        &&& spec_collision_index_parses(data, cstart)
        &&& (spec_u32_at(data, pos + 4) as int) == spec_collision_index_end(data, cstart) - (pos
            + 8)
    }
}

/// The indexed collision mesh of one room: parallel arrays of material
/// bitmasks, per-primitive material indices, shared edges, edge-indexed
/// triangles, and vertices.  The stored triangle count field counts u16
/// indices, three per triangle; every count is re-derived from its live
/// array on write.
#[derive(Debug, Clone, PartialEq)]
pub struct CollisionIndexData {
    pub collision_materials: Vec<u32>,
    pub vertex_material_indices: Vec<u8>,
    pub edge_material_indices: Vec<u8>,
    pub tri_material_indices: Vec<u8>,
    pub edges: Vec<EdgeData>,
    pub tris: Vec<TriData>,
    pub verts: Vec<CollisionVert>,
}

impl CollisionIndexData {
    /// Structural validity: the record fits the format's 32-bit size fields.
    pub open spec fn wf(self) -> bool {
        self.spec_size() <= 0xFFFF_FF00
    }

    /// The exact serialized length, counts re-derived from the live arrays.
    pub open spec fn spec_size(self) -> int {
        4 + 4 * (self.collision_materials@.len() as int) + 4 + self.vertex_material_indices@.len()
            + 4 + self.edge_material_indices@.len() + 4 + self.tri_material_indices@.len() + 4 + 4
            * self.edges@.len() + 4 + 6 * self.tris@.len() + 4 + 12 * self.verts@.len()
    }

    /// Exact serialized form.  The triangle count is emitted as three times
    /// the triangle list length, matching the stored convention of counting
    /// u16 indices rather than triangles.
    pub open spec fn spec_serialize(self) -> Seq<u8> {
        spec_be32(self.collision_materials@.len() as u32) + spec_be32_array(
            self.collision_materials@,
        ) + spec_be32(self.vertex_material_indices@.len() as u32) + self.vertex_material_indices@
            + spec_be32(self.edge_material_indices@.len() as u32) + self.edge_material_indices@
            + spec_be32(self.tri_material_indices@.len() as u32) + self.tri_material_indices@
            + spec_be32(self.edges@.len() as u32) + spec_edge_array(self.edges@) + spec_be32(
            (3 * self.tris@.len()) as u32,
        ) + spec_tri_array(self.tris@) + spec_be32(self.verts@.len() as u32) + spec_vert_array(
            self.verts@,
        )
    }

    /// The serialized form is exactly as long as the measured size says.
    pub proof fn lemma_size(self)
        ensures
            self.spec_serialize().len() == self.spec_size(),
    {
        crate::bytes::lemma_be32_array_len(self.collision_materials@);
        lemma_edge_array_len(self.edges@);
        lemma_tri_array_len(self.tris@);
        lemma_vert_array_len(self.verts@);
    }

    #[verifier::rlimit(100)]
    #[verifier::spinoff_prover]
    pub fn read_from(v: &mut BinaryView) -> (r: Result<CollisionIndexData, FormatError>)
        requires
            old(v).wf(),
            old(v).data().len() <= 0xFFFF_FF00,
        ensures
            final(v).wf(),
            final(v).data() == old(v).data(),
            r matches Ok(c) ==> {
                &&& c.wf()
                &&& final(v).position() == old(v).position() + c.spec_size()
                &&& final(v).position() == spec_collision_index_end(
                    old(v).data(),
                    old(v).position(),
                )
                &&& c.spec_serialize() == old(v).data().subrange(
                    old(v).position(),
                    final(v).position(),
                )
            },
            r is Ok <==> spec_collision_index_parses(old(v).data(), old(v).position()),
            r matches Err(e) ==> e == FormatError::Truncated || e
                == FormatError::CountNotDivisible,
    {
        let ghost p0 = v.position();
        let collision_material_count = v.read_u32()?;
        let ghost mut acc = spec_be32(collision_material_count);
        let ghost mut prev = v.position();
        let collision_materials = read_be32_array(v, collision_material_count as usize)?;
        proof {
            crate::bytes::lemma_subrange_join(old(v).data(), p0, prev, v.position());
            acc = acc + spec_be32_array(collision_materials@);
            prev = v.position();
        }
        let vertex_material_index_count = v.read_u32()?;
        proof {
            crate::bytes::lemma_subrange_join(old(v).data(), p0, prev, v.position());
            acc = acc + spec_be32(vertex_material_index_count);
            prev = v.position();
        }
        let vertex_material_indices = v.take_vec(vertex_material_index_count as usize)?;
        proof {
            crate::bytes::lemma_subrange_join(old(v).data(), p0, prev, v.position());
            acc = acc + vertex_material_indices@;
            prev = v.position();
        }
        let edge_material_index_count = v.read_u32()?;
        proof {
            crate::bytes::lemma_subrange_join(old(v).data(), p0, prev, v.position());
            acc = acc + spec_be32(edge_material_index_count);
            prev = v.position();
        }
        let edge_material_indices = v.take_vec(edge_material_index_count as usize)?;
        proof {
            crate::bytes::lemma_subrange_join(old(v).data(), p0, prev, v.position());
            acc = acc + edge_material_indices@;
            prev = v.position();
        }
        let tri_material_index_count = v.read_u32()?;
        proof {
            crate::bytes::lemma_subrange_join(old(v).data(), p0, prev, v.position());
            acc = acc + spec_be32(tri_material_index_count);
            prev = v.position();
        }
        let tri_material_indices = v.take_vec(tri_material_index_count as usize)?;
        proof {
            crate::bytes::lemma_subrange_join(old(v).data(), p0, prev, v.position());
            acc = acc + tri_material_indices@;
            prev = v.position();
        }
        let edge_count = v.read_u32()?;
        proof {
            crate::bytes::lemma_subrange_join(old(v).data(), p0, prev, v.position());
            acc = acc + spec_be32(edge_count);
            prev = v.position();
        }
        let edges = read_edge_array(v, edge_count as usize)?;
        proof {
            crate::bytes::lemma_subrange_join(old(v).data(), p0, prev, v.position());
            acc = acc + spec_edge_array(edges@);
            prev = v.position();
        }
        let tri_count = v.read_u32()?;
        if tri_count % 3 != 0 {
            return Err(FormatError::CountNotDivisible);
        }
        proof {
            crate::bytes::lemma_subrange_join(old(v).data(), p0, prev, v.position());
            acc = acc + spec_be32(tri_count);
            prev = v.position();
        }
        let tris = read_tri_array(v, (tri_count / 3) as usize)?;
        proof {
            crate::bytes::lemma_subrange_join(old(v).data(), p0, prev, v.position());
            acc = acc + spec_tri_array(tris@);
            prev = v.position();
        }
        let vert_count = v.read_u32()?;
        proof {
            crate::bytes::lemma_subrange_join(old(v).data(), p0, prev, v.position());
            acc = acc + spec_be32(vert_count);
            prev = v.position();
        }
        let verts = read_vert_array(v, vert_count as usize)?;
        proof {
            crate::bytes::lemma_subrange_join(old(v).data(), p0, prev, v.position());
            acc = acc + spec_vert_array(verts@);
            prev = v.position();
        }
        let c = CollisionIndexData {
            collision_materials,
            vertex_material_indices,
            edge_material_indices,
            tri_material_indices,
            edges,
            tris,
            verts,
        };
        proof {
            c.lemma_size();
            assert(3 * c.tris@.len() == tri_count as int);
            assert((3 * c.tris@.len()) as u32 == tri_count);
            assert(c.spec_serialize() == acc);
            assert(c.spec_serialize() == old(v).data().subrange(p0, v.position()));
            assert(c.spec_size() == v.position() - p0);
            assert(c.wf());
        }
        Ok(c)
    }

    /// The exact number of bytes [`Self::write_to`] emits.
    pub fn size(&self) -> (n: usize)
        requires
            self.wf(),
        ensures
            n == self.spec_size(),
            n == self.spec_serialize().len(),
    {
        proof {
            self.lemma_size();
        }
        let mut sum: usize = 4 + 4 * self.collision_materials.len();
        sum = sum + 4 + self.vertex_material_indices.len();
        sum = sum + 4 + self.edge_material_indices.len();
        sum = sum + 4 + self.tri_material_indices.len();
        sum = sum + 4 + 4 * self.edges.len();
        sum = sum + 4 + 6 * self.tris.len();
        sum = sum + 4 + 12 * self.verts.len();
        sum
    }

    #[verifier::rlimit(100)]
    #[verifier::spinoff_prover]
    pub fn write_to(&self, out: &mut Vec<u8>) -> (n: usize)
        requires
            self.wf(),
        ensures
            final(out)@ == old(out)@ + self.spec_serialize(),
            n == self.spec_serialize().len(),
    {
        proof {
            self.lemma_size();
        }
        let n = self.size();
        let ghost base = out@;
        push_be32(out, self.collision_materials.len() as u32);
        push_be32_array(out, &self.collision_materials);
        push_be32(out, self.vertex_material_indices.len() as u32);
        push_bytes(out, self.vertex_material_indices.as_slice());
        push_be32(out, self.edge_material_indices.len() as u32);
        push_bytes(out, self.edge_material_indices.as_slice());
        push_be32(out, self.tri_material_indices.len() as u32);
        push_bytes(out, self.tri_material_indices.as_slice());
        push_be32(out, self.edges.len() as u32);
        write_edge_array(out, &self.edges);
        push_be32(out, (3 * self.tris.len()) as u32);
        write_tri_array(out, &self.tris);
        push_be32(out, self.verts.len() as u32);
        write_vert_array(out, &self.verts);
        proof {
            assert(final(out)@ =~= base + self.spec_serialize());
        }
        n
    }
}

/// The collision section of a room: a leading marker word, a stored size
/// covering everything after it (validated on read, re-derived on write),
/// magic and version words, the axis-aligned bounding box as six raw float
/// words, the collision octree blob, and the indexed collision mesh.
#[derive(Debug, Clone, PartialEq)]
pub struct AreaCollision {
    pub aabb: Vec<u32>,
    pub root_node_type: u32,
    pub octtree: Vec<u8>,
    pub collision: CollisionIndexData,
}

/// Marker word opening a collision section.
pub const COLLISION_UNKNOWN_WORD: u32 = 0x01000000;

/// Magic word of a collision section.
pub const COLLISION_MAGIC: u32 = 0xDEAFBABE;

/// Version word of a collision section.
pub const COLLISION_VERSION: u32 = 3;

impl AreaCollision {
    /// Structural validity: the bounding box holds six words, the mesh is
    /// valid, and the record fits the format's 32-bit size fields.
    pub open spec fn wf(self) -> bool {
        &&& self.aabb@.len() == 6
        &&& self.collision.wf()
        &&& self.spec_size() <= 0xFFFF_FF00
    }

    /// The serialized length of everything after the stored size field:
    /// what that field must hold.
    pub open spec fn spec_inner_size(self) -> int {
        4 + 4 + 4 * (self.aabb@.len() as int) + 4 + 4 + self.octtree@.len()
            + self.collision.spec_size()
    }

    /// The exact serialized length of the whole record.
    pub open spec fn spec_size(self) -> int {
        8 + self.spec_inner_size()
    }

    /// Exact serialized form, the stored size re-derived from the live
    /// contents.
    pub open spec fn spec_serialize(self) -> Seq<u8> {
        spec_be32(COLLISION_UNKNOWN_WORD) + spec_be32(self.spec_inner_size() as u32) + spec_be32(
            COLLISION_MAGIC,
        ) + spec_be32(COLLISION_VERSION) + spec_be32_array(self.aabb@) + spec_be32(
            self.root_node_type,
        ) + spec_be32(self.octtree@.len() as u32) + self.octtree@
            + self.collision.spec_serialize()
    }

    /// The serialized form is exactly as long as the measured size says.
    pub proof fn lemma_size(self)
        ensures
            self.spec_serialize().len() == self.spec_size(),
            self.collision.spec_size() >= 28,
    {
        crate::bytes::lemma_be32_array_len(self.aabb@);
        self.collision.lemma_size();
    }

    #[verifier::rlimit(100)]
    #[verifier::spinoff_prover]
    pub fn read_from(v: &mut BinaryView) -> (r: Result<AreaCollision, FormatError>)
        requires
            old(v).wf(),
            old(v).data().len() <= 0xFFFF_FF00,
        ensures
            final(v).wf(),
            final(v).data() == old(v).data(),
            r matches Ok(c) ==> {
                &&& c.wf()
                &&& final(v).position() == old(v).position() + c.spec_size()
                &&& c.spec_serialize() == old(v).data().subrange(
                    old(v).position(),
                    final(v).position(),
                )
            },
            r is Ok <==> spec_area_collision_parses(old(v).data(), old(v).position()),
            r matches Err(e) ==> e == FormatError::Truncated || e == FormatError::UnexpectedMagic
                || e == FormatError::UnexpectedVersion || e == FormatError::CountNotDivisible || e
                == FormatError::SizeMismatch,
    {
        let ghost p0 = v.position();
        let unknown = v.read_u32()?;
        if unknown != COLLISION_UNKNOWN_WORD {
            return Err(FormatError::UnexpectedMagic);
        }
        let ghost mut acc = spec_be32(COLLISION_UNKNOWN_WORD);
        let ghost mut prev = v.position();
        let section_size = v.read_u32()?;
        let inner_start = v.position_exec();
        proof {
            crate::bytes::lemma_subrange_join(old(v).data(), p0, prev, v.position());
            acc = acc + spec_be32(section_size);
            prev = v.position();
        }
        let magic = v.read_u32()?;
        if magic != COLLISION_MAGIC {
            return Err(FormatError::UnexpectedMagic);
        }
        proof {
            crate::bytes::lemma_subrange_join(old(v).data(), p0, prev, v.position());
            acc = acc + spec_be32(COLLISION_MAGIC);
            prev = v.position();
        }
        let version = v.read_u32()?;
        if version != COLLISION_VERSION {
            return Err(FormatError::UnexpectedVersion);
        }
        proof {
            crate::bytes::lemma_subrange_join(old(v).data(), p0, prev, v.position());
            acc = acc + spec_be32(COLLISION_VERSION);
            prev = v.position();
        }
        let aabb = read_be32_array(v, 6)?;
        proof {
            crate::bytes::lemma_subrange_join(old(v).data(), p0, prev, v.position());
            acc = acc + spec_be32_array(aabb@);
            prev = v.position();
        }
        let root_node_type = v.read_u32()?;
        proof {
            crate::bytes::lemma_subrange_join(old(v).data(), p0, prev, v.position());
            acc = acc + spec_be32(root_node_type);
            prev = v.position();
        }
        let octree_size = v.read_u32()?;
        proof {
            crate::bytes::lemma_subrange_join(old(v).data(), p0, prev, v.position());
            acc = acc + spec_be32(octree_size);
            prev = v.position();
        }
        let octtree = v.take_vec(octree_size as usize)?;
        proof {
            crate::bytes::lemma_subrange_join(old(v).data(), p0, prev, v.position());
            acc = acc + octtree@;
            prev = v.position();
        }
        let collision = CollisionIndexData::read_from(v)?;
        proof {
            crate::bytes::lemma_subrange_join(old(v).data(), p0, prev, v.position());
            acc = acc + collision.spec_serialize();
            prev = v.position();
        }
        let inner_end = v.position_exec();
        proof {
            collision.lemma_size();
        }
        if (section_size as usize) != inner_end - inner_start {
            return Err(FormatError::SizeMismatch);
        }
        let c = AreaCollision { aabb, root_node_type, octtree, collision };
        proof {
            c.lemma_size();
            assert(c.spec_inner_size() == inner_end - inner_start);
            assert(c.spec_inner_size() as u32 == section_size);
            assert(c.spec_serialize() == acc);
            assert(c.spec_serialize() == old(v).data().subrange(p0, v.position()));
            assert(c.spec_size() == v.position() - p0);
            assert(c.wf());
        }
        Ok(c)
    }

    /// The exact number of bytes [`Self::write_to`] emits.
    pub fn size(&self) -> (n: usize)
        requires
            self.wf(),
        ensures
            n == self.spec_size(),
            n == self.spec_serialize().len(),
    {
        proof {
            self.lemma_size();
        }
        8 + self.inner_size()
    }

    /// The value of the stored size field: the serialized length of
    /// everything after it.
    fn inner_size(&self) -> (n: usize)
        requires
            self.wf(),
        ensures
            n == self.spec_inner_size(),
    {
        proof {
            self.collision.lemma_size();
        }
        let mut sum: usize = 4 + 4 + 4 * self.aabb.len() + 4 + 4;
        sum = sum + self.octtree.len();
        sum = sum + self.collision.size();
        sum
    }

    #[verifier::rlimit(100)]
    #[verifier::spinoff_prover]
    pub fn write_to(&self, out: &mut Vec<u8>) -> (n: usize)
        requires
            self.wf(),
        ensures
            final(out)@ == old(out)@ + self.spec_serialize(),
            n == self.spec_serialize().len(),
    {
        proof {
            self.lemma_size();
        }
        let n = self.size();
        let inner = self.inner_size();
        let ghost base = out@;
        push_be32(out, COLLISION_UNKNOWN_WORD);
        push_be32(out, inner as u32);
        push_be32(out, COLLISION_MAGIC);
        push_be32(out, COLLISION_VERSION);
        push_be32_array(out, &self.aabb);
        push_be32(out, self.root_node_type);
        push_be32(out, self.octtree.len() as u32);
        push_bytes(out, self.octtree.as_slice());
        self.collision.write_to(out);
        proof {
            assert(final(out)@ =~= base + self.spec_serialize());
        }
        n
    }
}


} // verus!
