use vstd::prelude::*;

use crate::block::{Block, TexCoord};

verus! {

/// An integer vector: a vertex position in chunk-local block units, or a unit normal.
#[derive(Clone, Copy, Debug, PartialEq, Eq, Structural)]
pub struct Vec3i {
    pub x: i32,
    pub y: i32,
    pub z: i32,
}

/// The six axis-aligned face directions.
#[derive(Clone, Copy, Debug, PartialEq, Eq, Structural)]
pub enum Direction {
    Px,
    Py,
    Pz,
    Nx,
    Ny,
    Nz,
}

pub open spec fn v3(x: int, y: int, z: int) -> Vec3i {
    Vec3i { x: x as i32, y: y as i32, z: z as i32 }
}

pub open spec fn v_add(a: Vec3i, b: Vec3i) -> Vec3i {
    v3(a.x + b.x, a.y + b.y, a.z + b.z)
}

pub open spec fn v_neg(a: Vec3i) -> Vec3i {
    v3(-a.x, -a.y, -a.z)
}

/// A position to which a face's corner offsets can be added without overflow.
pub open spec fn fits(p: Vec3i) -> bool {
    p.x < i32::MAX && p.y < i32::MAX && p.z < i32::MAX
}

impl Direction {
    /// The outward unit normal of a face in this direction.
    pub open spec fn normal(self) -> Vec3i {
        match self {
            Direction::Px => v3(1, 0, 0),
            Direction::Py => v3(0, 1, 0),
            Direction::Pz => v3(0, 0, 1),
            Direction::Nx => v3(-1, 0, 0),
            Direction::Ny => v3(0, -1, 0),
            Direction::Nz => v3(0, 0, -1),
        }
    }

    /// The four corners of the unit cube's face in this direction, in winding order.
    pub open spec fn corners(self) -> Seq<Vec3i> {
        match self {
            Direction::Px => seq![v3(1, 0, 1), v3(1, 1, 1), v3(1, 1, 0), v3(1, 0, 0)],
            Direction::Py => seq![v3(0, 1, 0), v3(1, 1, 0), v3(1, 1, 1), v3(0, 1, 1)],
            Direction::Pz => seq![v3(0, 0, 1), v3(0, 1, 1), v3(1, 1, 1), v3(1, 0, 1)],
            Direction::Nx => seq![v3(0, 0, 0), v3(0, 1, 0), v3(0, 1, 1), v3(0, 0, 1)],
            Direction::Ny => seq![v3(0, 0, 1), v3(1, 0, 1), v3(1, 0, 0), v3(0, 0, 0)],
            Direction::Nz => seq![v3(1, 0, 0), v3(1, 1, 0), v3(0, 1, 0), v3(0, 0, 0)],
        }
    }

    /// All six directions.
    pub fn iter() -> (r: Vec<Direction>)
        ensures
            r@ == seq![
                Direction::Px,
                Direction::Py,
                Direction::Pz,
                Direction::Nx,
                Direction::Ny,
                Direction::Nz,
            ],
    {
        let r = vec![
            Direction::Px,
            Direction::Py,
            Direction::Pz,
            Direction::Nx,
            Direction::Ny,
            Direction::Nz,
        ];
        assert(r@ =~= seq![
            Direction::Px,
            Direction::Py,
            Direction::Pz,
            Direction::Nx,
            Direction::Ny,
            Direction::Nz,
        ]);
        r
    }

    /// The corners of this direction's face, each paired with the face normal.
    pub fn face_verts(&self) -> (r: [(Vec3i, Vec3i); 4])
        ensures
            forall|k: int| 0 <= k < 4 ==> (#[trigger] r@[k]).0 == self.corners()[k],
            forall|k: int| 0 <= k < 4 ==> (#[trigger] r@[k]).1 == self.normal(),
    {
        let c = |x: i32, y: i32, z: i32| -> (r: Vec3i)
            ensures
                r == v3(x as int, y as int, z as int),
            { Vec3i { x, y, z } };
        match self {
            Direction::Px => {
                let n = c(1, 0, 0);
                [(c(1, 0, 1), n), (c(1, 1, 1), n), (c(1, 1, 0), n), (c(1, 0, 0), n)]
            },
            Direction::Py => {
                let n = c(0, 1, 0);
                [(c(0, 1, 0), n), (c(1, 1, 0), n), (c(1, 1, 1), n), (c(0, 1, 1), n)]
            },
            Direction::Pz => {
                let n = c(0, 0, 1);
                [(c(0, 0, 1), n), (c(0, 1, 1), n), (c(1, 1, 1), n), (c(1, 0, 1), n)]
            },
            Direction::Nx => {
                let n = c(-1, 0, 0);
                [(c(0, 0, 0), n), (c(0, 1, 0), n), (c(0, 1, 1), n), (c(0, 0, 1), n)]
            },
            Direction::Ny => {
                let n = c(0, -1, 0);
                [(c(0, 0, 1), n), (c(1, 0, 1), n), (c(1, 0, 0), n), (c(0, 0, 0), n)]
            },
            Direction::Nz => {
                let n = c(0, 0, -1);
                [(c(1, 0, 0), n), (c(1, 1, 0), n), (c(0, 1, 0), n), (c(0, 0, 0), n)]
            },
        }
    }
}

/// The abstract content of a triangle mesh: parallel vertex attributes and a
/// triangle index list.
pub struct MeshView {
    pub positions: Seq<Vec3i>,
    pub normals: Seq<Vec3i>,
    pub uvs: Seq<TexCoord>,
    pub indices: Seq<u16>,
}

/// The mesh with no faces.
pub open spec fn empty_mesh() -> MeshView {
    MeshView { positions: seq![], normals: seq![], uvs: seq![], indices: seq![] }
}

/// The triangle index pattern of one quad, relative to its first vertex.
pub open spec fn quad_pattern(invert: bool) -> Seq<int> {
    if invert {
        seq![1, 2, 3, 1, 3, 0]
    } else {
        seq![0, 3, 1, 3, 2, 1]
    }
}

/// The positions of the face in direction `dir` of the block at `pos`.
pub open spec fn quad_positions(pos: Vec3i, dir: Direction) -> Seq<Vec3i> {
    Seq::new(4, |k: int| v_add(pos, dir.corners()[k]))
}

/// The normals of a face; an inverted face points the other way.
pub open spec fn quad_normals(dir: Direction, invert: bool) -> Seq<Vec3i> {
    Seq::new(4, |k: int| if invert { v_neg(dir.normal()) } else { dir.normal() })
}

/// The indices of a quad whose first vertex is `base`.
pub open spec fn quad_indices(base: int, invert: bool) -> Seq<u16> {
    Seq::new(6, |k: int| (base + quad_pattern(invert)[k]) as u16)
}

/// Which block textures a face between `a` and its neighbour `b`, and whether
/// the face is inverted; `None` when no face lies between them.
pub open spec fn face_choice(a: Block, b: Block) -> Option<(Block, bool)> {
    if a.is_air() && !b.is_air() {
        Some((b, true))
    } else if !a.is_air() && b.is_air() {
        Some((a, false))
    } else {
        None
    }
}

impl MeshView {
    /// Attribute sequences agree in length, faces are whole, and every index
    /// names a vertex.
    pub open spec fn wf(self) -> bool {
        &&& self.normals.len() == self.positions.len()
        &&& self.uvs.len() == self.positions.len()
        &&& self.positions.len() % 4 == 0
        &&& self.indices.len() == self.positions.len() / 4 * 6
        &&& self.positions.len() <= 65536
        &&& forall|i: int| 0 <= i < self.indices.len() ==> (#[trigger] self.indices[i]) < self.positions.len()
    }

    /// Number of quads in the mesh.
    pub open spec fn face_count(self) -> int {
        self.positions.len() as int / 4
    }

    /// The mesh with one more quad.
    pub open spec fn with_face(self, pos: Vec3i, dir: Direction, invert: bool, block: Block) -> MeshView {
        MeshView {
            positions: self.positions + quad_positions(pos, dir),
            normals: self.normals + quad_normals(dir, invert),
            uvs: self.uvs + block.uvs_spec(),
            indices: self.indices + quad_indices(self.positions.len() as int, invert),
        }
    }

    /// The mesh after considering a face between `a` and its neighbour `b` along `dir`.
    pub open spec fn with_maybe_face(self, pos: Vec3i, dir: Direction, a: Block, b: Block) -> MeshView {
        match face_choice(a, b) {
            Some((block, invert)) => self.with_face(pos, dir, invert, block),
            None => self,
        }
    }
}

/// Adding a quad keeps a mesh well formed while the vertex count fits `u16` indices.
pub proof fn lemma_with_face_wf(m: MeshView, pos: Vec3i, dir: Direction, invert: bool, block: Block)
    requires
        m.wf(),
        m.positions.len() + 4 <= 65536,
    ensures
        m.with_face(pos, dir, invert, block).wf(),
        m.with_face(pos, dir, invert, block).positions.len() == m.positions.len() + 4,
{
    let r = m.with_face(pos, dir, invert, block);
    let n = m.positions.len();
    assert(r.indices.len() == r.positions.len() / 4 * 6) by {
        assert((n + 4) / 4 == n / 4 + 1);
    }
    assert forall|i: int| 0 <= i < r.indices.len() implies (#[trigger] r.indices[i]) < r.positions.len() by {
        if i >= m.indices.len() {
            let k = i - m.indices.len();
            assert(r.indices[i] == quad_indices(n as int, invert)[k]);
            assert(0 <= quad_pattern(invert)[k] < 4);
        }
    }
}

/// A triangle mesh with integer vertex positions, produced by meshing a chunk.
pub struct Mesh {
    pub positions: Vec<Vec3i>,
    pub normals: Vec<Vec3i>,
    pub uvs: Vec<TexCoord>,
    pub indices: Vec<u16>,
}

impl View for Mesh {
    type V = MeshView;

    open spec fn view(&self) -> MeshView {
        MeshView {
            positions: self.positions@,
            normals: self.normals@,
            uvs: self.uvs@,
            indices: self.indices@,
        }
    }
}

/// A mesh under construction, one quad at a time.
pub struct IncompleteMesh {
    vertices: Vec<Vec3i>,
    normals: Vec<Vec3i>,
    uvs: Vec<TexCoord>,
    indices: Vec<u16>,
}

impl View for IncompleteMesh {
    type V = MeshView;

    closed spec fn view(&self) -> MeshView {
        MeshView {
            positions: self.vertices@,
            normals: self.normals@,
            uvs: self.uvs@,
            indices: self.indices@,
        }
    }
}

impl IncompleteMesh {
    /// A builder holding no faces.
    pub fn new() -> (r: IncompleteMesh)
        ensures
            r@ == empty_mesh(),
    {
        let r = IncompleteMesh { vertices: Vec::new(), normals: Vec::new(), uvs: Vec::new(), indices: Vec::new() };
        assert(r@.positions =~= seq![]);
        assert(r@.normals =~= seq![]);
        assert(r@.uvs =~= seq![]);
        assert(r@.indices =~= seq![]);
        r
    }

    /// Appends the quad of the face in direction `dir` of the block at `pos`,
    /// textured as `block`; an inverted quad has its winding and normal reversed.
    pub fn add_face(&mut self, pos: Vec3i, dir: Direction, invert: bool, block: Block)
        requires
            old(self)@.wf(),
            old(self)@.positions.len() + 4 <= 65536,
            fits(pos),
        ensures
            final(self)@ == old(self)@.with_face(pos, dir, invert, block),
            final(self)@.wf(),
    {
        proof {
            lemma_with_face_wf(self@, pos, dir, invert, block);
        }
        let ghost start = self@;
        let base: u16 = self.vertices.len() as u16;
        let pattern: [u16; 6] = if invert {
            [1, 2, 3, 1, 3, 0]
        } else {
            [0, 3, 1, 3, 2, 1]
        };
        let mut k: usize = 0;
        while k < 6
            invariant
                k <= 6,
                base as int == start.positions.len(),
                base as int + 4 <= 65536,
                forall|j: int| 0 <= j < 6 ==> pattern@[j] as int == #[trigger] quad_pattern(invert)[j],
                self.indices@ == start.indices + quad_indices(base as int, invert).take(k as int),
                self.vertices@ == start.positions,
                self.normals@ == start.normals,
                self.uvs@ == start.uvs,
            decreases 6 - k,
        {
            assert(0 <= quad_pattern(invert)[k as int] < 4);
            self.indices.push(base + pattern[k]);
            k += 1;
            assert(self.indices@ =~= start.indices + quad_indices(base as int, invert).take(k as int));
        }
        let verts = dir.face_verts();
        let mut k: usize = 0;
        while k < 4
            invariant
                k <= 4,
                fits(pos),
                forall|j: int| 0 <= j < 4 ==> (#[trigger] verts@[j]).0 == dir.corners()[j],
                forall|j: int| 0 <= j < 4 ==> (#[trigger] verts@[j]).1 == dir.normal(),
                self.vertices@ == start.positions + quad_positions(pos, dir).take(k as int),
                self.normals@ == start.normals + quad_normals(dir, invert).take(k as int),
                self.indices@ == start.indices + quad_indices(base as int, invert),
                self.uvs@ == start.uvs,
            decreases 4 - k,
        {
            let (v, n) = verts[k];
            let p = Vec3i { x: pos.x + v.x, y: pos.y + v.y, z: pos.z + v.z };
            let n = if invert {
                Vec3i { x: -n.x, y: -n.y, z: -n.z }
            } else {
                n
            };
            self.vertices.push(p);
            self.normals.push(n);
            k += 1;
            assert(self.vertices@ =~= start.positions + quad_positions(pos, dir).take(k as int));
            assert(self.normals@ =~= start.normals + quad_normals(dir, invert).take(k as int));
        }
        let uvs = block.uvs();
        let mut k: usize = 0;
        while k < 4
            invariant
                k <= 4,
                uvs@ == block.uvs_spec(),
                self.uvs@ == start.uvs + block.uvs_spec().take(k as int),
                self.vertices@ == start.positions + quad_positions(pos, dir),
                self.normals@ == start.normals + quad_normals(dir, invert),
                self.indices@ == start.indices + quad_indices(base as int, invert),
            decreases 4 - k,
        {
            self.uvs.push(uvs[k]);
            k += 1;
            assert(self.uvs@ =~= start.uvs + block.uvs_spec().take(k as int));
        }
        assert(quad_positions(pos, dir).take(4) =~= quad_positions(pos, dir));
        assert(quad_normals(dir, invert).take(4) =~= quad_normals(dir, invert));
        assert(quad_indices(base as int, invert).take(6) =~= quad_indices(base as int, invert));
        assert(block.uvs_spec().take(4) =~= block.uvs_spec());
    }

    /// Adds the face between block `a` at `pos` and its neighbour `b` along
    /// `dir` when exactly one of them is air. The face takes the solid block's
    /// texture and faces away from it: it is inverted when `a` is the air side.
    pub fn maybe_add_face(&mut self, pos: Vec3i, dir: Direction, a: Block, b: Block)
        requires
            old(self)@.wf(),
            old(self)@.positions.len() + 4 <= 65536,
            fits(pos),
        ensures
            final(self)@ == old(self)@.with_maybe_face(pos, dir, a, b),
            final(self)@.wf(),
    {
        let a_air = a.is_air_exec();
        let b_air = b.is_air_exec();
        if a_air && !b_air {
            self.add_face(pos, dir, true, b);
        } else if !a_air && b_air {
            self.add_face(pos, dir, false, a);
        }
    }

    /// Number of vertices added so far.
    pub fn vertex_count(&self) -> (r: usize)
        ensures
            r == self@.positions.len(),
    {
        self.vertices.len()
    }

    /// Finishes the mesh.
    pub fn complete(self) -> (r: Mesh)
        ensures
            r@ == self@,
    {
        Mesh { positions: self.vertices, normals: self.normals, uvs: self.uvs, indices: self.indices }
    }
}


/// Face culling is symmetric in the two blocks of a boundary.
///
/// A face is added exactly when one of the two blocks is air, and nothing
/// changes otherwise. Swapping the blocks adds a face with the same corner
/// positions and texture, the opposite normal and the reversed triangle
/// winding.
pub proof fn lemma_face_culling_symmetry(m: MeshView, pos: Vec3i, dir: Direction, a: Block, b: Block)
    requires
        m.wf(),
    ensures
        m.with_maybe_face(pos, dir, a, b).positions.len() == m.positions.len() + 4 <==> a.is_air() != b.is_air(),
        a.is_air() == b.is_air() ==> m.with_maybe_face(pos, dir, a, b) == m,
        a.is_air() != b.is_air() ==> {
            let f = m.with_maybe_face(pos, dir, a, b);
            let g = m.with_maybe_face(pos, dir, b, a);
            let n = m.positions.len() as int;
            let i = m.indices.len() as int;
            &&& f.positions == g.positions
            &&& f.uvs == g.uvs
            &&& f.normals.len() == g.normals.len()
            &&& f.indices.len() == g.indices.len()
            &&& f.normals.subrange(0, n) == m.normals
            &&& g.normals.subrange(0, n) == m.normals
            &&& forall|k: int| 0 <= k < 4 ==> #[trigger] f.normals[n + k] == v_neg(g.normals[n + k])
            &&& f.indices.subrange(0, i) == m.indices
            &&& g.indices.subrange(0, i) == m.indices
            &&& forall|k: int| 0 <= k < 6 ==> #[trigger] f.indices[i + k] == g.indices[i + 5 - k]
        },
{
    if a.is_air() != b.is_air() {
        let f = m.with_maybe_face(pos, dir, a, b);
        let g = m.with_maybe_face(pos, dir, b, a);
        let n = m.positions.len() as int;
        let i = m.indices.len() as int;
        assert(f.normals.subrange(0, n) =~= m.normals);
        assert(g.normals.subrange(0, n) =~= m.normals);
        assert(f.indices.subrange(0, i) =~= m.indices);
        assert(g.indices.subrange(0, i) =~= m.indices);
        assert forall|k: int| 0 <= k < 4 implies #[trigger] f.normals[n + k] == v_neg(g.normals[n + k]) by {
            assert(f.normals[n + k] == quad_normals(dir, a.is_air())[k]);
            assert(g.normals[n + k] == quad_normals(dir, b.is_air())[k]);
        }
        assert forall|k: int| 0 <= k < 6 implies #[trigger] f.indices[i + k] == g.indices[i + 5 - k] by {
            assert(f.indices[i + k] == quad_indices(n, a.is_air())[k]);
            assert(g.indices[i + 5 - k] == quad_indices(n, b.is_air())[5 - k]);
        }
    }
}

/// The mesh of a unit cube at the origin, one dirt face per direction in the
/// order of `Direction::iter`.
pub open spec fn cube_mesh() -> MeshView {
    let o = v3(0, 0, 0);
    empty_mesh().with_face(o, Direction::Px, false, Block::Dirt).with_face(
        o,
        Direction::Py,
        false,
        Block::Dirt,
    ).with_face(o, Direction::Pz, false, Block::Dirt).with_face(
        o,
        Direction::Nx,
        false,
        Block::Dirt,
    ).with_face(o, Direction::Ny, false, Block::Dirt).with_face(o, Direction::Nz, false, Block::Dirt)
}

/// A dirt cube at the origin with all six faces.
pub fn test_cube() -> (r: Mesh)
    ensures
        r@ == cube_mesh(),
        r@.wf(),
{
    let mut m = IncompleteMesh::new();
    let o = Vec3i { x: 0, y: 0, z: 0 };
    let dirs = Direction::iter();
    let mut k: usize = 0;
    while k < dirs.len()
        invariant
            dirs@ == seq![
                Direction::Px,
                Direction::Py,
                Direction::Pz,
                Direction::Nx,
                Direction::Ny,
                Direction::Nz,
            ],
            k <= 6,
            m@.wf(),
            m@.positions.len() == 4 * k,
            k == 0 ==> m@ == empty_mesh(),
            k == 1 ==> m@ == empty_mesh().with_face(o, Direction::Px, false, Block::Dirt),
            k == 2 ==> m@ == empty_mesh().with_face(o, Direction::Px, false, Block::Dirt).with_face(o, Direction::Py, false, Block::Dirt),
            k == 3 ==> m@ == empty_mesh().with_face(o, Direction::Px, false, Block::Dirt).with_face(o, Direction::Py, false, Block::Dirt).with_face(o, Direction::Pz, false, Block::Dirt),
            k == 4 ==> m@ == empty_mesh().with_face(o, Direction::Px, false, Block::Dirt).with_face(o, Direction::Py, false, Block::Dirt).with_face(o, Direction::Pz, false, Block::Dirt).with_face(o, Direction::Nx, false, Block::Dirt),
            k == 5 ==> m@ == empty_mesh().with_face(o, Direction::Px, false, Block::Dirt).with_face(o, Direction::Py, false, Block::Dirt).with_face(o, Direction::Pz, false, Block::Dirt).with_face(o, Direction::Nx, false, Block::Dirt).with_face(o, Direction::Ny, false, Block::Dirt),
            k == 6 ==> m@ == cube_mesh(),
            o == v3(0, 0, 0),
        decreases 6 - k,
    {
        m.add_face(o, dirs[k], false, Block::Dirt);
        k += 1;
    }
    m.complete()
}

/// The abstract content of a collision shape: vertex positions and the
/// triangles over them, each a triple of vertex indices.
pub struct TriMeshView {
    pub vertices: Seq<Vec3i>,
    pub triangles: Seq<(u32, u32, u32)>,
}

/// A triangle soup for ray queries, with integer vertex positions.
pub struct TriMesh {
    pub vertices: Vec<Vec3i>,
    pub triangles: Vec<(u32, u32, u32)>,
}

impl View for TriMesh {
    type V = TriMeshView;

    open spec fn view(&self) -> TriMeshView {
        TriMeshView { vertices: self.vertices@, triangles: self.triangles@ }
    }
}

/// Consecutive triples of an index list, as triangles.
pub open spec fn triangles_of(indices: Seq<u16>) -> Seq<(u32, u32, u32)> {
    Seq::new(
        indices.len() / 3,
        |t: int| (indices[3 * t] as u32, indices[3 * t + 1] as u32, indices[3 * t + 2] as u32),
    )
}

/// The collision shape of a mesh: its positions and its triangles.
pub open spec fn collision_of(m: MeshView) -> TriMeshView {
    TriMeshView { vertices: m.positions, triangles: triangles_of(m.indices) }
}

/// Builds the collision shape of a mesh by grouping its indices into triangles.
pub fn mesh_to_tri_mesh(mesh: &Mesh) -> (r: TriMesh)
    requires
        mesh@.indices.len() % 3 == 0,
    ensures
        r@ == collision_of(mesh@),
{
    let mut vertices: Vec<Vec3i> = Vec::new();
    let mut k: usize = 0;
    while k < mesh.positions.len()
        invariant
            k <= mesh.positions@.len(),
            vertices@ == mesh.positions@.take(k as int),
        decreases mesh.positions@.len() - k,
    {
        vertices.push(mesh.positions[k]);
        k += 1;
        assert(vertices@ =~= mesh.positions@.take(k as int));
    }
    assert(mesh.positions@.take(k as int) =~= mesh.positions@);
    let mut triangles: Vec<(u32, u32, u32)> = Vec::new();
    let mut t: usize = 0;
    let ghost all = triangles_of(mesh.indices@);
    while t < mesh.indices.len()
        invariant
            mesh.indices@.len() % 3 == 0,
            t % 3 == 0,
            t <= mesh.indices@.len(),
            all == triangles_of(mesh.indices@),
            triangles@ == all.take(t as int / 3),
        decreases mesh.indices@.len() - t,
    {
        assert(t + 3 <= mesh.indices@.len()) by {
            assert(t % 3 == 0 && mesh.indices@.len() % 3 == 0 && t < mesh.indices@.len());
        }
        let tri = (mesh.indices[t] as u32, mesh.indices[t + 1] as u32, mesh.indices[t + 2] as u32);
        proof {
            assert(3 * (t as int / 3) == t);
        }
        triangles.push(tri);
        t += 3;
        assert(triangles@ =~= all.take(t as int / 3));
    }
    assert(all.take(t as int / 3) =~= all);
    TriMesh { vertices, triangles }
}

} // verus!
