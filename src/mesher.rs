use vstd::prelude::*;

use crate::block::Block;
use crate::chunk::{block_at, empty_blocks, get_or_air_spec, in_bounds, index_of, lemma_index_compose, Chunk};
use crate::mesh::{empty_mesh, lemma_with_face_wf, v3, Direction, IncompleteMesh, Mesh, MeshView, Vec3i};

verus! {

/// Number of face candidates on the chunk's negative boundary: three per column.
pub open spec fn boundary_slots() -> int {
    768
}

/// Number of face candidates in the whole scan: the boundary ones, then three per block.
pub open spec fn scan_slots() -> int {
    13056
}

/// The face candidate examined at step `k` of a chunk's scan: the position of
/// the block, the face direction, the block and its neighbour across the face.
///
/// The scan first visits, for each `(i, j)`, the `-x`, `-y` and `-z` faces on
/// the chunk's negative boundary, which face implicit air. It then visits each
/// block in `(x, y, z)` order and its `+x`, `+y` and `+z` neighbours, reading
/// air outside the chunk.
#[verifier::opaque]
pub open spec fn slot_face(blocks: Seq<Block>, k: int) -> (Vec3i, Direction, Block, Block) {
    if k < boundary_slots() {
        let n = k / 3;
        let i = n / 16;
        let j = n % 16;
        if k % 3 == 0 {
            (v3(0, i, j), Direction::Nx, get_or_air_spec(blocks, 0, i, j), Block::Air)
        } else if k % 3 == 1 {
            (v3(i, 0, j), Direction::Ny, get_or_air_spec(blocks, i, 0, j), Block::Air)
        } else {
            (v3(i, j, 0), Direction::Nz, get_or_air_spec(blocks, i, j, 0), Block::Air)
        }
    } else {
        let m = k - boundary_slots();
        let c = m / 3;
        let x = c / 256;
        let y = (c / 16) % 16;
        let z = c % 16;
        let a = get_or_air_spec(blocks, x, y, z);
        if m % 3 == 0 {
            (v3(x, y, z), Direction::Px, a, get_or_air_spec(blocks, x + 1, y, z))
        } else if m % 3 == 1 {
            (v3(x, y, z), Direction::Py, a, get_or_air_spec(blocks, x, y + 1, z))
        } else {
            (v3(x, y, z), Direction::Pz, a, get_or_air_spec(blocks, x, y, z + 1))
        }
    }
}

/// The mesh after the first `k` steps of the scan.
pub open spec fn mesh_upto(blocks: Seq<Block>, k: nat) -> MeshView
    decreases k,
{
    if k == 0 {
        empty_mesh()
    } else {
        let (p, d, a, b) = slot_face(blocks, k - 1);
        mesh_upto(blocks, (k - 1) as nat).with_maybe_face(p, d, a, b)
    }
}

/// The mesh of a chunk with the given blocks.
pub open spec fn chunk_mesh(blocks: Seq<Block>) -> MeshView {
    mesh_upto(blocks, scan_slots() as nat)
}

/// Each step adds at most one quad, so the scan's meshes stay well formed.
pub proof fn lemma_mesh_upto_wf(blocks: Seq<Block>, k: nat)
    requires
        k <= scan_slots(),
    ensures
        mesh_upto(blocks, k).wf(),
        mesh_upto(blocks, k).positions.len() <= 4 * k,
    decreases k,
{
    if k == 0 {
        assert(empty_mesh().wf());
    } else {
        lemma_mesh_upto_wf(blocks, (k - 1) as nat);
        let (p, d, a, b) = slot_face(blocks, k - 1);
        let prev = mesh_upto(blocks, (k - 1) as nat);
        match crate::mesh::face_choice(a, b) {
            Some((blk, inv)) => {
                lemma_with_face_wf(prev, p, d, inv, blk);
            },
            None => {},
        }
    }
}

proof fn lemma_boundary_slot(i: int, j: int)
    requires
        0 <= i < 16,
        0 <= j < 16,
    ensures
        (48 * i + 3 * j) / 3 == 16 * i + j,
        (48 * i + 3 * j + 1) / 3 == 16 * i + j,
        (48 * i + 3 * j + 2) / 3 == 16 * i + j,
        (48 * i + 3 * j) % 3 == 0,
        (48 * i + 3 * j + 1) % 3 == 1,
        (48 * i + 3 * j + 2) % 3 == 2,
        (16 * i + j) / 16 == i,
        (16 * i + j) % 16 == j,
        48 * i + 3 * j + 2 < 768,
{
    assert((16 * i + j) / 16 == i) by (nonlinear_arith)
        requires
            0 <= j < 16,
    ;
    assert((16 * i + j) % 16 == j) by (nonlinear_arith)
        requires
            0 <= j < 16,
            0 <= i,
    ;
}

proof fn lemma_cell_slot(x: int, y: int, z: int)
    requires
        in_bounds(x, y, z),
    ensures
        ({
            let c = index_of(x, y, z);
            &&& 0 <= c < 4096
            &&& (3 * c) / 3 == c
            &&& (3 * c + 1) / 3 == c
            &&& (3 * c + 2) / 3 == c
            &&& (3 * c) % 3 == 0
            &&& (3 * c + 1) % 3 == 1
            &&& (3 * c + 2) % 3 == 2
            &&& c / 256 == x
            &&& (c / 16) % 16 == y
            &&& c % 16 == z
        }),
{
    lemma_index_compose(x, y, z);
}

/// A chunk of air has an empty mesh.
pub proof fn lemma_empty_chunk_mesh()
    ensures
        chunk_mesh(empty_blocks()) == empty_mesh(),
        chunk_mesh(empty_blocks()).face_count() == 0,
{
    lemma_air_mesh_upto(scan_slots() as nat);
}

proof fn lemma_air_mesh_upto(k: nat)
    ensures
        mesh_upto(empty_blocks(), k) == empty_mesh(),
    decreases k,
{
    if k > 0 {
        lemma_air_mesh_upto((k - 1) as nat);
        reveal(slot_face);
        let (p, d, a, b) = slot_face(empty_blocks(), k - 1);
        assert(a.is_air() && b.is_air());
    }
}

/// Whether every block of a chunk is solid.
pub open spec fn all_solid(blocks: Seq<Block>) -> bool {
    &&& blocks.len() == 4096
    &&& forall|i: int| 0 <= i < 4096 ==> !(#[trigger] blocks[i]).is_air()
}

/// Among the first `c` blocks of the scan order, the number of block faces
/// that lie on the chunk's positive boundary: blocks with `z == 15`, with
/// `y == 15` and with `x == 15`.
spec fn positive_boundary_faces(c: int) -> int {
    let ys = if c % 256 > 240 { c % 256 - 240 } else { 0 };
    let xs = if c > 3840 { c - 3840 } else { 0 };
    c / 16 + 16 * (c / 256) + ys + xs
}

proof fn lemma_positive_boundary_step(c: int)
    requires
        0 <= c < 4096,
    ensures
        positive_boundary_faces(c + 1) == positive_boundary_faces(c) + (if c / 256 == 15 { 1int } else { 0 }) + (
        if (c / 16) % 16 == 15 { 1int } else { 0 }) + (if c % 16 == 15 { 1int } else { 0 }),
{
    assert((c + 1) / 16 == c / 16 + (if c % 16 == 15 { 1int } else { 0 })) by (nonlinear_arith)
        requires
            0 <= c,
    ;
    assert(c % 256 == 255 ==> (c + 1) / 256 == c / 256 + 1 && (c + 1) % 256 == 0) by (nonlinear_arith)
        requires
            0 <= c,
    ;
    assert(c % 256 != 255 ==> (c + 1) / 256 == c / 256 && (c + 1) % 256 == c % 256 + 1) by (nonlinear_arith)
        requires
            0 <= c,
    ;
    assert((c / 16) % 16 == (c % 256) / 16) by (nonlinear_arith)
        requires
            0 <= c,
    ;
    assert(c / 256 == 15 <==> c >= 3840) by (nonlinear_arith)
        requires
            0 <= c < 4096,
    ;
}

proof fn lemma_solid_boundary_prefix(blocks: Seq<Block>, k: nat)
    requires
        all_solid(blocks),
        k <= boundary_slots(),
    ensures
        mesh_upto(blocks, k).positions.len() == 4 * k,
    decreases k,
{
    if k > 0 {
        lemma_solid_boundary_prefix(blocks, (k - 1) as nat);
        let n = (k - 1) / 3;
        let i = n / 16;
        let j = n % 16;
        assert(0 <= i < 16 && 0 <= j < 16) by (nonlinear_arith)
            requires
                0 <= k - 1 < 768,
                n == (k - 1) / 3,
                i == n / 16,
                j == n % 16,
        ;
        lemma_index_compose(0, i, j);
        lemma_index_compose(i, 0, j);
        lemma_index_compose(i, j, 0);
        reveal(slot_face);
        let (p, d, a, b) = slot_face(blocks, k - 1);
        assert(!a.is_air() && b.is_air());
    }
}

proof fn lemma_solid_cells_prefix(blocks: Seq<Block>, c: int)
    requires
        all_solid(blocks),
        0 <= c <= 4096,
    ensures
        mesh_upto(blocks, (boundary_slots() + 3 * c) as nat).positions.len() == 4 * (boundary_slots()
            + positive_boundary_faces(c)),
    decreases c,
{
    if c == 0 {
        lemma_solid_boundary_prefix(blocks, boundary_slots() as nat);
    } else {
        let c0 = c - 1;
        lemma_solid_cells_prefix(blocks, c0);
        lemma_positive_boundary_step(c0);
        crate::chunk::lemma_index_decompose(c0);
        let x = c0 / 256;
        let y = (c0 / 16) % 16;
        let z = c0 % 16;
        lemma_cell_slot(x, y, z);
        lemma_index_compose(x, y, z);
        if x + 1 < 16 {
            lemma_index_compose(x + 1, y, z);
        }
        if y + 1 < 16 {
            lemma_index_compose(x, y + 1, z);
        }
        if z + 1 < 16 {
            lemma_index_compose(x, y, z + 1);
        }
        let k = boundary_slots() + 3 * c0;
        reveal(slot_face);
        assert(!get_or_air_spec(blocks, x, y, z).is_air());
        assert(get_or_air_spec(blocks, x + 1, y, z).is_air() <==> x == 15);
        assert(get_or_air_spec(blocks, x, y + 1, z).is_air() <==> y == 15);
        assert(get_or_air_spec(blocks, x, y, z + 1).is_air() <==> z == 15);
        assert(slot_face(blocks, k).1 == Direction::Px);
        assert(slot_face(blocks, k + 1).1 == Direction::Py);
        assert(slot_face(blocks, k + 2).1 == Direction::Pz);
        assert(mesh_upto(blocks, (k + 1) as nat).positions.len() == mesh_upto(blocks, k as nat).positions.len() + (
        if x == 15 { 4int } else { 0 }));
        assert(mesh_upto(blocks, (k + 2) as nat).positions.len() == mesh_upto(blocks, (k + 1) as nat).positions.len()
            + (if y == 15 { 4int } else { 0 }));
        assert(mesh_upto(blocks, (k + 3) as nat).positions.len() == mesh_upto(blocks, (k + 2) as nat).positions.len()
            + (if z == 15 { 4int } else { 0 }));
    }
}

/// A chunk without air has exactly the 6 * 16 * 16 faces of its surface and
/// no interior ones.
pub proof fn lemma_solid_chunk_mesh(blocks: Seq<Block>)
    requires
        all_solid(blocks),
    ensures
        chunk_mesh(blocks).face_count() == 6 * 16 * 16,
{
    lemma_solid_cells_prefix(blocks, 4096);
    assert(positive_boundary_faces(4096) == 768);
}

/// Whether step `t` of the scan adds a quad.
pub open spec fn slot_emits(blocks: Seq<Block>, t: int) -> bool {
    crate::mesh::face_choice(slot_face(blocks, t).2, slot_face(blocks, t).3) is Some
}

/// The corner positions of the quad that step `t` of the scan would add.
pub open spec fn slot_quad(blocks: Seq<Block>, t: int) -> Seq<Vec3i> {
    crate::mesh::quad_positions(slot_face(blocks, t).0, slot_face(blocks, t).1)
}

/// The `f`-th run of four positions, the corners of one quad.
pub open spec fn quad_at(ps: Seq<Vec3i>, f: int) -> Seq<Vec3i> {
    ps.subrange(4 * f, 4 * f + 4)
}

/// Where a scan step stands and which way its face points.
proof fn lemma_slot_shape(blocks: Seq<Block>, k: int)
    requires
        0 <= k < scan_slots(),
    ensures
        k < boundary_slots() ==> ({
            let n = k / 3;
            let i = n / 16;
            let j = n % 16;
            &&& 0 <= i < 16
            &&& 0 <= j < 16
            &&& k == 3 * (16 * i + j) + k % 3
            &&& slot_face(blocks, k).1 == (if k % 3 == 0 {
                Direction::Nx
            } else if k % 3 == 1 {
                Direction::Ny
            } else {
                Direction::Nz
            })
            &&& slot_face(blocks, k).0 == (if k % 3 == 0 {
                v3(0, i, j)
            } else if k % 3 == 1 {
                v3(i, 0, j)
            } else {
                v3(i, j, 0)
            })
        }),
        k >= boundary_slots() ==> ({
            let m = k - boundary_slots();
            let c = m / 3;
            let x = c / 256;
            let y = (c / 16) % 16;
            let z = c % 16;
            &&& in_bounds(x, y, z)
            &&& k == boundary_slots() + 3 * index_of(x, y, z) + m % 3
            &&& slot_face(blocks, k).1 == (if m % 3 == 0 {
                Direction::Px
            } else if m % 3 == 1 {
                Direction::Py
            } else {
                Direction::Pz
            })
            &&& slot_face(blocks, k).0 == v3(x, y, z)
        }),
{
    reveal(slot_face);
    if k < boundary_slots() {
        let n = k / 3;
        assert(0 <= n / 16 < 16 && 0 <= n % 16 < 16 && k == 3 * (16 * (n / 16) + n % 16) + k % 3) by (nonlinear_arith)
            requires
                0 <= k < 768,
                n == k / 3,
        ;
    } else {
        let m = k - boundary_slots();
        let c = m / 3;
        assert(0 <= c < 4096 && m == 3 * c + m % 3) by (nonlinear_arith)
            requires
                0 <= m < 12288,
                c == m / 3,
        ;
        crate::chunk::lemma_index_decompose(c);
    }
}

/// A quad's corner positions give its block position and direction.
proof fn lemma_quad_injective(p: Vec3i, d: Direction, q: Vec3i, e: Direction)
    requires
        0 <= p.x < 16 && 0 <= p.y < 16 && 0 <= p.z < 16,
        0 <= q.x < 16 && 0 <= q.y < 16 && 0 <= q.z < 16,
        crate::mesh::quad_positions(p, d) == crate::mesh::quad_positions(q, e),
    ensures
        p == q,
        d == e,
{
    let a = crate::mesh::quad_positions(p, d);
    let b = crate::mesh::quad_positions(q, e);
    assert(a[0] == b[0] && a[1] == b[1] && a[2] == b[2]);
    let da = (a[1].x - a[0].x, a[1].y - a[0].y, a[1].z - a[0].z, a[2].x - a[1].x, a[2].y - a[1].y, a[2].z - a[1].z);
    assert(d == e) by {
        match d {
            Direction::Px => assert(da == (0int, 1int, 0int, 0int, 0int, -1int)),
            Direction::Py => assert(da == (1int, 0int, 0int, 0int, 0int, 1int)),
            Direction::Pz => assert(da == (0int, 1int, 0int, 1int, 0int, 0int)),
            Direction::Nx => assert(da == (0int, 1int, 0int, 0int, 0int, 1int)),
            Direction::Ny => assert(da == (1int, 0int, 0int, 0int, 0int, -1int)),
            Direction::Nz => assert(da == (0int, 1int, 0int, -1int, 0int, 0int)),
        }
        match e {
            Direction::Px => assert(da == (0int, 1int, 0int, 0int, 0int, -1int)),
            Direction::Py => assert(da == (1int, 0int, 0int, 0int, 0int, 1int)),
            Direction::Pz => assert(da == (0int, 1int, 0int, 1int, 0int, 0int)),
            Direction::Nx => assert(da == (0int, 1int, 0int, 0int, 0int, 1int)),
            Direction::Ny => assert(da == (1int, 0int, 0int, 0int, 0int, -1int)),
            Direction::Nz => assert(da == (0int, 1int, 0int, -1int, 0int, 0int)),
        }
    }
}

/// Different scan steps would add quads at different places.
proof fn lemma_slot_quad_injective(blocks: Seq<Block>, t: int, s: int)
    requires
        0 <= t < scan_slots(),
        0 <= s < scan_slots(),
        slot_quad(blocks, t) == slot_quad(blocks, s),
    ensures
        t == s,
{
    lemma_slot_shape(blocks, t);
    lemma_slot_shape(blocks, s);
    let p = slot_face(blocks, t).0;
    let q = slot_face(blocks, s).0;
    lemma_quad_injective(p, slot_face(blocks, t).1, q, slot_face(blocks, s).1);
}

/// One scan step appends its quad exactly when it adds one.
proof fn lemma_mesh_step(blocks: Seq<Block>, k: nat)
    ensures
        mesh_upto(blocks, k + 1).positions == (if slot_emits(blocks, k as int) {
            mesh_upto(blocks, k).positions + slot_quad(blocks, k as int)
        } else {
            mesh_upto(blocks, k).positions
        }),
{
}

/// The `f`-th quad of `ps` is the quad of a step before `k` that adds one.
pub open spec fn quad_from_step(blocks: Seq<Block>, ps: Seq<Vec3i>, k: int, f: int) -> bool {
    exists|t: int| 0 <= t < k && slot_emits(blocks, t) && quad_at(ps, f) == slot_quad(blocks, t)
}

/// The quad of step `t` is one of the quads of `ps`.
pub open spec fn step_has_quad(blocks: Seq<Block>, ps: Seq<Vec3i>, t: int) -> bool {
    exists|f: int| 0 <= f < ps.len() / 4 && quad_at(ps, f) == slot_quad(blocks, t)
}

/// Every run of four positions in a scan's mesh is the quad of one step that
/// added a quad, and every such step's quad appears as one of those runs.
proof fn lemma_mesh_quads(blocks: Seq<Block>, k: nat)
    requires
        k <= scan_slots(),
    ensures
        mesh_upto(blocks, k).positions.len() % 4 == 0,
        forall|f: int|
            0 <= f < mesh_upto(blocks, k).positions.len() / 4 ==> #[trigger] quad_from_step(
                blocks,
                mesh_upto(blocks, k).positions,
                k as int,
                f,
            ),
        forall|t: int|
            0 <= t < k && slot_emits(blocks, t) ==> #[trigger] step_has_quad(
                blocks,
                mesh_upto(blocks, k).positions,
                t,
            ),
    decreases k,
{
    lemma_mesh_upto_wf(blocks, k);
    if k > 0 {
        let k0 = (k - 1) as nat;
        let t0 = k0 as int;
        lemma_mesh_quads(blocks, k0);
        lemma_mesh_upto_wf(blocks, k0);
        lemma_mesh_step(blocks, k0);
        let prev = mesh_upto(blocks, k0).positions;
        let ps = mesh_upto(blocks, k).positions;
        let n = prev.len() as int / 4;
        let emits = slot_emits(blocks, t0);
        assert(ps.len() / 4 == (if emits { n + 1 } else { n }));
        assert forall|f: int| 0 <= f < n implies #[trigger] quad_at(ps, f) == quad_at(prev, f) by {
            assert(quad_at(ps, f) =~= quad_at(prev, f));
        }
        if emits {
            assert(quad_at(ps, n) =~= slot_quad(blocks, t0));
        }
        assert forall|f: int| 0 <= f < ps.len() / 4 implies #[trigger] quad_from_step(blocks, ps, k as int, f) by {
            if f < n {
                assert(quad_from_step(blocks, prev, k0 as int, f));
                let t = choose|t: int| 0 <= t < k0 && slot_emits(blocks, t) && quad_at(prev, f) == slot_quad(blocks, t);
                assert(quad_at(ps, f) == quad_at(prev, f));
                assert(0 <= t < k && slot_emits(blocks, t) && quad_at(ps, f) == slot_quad(blocks, t));
            } else {
                assert(0 <= t0 < k && slot_emits(blocks, t0) && quad_at(ps, f) == slot_quad(blocks, t0));
            }
        }
        assert forall|t: int| 0 <= t < k && slot_emits(blocks, t) implies #[trigger] step_has_quad(blocks, ps, t) by {
            if t < k0 {
                assert(step_has_quad(blocks, prev, t));
                let f = choose|f: int| 0 <= f < prev.len() / 4 && quad_at(prev, f) == slot_quad(blocks, t);
                assert(quad_at(ps, f) == quad_at(prev, f));
                assert(0 <= f < ps.len() / 4 && quad_at(ps, f) == slot_quad(blocks, t));
            } else {
                assert(0 <= n < ps.len() / 4 && quad_at(ps, n) == slot_quad(blocks, t));
            }
        }
    }
}

/// Two chunks whose scans differ at one step in whether they add the same
/// quad have meshes with different positions.
proof fn lemma_emission_distinguishes(b1: Seq<Block>, b2: Seq<Block>, ks: int)
    requires
        0 <= ks < scan_slots(),
        slot_emits(b1, ks),
        !slot_emits(b2, ks),
        slot_quad(b1, ks) == slot_quad(b2, ks),
    ensures
        chunk_mesh(b1).positions != chunk_mesh(b2).positions,
{
    let n = scan_slots() as nat;
    lemma_mesh_quads(b1, n);
    lemma_mesh_quads(b2, n);
    let ps = chunk_mesh(b1).positions;
    assert(step_has_quad(b1, ps, ks));
    let f = choose|f: int| 0 <= f < ps.len() / 4 && quad_at(ps, f) == slot_quad(b1, ks);
    if chunk_mesh(b2).positions == ps {
        assert(quad_from_step(b2, ps, n as int, f));
        let t = choose|t: int| 0 <= t < n && slot_emits(b2, t) && quad_at(ps, f) == slot_quad(b2, t);
        lemma_slot_quad_injective(b2, t, ks);
    }
}

/// Making one block of a chunk solid where it was air, or air where it was
/// solid, changes the positions of the chunk's mesh.
pub proof fn lemma_solidity_change_changes_mesh(blocks: Seq<Block>, x: int, y: int, z: int, block: Block)
    requires
        blocks.len() == 4096,
        in_bounds(x, y, z),
        block_at(blocks, x, y, z).is_air() != block.is_air(),
    ensures
        chunk_mesh(blocks).positions != chunk_mesh(blocks.update(index_of(x, y, z), block)).positions,
{
    let edited = blocks.update(index_of(x, y, z), block);
    lemma_index_compose(x, y, z);
    lemma_cell_slot(x, y, z);
    let ks = boundary_slots() + 3 * index_of(x, y, z);
    if x + 1 < 16 {
        lemma_index_compose(x + 1, y, z);
    }
    assert(get_or_air_spec(blocks, x + 1, y, z) == get_or_air_spec(edited, x + 1, y, z));
    assert(slot_emits(blocks, ks) != slot_emits(edited, ks) && slot_quad(blocks, ks) == slot_quad(edited, ks)) by {
        reveal(slot_face);
    }
    if slot_emits(blocks, ks) {
        lemma_emission_distinguishes(blocks, edited, ks);
    } else {
        lemma_emission_distinguishes(edited, blocks, ks);
    }
}

impl Chunk {
    /// Builds the chunk's mesh: one quad for every block face between a solid
    /// block and air, with the chunk's surroundings read as air.
    pub fn build_mesh(&self) -> (r: Mesh)
        requires
            self.wf(),
        ensures
            r@ == chunk_mesh(self@.blocks),
            r@.wf(),
    {
        let ghost blocks = self@.blocks;
        let mut m = IncompleteMesh::new();
        let mut i: i32 = 0;
        while i < 16
            invariant
                0 <= i <= 16,
                self.wf(),
                blocks == self@.blocks,
                m@ == mesh_upto(blocks, (48 * i) as nat),
            decreases 16 - i,
        {
            let mut j: i32 = 0;
            while j < 16
                invariant
                    0 <= i < 16,
                    0 <= j <= 16,
                    self.wf(),
                    blocks == self@.blocks,
                    m@ == mesh_upto(blocks, (48 * i + 3 * j) as nat),
                decreases 16 - j,
            {
                let ghost k = 48 * i + 3 * j;
                proof {
                    lemma_boundary_slot(i as int, j as int);
                    lemma_mesh_upto_wf(blocks, k as nat);
                    lemma_mesh_upto_wf(blocks, (k + 1) as nat);
                    lemma_mesh_upto_wf(blocks, (k + 2) as nat);
                }
                let a = self.get_or_air(0, i, j);
                m.maybe_add_face(Vec3i { x: 0, y: i, z: j }, Direction::Nx, a, Block::Air);
                assert(m@ == mesh_upto(blocks, (k + 1) as nat)) by {
                    reveal(slot_face);
                }
                let a = self.get_or_air(i, 0, j);
                m.maybe_add_face(Vec3i { x: i, y: 0, z: j }, Direction::Ny, a, Block::Air);
                assert(m@ == mesh_upto(blocks, (k + 2) as nat)) by {
                    reveal(slot_face);
                }
                let a = self.get_or_air(i, j, 0);
                m.maybe_add_face(Vec3i { x: i, y: j, z: 0 }, Direction::Nz, a, Block::Air);
                assert(m@ == mesh_upto(blocks, (k + 3) as nat)) by {
                    reveal(slot_face);
                }
                j += 1;
            }
            i += 1;
        }
        let mut x: i32 = 0;
        while x < 16
            invariant
                0 <= x <= 16,
                self.wf(),
                blocks == self@.blocks,
                m@ == mesh_upto(blocks, (768 + 768 * x) as nat),
            decreases 16 - x,
        {
            let mut y: i32 = 0;
            while y < 16
                invariant
                    0 <= x < 16,
                    0 <= y <= 16,
                    self.wf(),
                    blocks == self@.blocks,
                    m@ == mesh_upto(blocks, (768 + 768 * x + 48 * y) as nat),
                decreases 16 - y,
            {
                let mut z: i32 = 0;
                while z < 16
                    invariant
                        0 <= x < 16,
                        0 <= y < 16,
                        0 <= z <= 16,
                        self.wf(),
                        blocks == self@.blocks,
                        m@ == mesh_upto(blocks, (768 + 768 * x + 48 * y + 3 * z) as nat),
                    decreases 16 - z,
                {
                    let ghost k = 768 + 768 * x + 48 * y + 3 * z;
                    proof {
                        lemma_cell_slot(x as int, y as int, z as int);
                        assert(k == 768 + 3 * index_of(x as int, y as int, z as int));
                        lemma_mesh_upto_wf(blocks, k as nat);
                        lemma_mesh_upto_wf(blocks, (k + 1) as nat);
                        lemma_mesh_upto_wf(blocks, (k + 2) as nat);
                    }
                    let a = self.get_or_air(x, y, z);
                    let pos = Vec3i { x, y, z };
                    let px = self.get_or_air(x + 1, y, z);
                    m.maybe_add_face(pos, Direction::Px, a, px);
                    assert(m@ == mesh_upto(blocks, (k + 1) as nat)) by {
                    reveal(slot_face);
                }
                    let py = self.get_or_air(x, y + 1, z);
                    m.maybe_add_face(pos, Direction::Py, a, py);
                    assert(m@ == mesh_upto(blocks, (k + 2) as nat)) by {
                    reveal(slot_face);
                }
                    let pz = self.get_or_air(x, y, z + 1);
                    m.maybe_add_face(pos, Direction::Pz, a, pz);
                    assert(m@ == mesh_upto(blocks, (k + 3) as nat)) by {
                    reveal(slot_face);
                }
                    z += 1;
                }
                y += 1;
            }
            x += 1;
        }
        proof {
            lemma_mesh_upto_wf(blocks, scan_slots() as nat);
        }
        m.complete()
    }
}

} // verus!
