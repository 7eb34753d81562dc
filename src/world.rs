use vstd::prelude::*;

use crate::block::Block;
use crate::chunk::{block_at, get_or_air_spec, in_bounds, index_of, terrain_blocks, Chunk, ChunkId};
use crate::mesh::{collision_of, mesh_to_tri_mesh, v3, TriMesh, TriMeshView, Vec3i};
use crate::mesher::chunk_mesh;

verus! {

/// Fixed-point units per block, for world positions and ray distances.
pub const UNITS_PER_BLOCK: i64 = 1_000_000;

/// Fixed-point units per chunk side.
pub const UNITS_PER_CHUNK: i64 = 16_000_000;

/// A hit within this many units of a block boundary lies on that boundary.
pub const BOUNDARY_TOLERANCE: i64 = 500;

/// The farthest distance, in fixed-point units, at which a ray hit counts.
pub const MAX_RAY_DISTANCE: u64 = 10_000_000_000;

/// Bound on the magnitude of a ray origin's coordinates.
pub const MAX_ORIGIN: i64 = 1_000_000_000_000_000_000;

/// A point in world space, in fixed-point units.
#[derive(Clone, Copy, Debug, PartialEq, Eq, Structural)]
pub struct Point3 {
    pub x: i64,
    pub y: i64,
    pub z: i64,
}

/// A pick ray. The direction is a unit vector scaled to fixed-point units, so
/// that `origin + direction * t / UNITS_PER_BLOCK` is the point at distance `t`.
#[derive(Clone, Copy, Debug, PartialEq, Eq, Structural)]
pub struct Ray {
    pub origin: Point3,
    pub direction: Point3,
}

pub open spec fn abs_le(v: int, bound: int) -> bool {
    -bound <= v <= bound
}

impl Ray {
    /// Coordinates stay within the range in which positions along the ray fit `i64`.
    pub open spec fn wf(self) -> bool {
        &&& abs_le(self.origin.x as int, MAX_ORIGIN as int)
        &&& abs_le(self.origin.y as int, MAX_ORIGIN as int)
        &&& abs_le(self.origin.z as int, MAX_ORIGIN as int)
        &&& abs_le(self.direction.x as int, UNITS_PER_BLOCK as int)
        &&& abs_le(self.direction.y as int, UNITS_PER_BLOCK as int)
        &&& abs_le(self.direction.z as int, UNITS_PER_BLOCK as int)
    }

    /// The point at distance `t` along the ray, rounded down to a unit.
    pub open spec fn point_at_spec(self, t: int) -> Point3 {
        Point3 {
            x: (self.origin.x + (self.direction.x * t) / (UNITS_PER_BLOCK as int)) as i64,
            y: (self.origin.y + (self.direction.y * t) / (UNITS_PER_BLOCK as int)) as i64,
            z: (self.origin.z + (self.direction.z * t) / (UNITS_PER_BLOCK as int)) as i64,
        }
    }

    /// The point at distance `t` along the ray.
    pub fn point_at(&self, t: u64) -> (r: Point3)
        requires
            self.wf(),
            t <= MAX_RAY_DISTANCE,
        ensures
            r == self.point_at_spec(t as int),
            abs_le(r.x as int, MAX_ORIGIN + MAX_RAY_DISTANCE),
            abs_le(r.y as int, MAX_ORIGIN + MAX_RAY_DISTANCE),
            abs_le(r.z as int, MAX_ORIGIN + MAX_RAY_DISTANCE),
    {
        Point3 {
            x: self.origin.x + scaled_step(self.direction.x, t),
            y: self.origin.y + scaled_step(self.direction.y, t),
            z: self.origin.z + scaled_step(self.direction.z, t),
        }
    }
}

/// `d * t / UNITS_PER_BLOCK`, rounded down.
fn scaled_step(d: i64, t: u64) -> (r: i64)
    requires
        abs_le(d as int, UNITS_PER_BLOCK as int),
        t <= MAX_RAY_DISTANCE,
    ensures
        r == ((d as int) * (t as int)) / (UNITS_PER_BLOCK as int),
        abs_le(r as int, MAX_RAY_DISTANCE as int),
{
    let ti: i64 = t as i64;
    assert(abs_le(d * ti, 10_000_000_000_000_000)) by (nonlinear_arith)
        requires
            abs_le(d as int, 1_000_000),
            0 <= ti <= 10_000_000_000,
    ;
    let p: i64 = d * ti;
    let r = floor_div_units(p);
    assert(abs_le(r as int, MAX_RAY_DISTANCE as int)) by (nonlinear_arith)
        requires
            abs_le(p as int, 10_000_000_000_000_000),
            r == p / 1_000_000,
    ;
    r
}

/// `v / UNITS_PER_BLOCK`, rounded down.
pub fn floor_div_units(v: i64) -> (r: i64)
    ensures
        r == (v as int) / (UNITS_PER_BLOCK as int),
{
    if v >= 0 {
        ((v as u64) / (UNITS_PER_BLOCK as u64)) as i64
    } else {
        let m: u64 = (-(v + 1)) as u64;
        let q: i64 = (m / (UNITS_PER_BLOCK as u64)) as i64;
        assert(-q - 1 == v / 1_000_000) by (nonlinear_arith)
            requires
                v < 0,
                m == -(v + 1),
                q == m / 1_000_000,
        ;
        -q - 1
    }
}

/// The chunk a ray struck, where, and at what distance.
#[derive(Clone, Copy, Debug, PartialEq, Eq, Structural)]
pub struct WorldHit {
    pub chunk_id: ChunkId,
    pub hit_pos: Point3,
    pub dst: u64,
}

impl WorldHit {
    /// The hit point lies within the range that ray casts produce.
    pub open spec fn wf(self) -> bool {
        &&& abs_le(self.hit_pos.x as int, MAX_ORIGIN + MAX_RAY_DISTANCE)
        &&& abs_le(self.hit_pos.y as int, MAX_ORIGIN + MAX_RAY_DISTANCE)
        &&& abs_le(self.hit_pos.z as int, MAX_ORIGIN + MAX_RAY_DISTANCE)
    }
}

/// The block that a hit resolves to, in chunk-local coordinates.
#[derive(Clone, Copy, Debug, PartialEq, Eq, Structural)]
pub struct WorldTarget {
    pub local_pos: Vec3i,
    pub block: Block,
}

/// Whether a fixed-point coordinate lies within the tolerance of a block boundary.
pub open spec fn near_boundary(v: int) -> bool {
    (v + BOUNDARY_TOLERANCE) % (UNITS_PER_BLOCK as int) <= 2 * BOUNDARY_TOLERANCE
}

/// The axis of the face that a chunk-local hit point lies on: x, then y, then z.
pub open spec fn hit_axis(lx: int, ly: int, lz: int) -> int {
    if near_boundary(lx) {
        0
    } else if near_boundary(ly) {
        1
    } else {
        2
    }
}

/// The block that a hit at chunk-local fixed-point coordinates `(lx, ly, lz)` targets.
///
/// The block containing the point and its neighbour on the negative side of
/// the face's axis share the struck face; the target is whichever of the two
/// is solid, and there is none when both or neither are.
pub open spec fn target_spec(blocks: Seq<Block>, lx: int, ly: int, lz: int) -> Option<WorldTarget> {
    let u = UNITS_PER_BLOCK as int;
    let (fx, fy, fz) = (lx / u, ly / u, lz / u);
    let axis = hit_axis(lx, ly, lz);
    let (gx, gy, gz) = (
        if axis == 0 { fx - 1 } else { fx },
        if axis == 1 { fy - 1 } else { fy },
        if axis == 2 { fz - 1 } else { fz },
    );
    let upper = get_or_air_spec(blocks, fx, fy, fz);
    let lower = get_or_air_spec(blocks, gx, gy, gz);
    if upper.is_air() && !lower.is_air() {
        Some(WorldTarget { local_pos: v3(gx, gy, gz), block: lower })
    } else if !upper.is_air() && lower.is_air() {
        Some(WorldTarget { local_pos: v3(fx, fy, fz), block: upper })
    } else {
        None
    }
}

/// The chunk-local fixed-point coordinate of a world coordinate in chunk `c`.
pub open spec fn local_coord(world: int, c: int) -> int {
    world - UNITS_PER_CHUNK * c
}

/// `a` comes before `b` in the lexicographic order of chunk ids.
pub open spec fn id_less(a: ChunkId, b: ChunkId) -> bool {
    a.x < b.x || (a.x == b.x && (a.y < b.y || (a.y == b.y && a.z < b.z)))
}

fn id_less_exec(a: ChunkId, b: ChunkId) -> (r: bool)
    ensures
        r == id_less(a, b),
{
    a.x < b.x || (a.x == b.x && (a.y < b.y || (a.y == b.y && a.z < b.z)))
}

/// Whether `hits[i]` is a hit that the ray cast counts.
pub open spec fn valid_hit(w: WorldView, hits: Seq<Option<u64>>, i: int) -> bool {
    &&& w.slots[i].collider is Some
    &&& hits[i] is Some
    &&& hits[i]->Some_0 <= MAX_RAY_DISTANCE
}

/// Hit `i` comes before hit `j`: it is nearer, or as near with a lesser chunk id.
pub open spec fn hit_before(w: WorldView, hits: Seq<Option<u64>>, i: int, j: int) -> bool {
    hits[i]->Some_0 < hits[j]->Some_0 || (hits[i]->Some_0 == hits[j]->Some_0 && id_less(
        w.slots[i].id,
        w.slots[j].id,
    ))
}

fn near_boundary_exec(v: i64) -> (r: bool)
    requires
        abs_le(v as int, 2 * MAX_ORIGIN),
    ensures
        r == near_boundary(v as int),
{
    let w: i64 = v + BOUNDARY_TOLERANCE;
    let q = floor_div_units(w);
    proof {
        vstd::arithmetic::div_mod::lemma_fundamental_div_mod(w as int, 1_000_000);
        assert(abs_le(q as int, 3_000_000_000_000)) by (nonlinear_arith)
            requires
                abs_le(w as int, 2_000_000_000_000_000_500),
                q == (w as int) / 1_000_000,
        ;
    }
    let rem: i64 = w - q * UNITS_PER_BLOCK;
    rem <= 2 * BOUNDARY_TOLERANCE
}

/// The abstract content of one chunk's entry in the world.
pub struct SlotView {
    pub id: ChunkId,
    pub blocks: Seq<Block>,
    pub collider: Option<TriMeshView>,
    pub entity: Option<u64>,
}

/// The abstract content of the world: its chunk entries and its dirty list.
pub struct WorldView {
    pub slots: Seq<SlotView>,
    pub dirty: Seq<ChunkId>,
}

/// The dirty list with `id` added, unless it is there already.
pub open spec fn with_dirty(dirty: Seq<ChunkId>, id: ChunkId) -> Seq<ChunkId> {
    if dirty.contains(id) {
        dirty
    } else {
        dirty.push(id)
    }
}

impl WorldView {
    pub open spec fn contains(self, id: ChunkId) -> bool {
        exists|i: int| 0 <= i < self.slots.len() && self.slots[i].id == id
    }

    /// The position of chunk `id` among the entries.
    pub open spec fn slot_index(self, id: ChunkId) -> int {
        choose|i: int| 0 <= i < self.slots.len() && self.slots[i].id == id
    }

    /// In a world with unique ids, an entry's position is the position of its id.
    pub proof fn lemma_slot_index(self, i: int)
        requires
            self.ids_unique(),
            0 <= i < self.slots.len(),
        ensures
            self.contains(self.slots[i].id),
            self.slot_index(self.slots[i].id) == i,
    {
        let id = self.slots[i].id;
        assert(0 <= i < self.slots.len() && self.slots[i].id == id);
        let j = self.slot_index(id);
        assert(0 <= j < self.slots.len() && self.slots[j].id == id);
        if j != i {
            assert(self.slots[i].id != self.slots[j].id);
        }
    }

    pub open spec fn ids_unique(self) -> bool {
        forall|i: int, j: int|
            0 <= i < self.slots.len() && 0 <= j < self.slots.len() && i != j ==> self.slots[i].id
                != self.slots[j].id
    }

    /// Whether a chunk's collision shape matches its current blocks.
    pub open spec fn collider_fresh(self, i: int) -> bool {
        self.slots[i].collider == Some(collision_of(chunk_mesh(self.slots[i].blocks)))
    }

    /// Chunk ids are unique, every chunk is a full grid, the dirty list names
    /// present chunks once each, and every chunk not on it has an up-to-date
    /// collision shape.
    pub open spec fn wf(self) -> bool {
        &&& self.ids_unique()
        &&& forall|i: int| 0 <= i < self.slots.len() ==> (#[trigger] self.slots[i]).blocks.len() == 4096
        &&& self.dirty.no_duplicates()
        &&& forall|k: int| 0 <= k < self.dirty.len() ==> self.contains(#[trigger] self.dirty[k])
        &&& forall|i: int|
            0 <= i < self.slots.len() && !self.dirty.contains(#[trigger] self.slots[i].id)
                ==> self.collider_fresh(i)
    }

    /// The world after one block edit in the chunk at entry `i`.
    pub open spec fn with_block(self, i: int, x: int, y: int, z: int, block: Block) -> WorldView {
        let s = self.slots[i];
        WorldView {
            slots: self.slots.update(
                i,
                SlotView { blocks: s.blocks.update(index_of(x, y, z), block), ..s },
            ),
            dirty: with_dirty(self.dirty, s.id),
        }
    }

    /// The world after a rebuild pass: every dirty chunk has a fresh collision
    /// shape and no render entity, and nothing is dirty.
    pub open spec fn rebuilt(self) -> WorldView {
        WorldView {
            slots: Seq::new(
                self.slots.len(),
                |i: int|
                    if self.dirty.contains(self.slots[i].id) {
                        SlotView {
                            collider: Some(collision_of(chunk_mesh(self.slots[i].blocks))),
                            entity: None,
                            ..self.slots[i]
                        }
                    } else {
                        self.slots[i]
                    },
            ),
            dirty: seq![],
        }
    }

    /// The world with render entity `e` registered for the chunk at entry `i`.
    pub open spec fn with_entity(self, i: int, e: u64) -> WorldView {
        WorldView {
            slots: self.slots.update(i, SlotView { entity: Some(e), ..self.slots[i] }),
            dirty: self.dirty,
        }
    }
}

/// The index of an in-bounds coordinate lies within a chunk's grid.
pub proof fn lemma_index_in_chunk(x: int, y: int, z: int)
    requires
        in_bounds(x, y, z),
    ensures
        0 <= index_of(x, y, z) < 4096,
{
}

/// Adding an id to the dirty list keeps it free of repeats and adds only that id.
pub proof fn lemma_with_dirty(dirty: Seq<ChunkId>, id: ChunkId)
    requires
        dirty.no_duplicates(),
    ensures
        with_dirty(dirty, id).no_duplicates(),
        with_dirty(dirty, id).contains(id),
        forall|d: ChunkId| #[trigger] with_dirty(dirty, id).contains(d) <==> dirty.contains(d) || d == id,
        forall|k: int| 0 <= k < dirty.len() ==> #[trigger] with_dirty(dirty, id)[k] == dirty[k],
{
    if !dirty.contains(id) {
        let r = dirty.push(id);
        assert(r[dirty.len() as int] == id);
        assert forall|d: ChunkId| #[trigger] r.contains(d) implies dirty.contains(d) || d == id by {
            let k = choose|k: int| 0 <= k < r.len() && r[k] == d;
            if k < dirty.len() {
                assert(dirty[k] == d);
            }
        }
        assert forall|d: ChunkId| dirty.contains(d) implies #[trigger] r.contains(d) by {
            let k = choose|k: int| 0 <= k < dirty.len() && dirty[k] == d;
            assert(r[k] == d);
        }
    }
}

/// Changing the blocks of entry `i` and marking its id dirty keeps the world well formed.
pub proof fn lemma_edit_keeps_wf(w0: WorldView, i: int, w: WorldView)
    requires
        w0.wf(),
        0 <= i < w0.slots.len(),
        w.slots.len() == w0.slots.len(),
        w.dirty == with_dirty(w0.dirty, w0.slots[i].id),
        w.slots[i].id == w0.slots[i].id,
        w.slots[i].blocks.len() == 4096,
        forall|j: int| 0 <= j < w.slots.len() && j != i ==> w.slots[j] == w0.slots[j],
    ensures
        w.wf(),
{
    lemma_with_dirty(w0.dirty, w0.slots[i].id);
    assert forall|a: int, b: int|
        0 <= a < w.slots.len() && 0 <= b < w.slots.len() && a != b implies w.slots[a].id != w.slots[b].id by {
        assert(w.slots[a].id == w0.slots[a].id);
        assert(w.slots[b].id == w0.slots[b].id);
    }
    assert forall|a: int| 0 <= a < w.slots.len() implies (#[trigger] w.slots[a]).blocks.len() == 4096 by {
        if a != i {
            assert(w.slots[a] == w0.slots[a]);
        }
    }
    assert forall|k: int| 0 <= k < w.dirty.len() implies w.contains(#[trigger] w.dirty[k]) by {
        let d = w.dirty[k];
        assert(w.dirty.contains(d));
        if d == w0.slots[i].id {
            assert(w.slots[i].id == d);
        } else {
            assert(w0.dirty.contains(d));
            let j = choose|j: int| 0 <= j < w0.dirty.len() && w0.dirty[j] == d;
            assert(w0.contains(w0.dirty[j]));
            let m = choose|m: int| 0 <= m < w0.slots.len() && w0.slots[m].id == d;
            if m != i {
                assert(w.slots[m] == w0.slots[m]);
            }
            assert(w.slots[m].id == d);
        }
    }
    assert forall|a: int| 0 <= a < w.slots.len() && !w.dirty.contains(#[trigger] w.slots[a].id) implies w.collider_fresh(
        a,
    ) by {
        if a == i {
            assert(w.dirty.contains(w0.slots[i].id));
        } else {
            assert(w.slots[a] == w0.slots[a]);
            assert(!w0.dirty.contains(w0.slots[a].id));
            assert(w0.collider_fresh(a));
        }
    }
}

/// A ray cast straight down onto the top face of a solid block that has air
/// above it resolves to that block.
///
/// The ray starts above the block's top face, over the block and away from
/// its vertical edges, and the hit lies where the ray meets the plane of the
/// top face.
pub proof fn lemma_ray_down_targets_block(
    blocks: Seq<Block>,
    c: ChunkId,
    x: int,
    y: int,
    z: int,
    origin: Point3,
)
    requires
        blocks.len() == 4096,
        in_bounds(x, y, z),
        !block_at(blocks, x, y, z).is_air(),
        get_or_air_spec(blocks, x, y + 1, z).is_air(),
        abs_le(origin.x as int, MAX_ORIGIN as int),
        abs_le(origin.y as int, MAX_ORIGIN as int),
        abs_le(origin.z as int, MAX_ORIGIN as int),
        UNITS_PER_BLOCK * x + BOUNDARY_TOLERANCE < local_coord(origin.x as int, c.x as int)
            < UNITS_PER_BLOCK * (x + 1) - BOUNDARY_TOLERANCE,
        UNITS_PER_BLOCK * z + BOUNDARY_TOLERANCE < local_coord(origin.z as int, c.z as int)
            < UNITS_PER_BLOCK * (z + 1) - BOUNDARY_TOLERANCE,
        UNITS_PER_BLOCK * (y + 1) <= local_coord(origin.y as int, c.y as int) <= UNITS_PER_BLOCK * (y
            + 1) + MAX_RAY_DISTANCE,
    ensures
        ({
            let ray = Ray { origin, direction: Point3 { x: 0, y: (-UNITS_PER_BLOCK) as i64, z: 0 } };
            let t = local_coord(origin.y as int, c.y as int) - UNITS_PER_BLOCK * (y + 1);
            let p = ray.point_at_spec(t);
            &&& ray.wf()
            &&& 0 <= t <= MAX_RAY_DISTANCE
            &&& target_spec(
                blocks,
                local_coord(p.x as int, c.x as int),
                local_coord(p.y as int, c.y as int),
                local_coord(p.z as int, c.z as int),
            ) == Some(WorldTarget { local_pos: v3(x, y, z), block: block_at(blocks, x, y, z) })
        }),
{
    let u = UNITS_PER_BLOCK as int;
    let ray = Ray { origin, direction: Point3 { x: 0, y: (-UNITS_PER_BLOCK) as i64, z: 0 } };
    let t = local_coord(origin.y as int, c.y as int) - u * (y + 1);
    assert((0 * t) / u == 0);
    assert((-u * t) / u == -t) by (nonlinear_arith)
        requires
            u == 1_000_000,
    ;
    let p = ray.point_at_spec(t);
    assert(p.x == origin.x);
    assert(p.z == origin.z);
    assert(p.y as int == origin.y - t);
    let lx = local_coord(p.x as int, c.x as int);
    let ly = local_coord(p.y as int, c.y as int);
    let lz = local_coord(p.z as int, c.z as int);
    assert(ly == u * (y + 1));
    assert(lx / u == x && !near_boundary(lx)) by (nonlinear_arith)
        requires
            u == 1_000_000,
            u * x + 500 < lx < u * (x + 1) - 500,
            0 <= x,
    ;
    assert(lz / u == z) by (nonlinear_arith)
        requires
            u == 1_000_000,
            u * z + 500 < lz < u * (z + 1) - 500,
            0 <= z,
    ;
    assert(ly / u == y + 1 && near_boundary(ly)) by (nonlinear_arith)
        requires
            u == 1_000_000,
            ly == u * (y + 1),
            0 <= y,
    ;
    assert(hit_axis(lx, ly, lz) == 1);
}

/// One block edit in a world with nothing pending, followed by one rebuild
/// pass and the registration of the entity that displays the new mesh,
/// leaves the edited chunk off the dirty list, with the collision shape of its
/// new blocks and the new entity, and every other chunk exactly as it was.
pub proof fn lemma_edit_then_rebuild(w: WorldView, i: int, x: int, y: int, z: int, block: Block, e: u64)
    requires
        w.wf(),
        w.dirty.len() == 0,
        0 <= i < w.slots.len(),
        in_bounds(x, y, z),
    ensures
        ({
            let edited = w.slots[i].blocks.update(index_of(x, y, z), block);
            let after = w.with_block(i, x, y, z, block).rebuilt().with_entity(i, e);
            &&& after.slots.len() == w.slots.len()
            &&& !after.dirty.contains(w.slots[i].id)
            &&& after.slots[i].id == w.slots[i].id
            &&& after.slots[i].blocks == edited
            &&& after.slots[i].collider == Some(collision_of(chunk_mesh(edited)))
            &&& after.slots[i].entity == Some(e)
            &&& forall|j: int| 0 <= j < w.slots.len() && j != i ==> #[trigger] after.slots[j] == w.slots[j]
        }),
{
    let w1 = w.with_block(i, x, y, z, block);
    let id = w.slots[i].id;
    assert(w1.dirty =~= seq![id]);
    assert(w1.dirty.contains(id)) by {
        assert(w1.dirty[0] == id);
    }
    assert forall|j: int| 0 <= j < w.slots.len() && j != i implies !w1.dirty.contains(
        #[trigger] w1.slots[j].id,
    ) by {
        assert(w1.slots[j].id != id);
        if w1.dirty.contains(w1.slots[j].id) {
            let k = choose|k: int| 0 <= k < w1.dirty.len() && w1.dirty[k] == w1.slots[j].id;
            assert(w1.dirty[k] == id);
        }
    }
    let after = w1.rebuilt().with_entity(i, e);
    assert(!after.dirty.contains(id));
}

/// When the edit turns a solid block to air or air to solid, and the new
/// render entity is not the one it replaces, the edited chunk's collision
/// shape and render entity after the rebuild both differ from before.
pub proof fn lemma_edit_then_rebuild_changes_geometry(
    w: WorldView,
    i: int,
    x: int,
    y: int,
    z: int,
    block: Block,
    e: u64,
)
    requires
        w.wf(),
        w.dirty.len() == 0,
        0 <= i < w.slots.len(),
        in_bounds(x, y, z),
        block_at(w.slots[i].blocks, x, y, z).is_air() != block.is_air(),
        w.slots[i].entity != Some(e),
    ensures
        ({
            let after = w.with_block(i, x, y, z, block).rebuilt().with_entity(i, e);
            &&& after.slots[i].collider != w.slots[i].collider
            &&& after.slots[i].entity != w.slots[i].entity
        }),
{
    lemma_edit_then_rebuild(w, i, x, y, z, block, e);
    assert(!w.dirty.contains(w.slots[i].id));
    assert(w.collider_fresh(i));
    crate::mesher::lemma_solidity_change_changes_mesh(w.slots[i].blocks, x, y, z, block);
}

/// A chunk with its derived collision shape and render entity.
struct ChunkSlot {
    chunk: Chunk,
    collider: Option<TriMesh>,
    entity: Option<u64>,
}

impl View for ChunkSlot {
    type V = SlotView;

    closed spec fn view(&self) -> SlotView {
        SlotView {
            id: self.chunk@.id,
            blocks: self.chunk@.blocks,
            collider: match self.collider {
                Some(t) => Some(t@),
                None => None,
            },
            entity: self.entity,
        }
    }
}

/// What the renderer must do for one rebuilt chunk: retire the old entity, if
/// any, and display the new mesh.
pub struct MeshUpdate {
    pub chunk_id: ChunkId,
    pub retire: Option<u64>,
    pub mesh: crate::mesh::Mesh,
}

/// The voxel world: its chunks, their collision shapes and render entities,
/// and the chunks whose derived geometry awaits a rebuild.
pub struct World {
    slots: Vec<ChunkSlot>,
    invalid_meshes: Vec<ChunkId>,
}

impl View for World {
    type V = WorldView;

    closed spec fn view(&self) -> WorldView {
        WorldView { slots: self.slots@.map_values(|s: ChunkSlot| s@), dirty: self.invalid_meshes@ }
    }
}

impl World {
    pub open spec fn wf(&self) -> bool {
        self@.wf()
    }

    /// A world with no chunks.
    pub fn new() -> (r: World)
        ensures
            r.wf(),
            r@.slots == Seq::<SlotView>::empty(),
            r@.dirty == Seq::<ChunkId>::empty(),
    {
        let r = World { slots: Vec::new(), invalid_meshes: Vec::new() };
        assert(r@.slots =~= Seq::<SlotView>::empty());
        r
    }

    /// The entry of chunk `id`, if the world holds it.
    pub fn position(&self, id: ChunkId) -> (r: Option<usize>)
        requires
            self@.ids_unique(),
        ensures
            match r {
                Some(i) => i < self@.slots.len() && self@.slots[i as int].id == id && i == self@.slot_index(id),
                None => !self@.contains(id),
            },
    {
        let mut i: usize = 0;
        while i < self.slots.len()
            invariant
                i <= self.slots@.len(),
                self@.ids_unique(),
                forall|j: int| 0 <= j < i ==> self@.slots[j].id != id,
            decreases self.slots@.len() - i,
        {
            if self.slots[i].chunk.id() == id {
                proof {
                    self@.lemma_slot_index(i as int);
                }
                return Some(i);
            }
            i += 1;
        }
        None
    }

    /// Resolves a hit to the solid block whose face it struck.
    ///
    /// The hit point is taken into the chunk's local frame. The first axis,
    /// in the order x, y, z, on which it lies on a block boundary is the axis
    /// of the struck face. The block containing the point and its neighbour on
    /// the negative side of that axis share the face; the target is whichever
    /// of them is solid, reading air outside the chunk. When both or neither
    /// are solid there is no target.
    pub fn target_from_hit(&self, hit: &WorldHit) -> (r: Option<WorldTarget>)
        requires
            self.wf(),
            hit.wf(),
            self@.contains(hit.chunk_id),
        ensures
            r == target_spec(
                self@.slots[self@.slot_index(hit.chunk_id)].blocks,
                local_coord(hit.hit_pos.x as int, hit.chunk_id.x as int),
                local_coord(hit.hit_pos.y as int, hit.chunk_id.y as int),
                local_coord(hit.hit_pos.z as int, hit.chunk_id.z as int),
            ),
    {
        let i = match self.position(hit.chunk_id) {
            Some(i) => i,
            None => {
                return None;
            },
        };
        let chunk = &self.slots[i].chunk;
        proof {
            assert(self@.slots[i as int].blocks.len() == 4096);
        }
        let lx: i64 = hit.hit_pos.x - UNITS_PER_CHUNK * (hit.chunk_id.x as i64);
        let ly: i64 = hit.hit_pos.y - UNITS_PER_CHUNK * (hit.chunk_id.y as i64);
        let lz: i64 = hit.hit_pos.z - UNITS_PER_CHUNK * (hit.chunk_id.z as i64);
        let ax: i64 = if near_boundary_exec(lx) {
            0
        } else if near_boundary_exec(ly) {
            1
        } else {
            2
        };
        let fx = floor_div_units(lx);
        let fy = floor_div_units(ly);
        let fz = floor_div_units(lz);
        let ghost blocks = self@.slots[i as int].blocks;
        if fx < -1 || fx > 16 || fy < -1 || fy > 16 || fz < -1 || fz > 16 {
            assert(!in_bounds(fx as int, fy as int, fz as int));
            return None;
        }
        let (fx, fy, fz) = (fx as i32, fy as i32, fz as i32);
        let gx: i32 = if ax == 0 { fx - 1 } else { fx };
        let gy: i32 = if ax == 1 { fy - 1 } else { fy };
        let gz: i32 = if ax == 2 { fz - 1 } else { fz };
        let upper = chunk.get_or_air(fx, fy, fz);
        let lower = chunk.get_or_air(gx, gy, gz);
        let upper_air = upper.is_air_exec();
        let lower_air = lower.is_air_exec();
        if upper_air && !lower_air {
            Some(WorldTarget { local_pos: Vec3i { x: gx, y: gy, z: gz }, block: lower })
        } else if !upper_air && lower_air {
            Some(WorldTarget { local_pos: Vec3i { x: fx, y: fy, z: fz }, block: upper })
        } else {
            None
        }
    }

    /// Picks the nearest hit among the chunks' collision shapes.
    ///
    /// `hits[i]` is the distance at which the ray meets the collision shape of
    /// the chunk at entry `i`, placed at the chunk's world offset. Only chunks
    /// with a collision shape and hits no farther than `MAX_RAY_DISTANCE`
    /// count. The nearest hit wins, and of equally near ones the chunk with
    /// the least id.
    pub fn cast_ray(&self, ray: &Ray, hits: &Vec<Option<u64>>) -> (r: Option<WorldHit>)
        requires
            self.wf(),
            ray.wf(),
            hits@.len() == self@.slots.len(),
        ensures
            r is None <==> forall|i: int| 0 <= i < hits@.len() ==> !valid_hit(self@, hits@, i),
            r matches Some(h) ==> exists|i: int|
                0 <= i < hits@.len() && #[trigger] valid_hit(self@, hits@, i) && h.chunk_id
                    == self@.slots[i].id && h.dst == hits@[i]->Some_0 && h.hit_pos == ray.point_at_spec(
                    h.dst as int,
                ) && h.wf() && forall|j: int|
                    0 <= j < hits@.len() && j != i && #[trigger] valid_hit(self@, hits@, j)
                        ==> hit_before(self@, hits@, i, j),
    {
        let mut best: Option<usize> = None;
        let mut k: usize = 0;
        while k < hits.len()
            invariant
                k <= hits@.len(),
                hits@.len() == self@.slots.len(),
                self.wf(),
                match best {
                    Some(b) => b < k && valid_hit(self@, hits@, b as int) && forall|j: int|
                        0 <= j < k && j != b && #[trigger] valid_hit(self@, hits@, j) ==> hit_before(
                            self@,
                            hits@,
                            b as int,
                            j,
                        ),
                    None => forall|j: int| 0 <= j < k ==> !#[trigger] valid_hit(self@, hits@, j),
                },
            decreases hits@.len() - k,
        {
            let has_collider = self.slots[k].collider.is_some();
            match hits[k] {
                Some(d) => {
                    if has_collider && d <= MAX_RAY_DISTANCE {
                        assert(valid_hit(self@, hits@, k as int));
                        match best {
                            None => {
                                best = Some(k);
                            },
                            Some(b) => {
                                let db = hits[b].unwrap();
                                let ib = self.slots[b].chunk.id();
                                let ik = self.slots[k].chunk.id();
                                proof {
                                    assert(self@.slots[b as int].id != self@.slots[k as int].id);
                                }
                                if d < db || (d == db && id_less_exec(ik, ib)) {
                                    best = Some(k);
                                }
                            },
                        }
                    }
                },
                None => {},
            }
            k += 1;
        }
        match best {
            None => None,
            Some(b) => {
                let d = hits[b].unwrap();
                let p = ray.point_at(d);
                let h = WorldHit { chunk_id: self.slots[b].chunk.id(), hit_pos: p, dst: d };
                assert(valid_hit(self@, hits@, b as int));
                Some(h)
            },
        }
    }

    /// Puts `id` on the dirty list unless it is there already.
    fn mark_dirty(&mut self, id: ChunkId)
        ensures
            final(self)@.dirty == with_dirty(old(self)@.dirty, id),
            final(self)@.slots == old(self)@.slots,
    {
        let mut k: usize = 0;
        while k < self.invalid_meshes.len()
            invariant
                k <= self.invalid_meshes@.len(),
                self.invalid_meshes@ == old(self).invalid_meshes@,
                self.slots@ == old(self).slots@,
                forall|j: int| 0 <= j < k ==> self.invalid_meshes@[j] != id,
            decreases self.invalid_meshes@.len() - k,
        {
            if self.invalid_meshes[k] == id {
                assert(self@.dirty.contains(id)) by {
                    assert(self@.dirty[k as int] == id);
                }
                return;
            }
            k += 1;
        }
        self.invalid_meshes.push(id);
    }

    /// Writes one block of chunk `id` and marks the chunk dirty. Returns
    /// whether the world holds that chunk; without it nothing changes.
    pub fn set_block(&mut self, id: ChunkId, x: usize, y: usize, z: usize, block: Block) -> (r: bool)
        requires
            old(self).wf(),
            in_bounds(x as int, y as int, z as int),
        ensures
            final(self).wf(),
            r == old(self)@.contains(id),
            r ==> final(self)@ == old(self)@.with_block(old(self)@.slot_index(id), x as int, y as int, z as int, block),
            !r ==> final(self)@ == old(self)@,
    {
        match self.position(id) {
            None => false,
            Some(i) => {
                let ghost w0 = self@;
                proof {
                    assert(w0.slots[i as int].blocks.len() == 4096);
                    lemma_index_in_chunk(x as int, y as int, z as int);
                }
                self.slots[i].chunk.set(x, y, z, block);
                self.mark_dirty(id);
                proof {
                    lemma_with_dirty(w0.dirty, id);
                    assert(self@.slots =~= w0.with_block(i as int, x as int, y as int, z as int, block).slots);
                    lemma_edit_keeps_wf(w0, i as int, self@);
                }
                true
            },
        }
    }

    /// Refills chunk `id` from the surface heights of its columns and marks it
    /// dirty; `heights` is laid out as for `Chunk::generate`. Returns whether
    /// the world holds that chunk; without it nothing changes.
    pub fn generate_chunk(&mut self, id: ChunkId, heights: &Vec<i32>) -> (r: bool)
        requires
            old(self).wf(),
            heights@.len() == 256,
        ensures
            final(self).wf(),
            r == old(self)@.contains(id),
            r ==> final(self)@.slots == old(self)@.slots.update(
                old(self)@.slot_index(id),
                SlotView { blocks: terrain_blocks(id, heights@), ..old(self)@.slots[old(self)@.slot_index(id)] },
            ),
            r ==> final(self)@.dirty == with_dirty(old(self)@.dirty, id),
            !r ==> final(self)@ == old(self)@,
    {
        match self.position(id) {
            None => false,
            Some(i) => {
                let ghost w0 = self@;
                proof {
                    assert(w0.slots[i as int].blocks.len() == 4096);
                }
                self.slots[i].chunk.generate(heights);
                self.mark_dirty(id);
                proof {
                    lemma_with_dirty(w0.dirty, id);
                    assert(self@.slots =~= w0.slots.update(
                        i as int,
                        SlotView { blocks: terrain_blocks(id, heights@), ..w0.slots[i as int] },
                    ));
                    lemma_edit_keeps_wf(w0, i as int, self@);
                }
                true
            },
        }
    }

    /// Refills every chunk from its column heights and marks every chunk
    /// dirty, as a change of the terrain's parameters requires. `heights[i]`
    /// holds the heights of the chunk at entry `i`, laid out as for
    /// `Chunk::generate`.
    pub fn regenerate_all(&mut self, heights: &Vec<Vec<i32>>)
        requires
            old(self).wf(),
            heights@.len() == old(self)@.slots.len(),
            forall|i: int| 0 <= i < heights@.len() ==> (#[trigger] heights@[i])@.len() == 256,
        ensures
            final(self).wf(),
            final(self)@.slots.len() == old(self)@.slots.len(),
            forall|i: int|
                0 <= i < old(self)@.slots.len() ==> #[trigger] final(self)@.slots[i] == (SlotView {
                    blocks: terrain_blocks(old(self)@.slots[i].id, heights@[i]@),
                    ..old(self)@.slots[i]
                }),
            forall|i: int| 0 <= i < old(self)@.slots.len() ==> final(self)@.dirty.contains(#[trigger] old(self)@.slots[i].id),
            forall|d: ChunkId| #[trigger] final(self)@.dirty.contains(d) ==> old(self)@.contains(d),
    {
        let ghost w0 = self@;
        let mut i: usize = 0;
        while i < self.slots.len()
            invariant
                i <= self@.slots.len(),
                self.wf(),
                w0.wf(),
                heights@.len() == w0.slots.len(),
                forall|j: int| 0 <= j < heights@.len() ==> (#[trigger] heights@[j])@.len() == 256,
                self@.slots.len() == w0.slots.len(),
                forall|j: int|
                    0 <= j < w0.slots.len() ==> #[trigger] self@.slots[j] == (if j < i {
                        (SlotView { blocks: terrain_blocks(w0.slots[j].id, heights@[j]@), ..w0.slots[j] })
                    } else {
                        w0.slots[j]
                    }),
                forall|j: int| 0 <= j < i ==> self@.dirty.contains(#[trigger] w0.slots[j].id),
            decreases self@.slots.len() - i,
        {
            let ghost w1 = self@;
            let id = self.slots[i].chunk.id();
            proof {
                assert(w1.slots[i as int].blocks.len() == 4096);
            }
            self.slots[i].chunk.generate(&heights[i]);
            self.mark_dirty(id);
            proof {
                lemma_with_dirty(w1.dirty, id);
                assert(self@.slots =~= w1.slots.update(
                    i as int,
                    SlotView { blocks: terrain_blocks(id, heights@[i as int]@), ..w1.slots[i as int] },
                ));
                lemma_edit_keeps_wf(w1, i as int, self@);
                assert forall|j: int| 0 <= j < i + 1 implies self@.dirty.contains(#[trigger] w0.slots[j].id) by {
                    if j < i {
                        assert(w1.dirty.contains(w0.slots[j].id));
                    }
                }
            }
            i += 1;
        }
        proof {
            let w = self@;
            assert forall|d: ChunkId| #[trigger] w.dirty.contains(d) implies w0.contains(d) by {
                let k = choose|k: int| 0 <= k < w.dirty.len() && w.dirty[k] == d;
                assert(w.contains(w.dirty[k]));
                let m = choose|m: int| 0 <= m < w.slots.len() && w.slots[m].id == d;
                assert(w0.slots[m].id == d);
            }
        }
    }

    /// Adds a chunk, or replaces the blocks of the chunk with its id, and marks
    /// it dirty. A replaced chunk keeps its stale collision shape and render
    /// entity until the next rebuild pass.
    pub fn insert_chunk(&mut self, chunk: Chunk)
        requires
            old(self).wf(),
            chunk.wf(),
        ensures
            final(self).wf(),
            final(self)@.dirty == with_dirty(old(self)@.dirty, chunk@.id),
            old(self)@.contains(chunk@.id) ==> final(self)@.slots == old(self)@.slots.update(
                old(self)@.slot_index(chunk@.id),
                SlotView { blocks: chunk@.blocks, ..old(self)@.slots[old(self)@.slot_index(chunk@.id)] },
            ),
            !old(self)@.contains(chunk@.id) ==> final(self)@.slots == old(self)@.slots.push(
                SlotView { id: chunk@.id, blocks: chunk@.blocks, collider: None, entity: None },
            ),
    {
        let ghost w0 = self@;
        let ghost cv = chunk@;
        let id = chunk.id();
        proof {
            lemma_with_dirty(w0.dirty, id);
        }
        match self.position(id) {
            Some(i) => {
                self.slots[i].chunk = chunk;
                self.mark_dirty(id);
                proof {
                    assert(self@.slots =~= w0.slots.update(
                        i as int,
                        SlotView { blocks: cv.blocks, ..w0.slots[i as int] },
                    ));
                    lemma_edit_keeps_wf(w0, i as int, self@);
                }
            },
            None => {
                self.slots.push(ChunkSlot { chunk, collider: None, entity: None });
                self.mark_dirty(id);
                proof {
                    let nv = SlotView { id, blocks: cv.blocks, collider: None, entity: None };
                    assert(self@.slots =~= w0.slots.push(nv));
                    let w = self@;
                    assert forall|k: int| 0 <= k < w.dirty.len() implies w.contains(#[trigger] w.dirty[k]) by {
                        if w.dirty[k] == id {
                            assert(w.slots[w0.slots.len() as int].id == id);
                        } else {
                            assert(w0.dirty.contains(w.dirty[k]));
                            let d = w.dirty[k];
                            let j = choose|j: int| 0 <= j < w0.dirty.len() && w0.dirty[j] == d;
                            assert(w0.contains(w0.dirty[j]));
                            let m = choose|m: int| 0 <= m < w0.slots.len() && w0.slots[m].id == d;
                            assert(w.slots[m].id == d);
                        }
                    }
                    assert forall|a: int, b: int|
                        0 <= a < w.slots.len() && 0 <= b < w.slots.len() && a != b implies w.slots[a].id
                        != w.slots[b].id by {
                        if a == w0.slots.len() {
                            assert(w.slots[b].id == w0.slots[b].id);
                        } else if b == w0.slots.len() {
                            assert(w.slots[a].id == w0.slots[a].id);
                        }
                    }
                    assert forall|a: int|
                        0 <= a < w.slots.len() && !w.dirty.contains(#[trigger] w.slots[a].id)
                        implies w.collider_fresh(a) by {
                        if a < w0.slots.len() {
                            assert(w.slots[a] == w0.slots[a]);
                        }
                    }
                }
            },
        }
    }

    /// Runs one rebuild pass: for every dirty chunk, in the order of the
    /// dirty list, builds its mesh, replaces its collision shape with the
    /// mesh's, and takes its render entity out for retiring. The dirty list
    /// ends empty. Returns, per dirty chunk, the entity to retire and the mesh
    /// to display; `register_entity` records the entity that displays it.
    pub fn rebuild_dirty(&mut self) -> (r: Vec<MeshUpdate>)
        requires
            old(self).wf(),
        ensures
            final(self).wf(),
            final(self)@ == old(self)@.rebuilt(),
            r@.len() == old(self)@.dirty.len(),
            forall|k: int|
                0 <= k < r@.len() ==> {
                    let s = old(self)@.slots[old(self)@.slot_index(old(self)@.dirty[k])];
                    &&& (#[trigger] r@[k]).chunk_id == old(self)@.dirty[k]
                    &&& r@[k].retire == s.entity
                    &&& r@[k].mesh@ == chunk_mesh(s.blocks)
                },
    {
        let ghost w0 = self@;
        let mut updates: Vec<MeshUpdate> = Vec::new();
        let n = self.invalid_meshes.len();
        let mut k: usize = 0;
        while k < n
            invariant
                k <= n,
                n == w0.dirty.len(),
                w0.wf(),
                self@.dirty == w0.dirty,
                self@.slots.len() == w0.slots.len(),
                forall|i: int|
                    0 <= i < w0.slots.len() ==> #[trigger] self@.slots[i] == (if w0.dirty.take(
                        k as int,
                    ).contains(w0.slots[i].id) {
                        SlotView {
                            collider: Some(collision_of(chunk_mesh(w0.slots[i].blocks))),
                            entity: None,
                            ..w0.slots[i]
                        }
                    } else {
                        w0.slots[i]
                    }),
                updates@.len() == k,
                forall|j: int|
                    0 <= j < k ==> {
                        let s = w0.slots[w0.slot_index(w0.dirty[j])];
                        &&& (#[trigger] updates@[j]).chunk_id == w0.dirty[j]
                        &&& updates@[j].retire == s.entity
                        &&& updates@[j].mesh@ == chunk_mesh(s.blocks)
                    },
            decreases n - k,
        {
            let id = self.invalid_meshes[k];
            proof {
                assert forall|a: int, b: int|
                    0 <= a < self@.slots.len() && 0 <= b < self@.slots.len() && a != b implies self@.slots[a].id
                    != self@.slots[b].id by {
                    assert(self@.slots[a].id == w0.slots[a].id);
                    assert(self@.slots[b].id == w0.slots[b].id);
                }
                assert(w0.contains(w0.dirty[k as int]));
                let m = choose|m: int| 0 <= m < w0.slots.len() && w0.slots[m].id == id;
                assert(self@.slots[m].id == id);
            }
            let i = match self.position(id) {
                Some(i) => i,
                None => {
                    proof {
                        assert(false);
                    }
                    return updates;
                },
            };
            proof {
                assert(self@.slots[i as int].id == w0.slots[i as int].id);
                w0.lemma_slot_index(i as int);
                assert(!w0.dirty.take(k as int).contains(id)) by {
                    if w0.dirty.take(k as int).contains(id) {
                        let j = choose|j: int| 0 <= j < k && w0.dirty.take(k as int)[j] == id;
                        assert(w0.dirty[j] == w0.dirty[k as int]);
                    }
                }
                assert(self@.slots[i as int] == w0.slots[i as int]);
                assert(w0.slots[i as int].blocks.len() == 4096);
            }
            let mesh = self.slots[i].chunk.build_mesh();
            proof {
                let len = mesh@.positions.len() as int;
                assert((len / 4 * 6) % 3 == 0) by (nonlinear_arith)
                    requires
                        len >= 0,
                ;
            }
            let tri = mesh_to_tri_mesh(&mesh);
            let ghost before = self@;
            let retire = self.slots[i].entity;
            self.slots[i].collider = Some(tri);
            self.slots[i].entity = None;
            updates.push(MeshUpdate { chunk_id: id, retire, mesh });
            proof {
                assert(self@.slots =~= before.slots.update(
                    i as int,
                    SlotView {
                        collider: Some(collision_of(chunk_mesh(w0.slots[i as int].blocks))),
                        entity: None,
                        ..before.slots[i as int]
                    },
                ));
                assert forall|a: int| 0 <= a < w0.slots.len() implies #[trigger] self@.slots[a] == (if w0.dirty.take(
                    k + 1,
                ).contains(w0.slots[a].id) {
                    SlotView {
                        collider: Some(collision_of(chunk_mesh(w0.slots[a].blocks))),
                        entity: None,
                        ..w0.slots[a]
                    }
                } else {
                    w0.slots[a]
                }) by {
                    assert(w0.dirty.take(k + 1) =~= w0.dirty.take(k as int).push(id));
                    if a != i {
                        assert(w0.slots[a].id != id);
                        assert(self@.slots[a] == before.slots[a]);
                        assert(w0.dirty.take(k + 1).contains(w0.slots[a].id) == w0.dirty.take(k as int).contains(w0.slots[a].id));
                    } else {
                        assert(w0.dirty.take(k + 1)[k as int] == id);
                    }
                }
            }
            k += 1;
        }
        self.invalid_meshes.clear();
        proof {
            assert(w0.dirty.take(n as int) =~= w0.dirty);
            assert(self@.dirty =~= Seq::<ChunkId>::empty());
            assert(self@.slots =~= w0.rebuilt().slots);
            let w = self@;
            assert forall|a: int, b: int|
                0 <= a < w.slots.len() && 0 <= b < w.slots.len() && a != b implies w.slots[a].id
                != w.slots[b].id by {
                assert(w.slots[a].id == w0.slots[a].id);
                assert(w.slots[b].id == w0.slots[b].id);
            }
            assert forall|a: int| 0 <= a < w.slots.len() implies (#[trigger] w.slots[a]).blocks.len() == 4096 by {
                assert(w.slots[a].blocks == w0.slots[a].blocks);
            }
            assert forall|a: int|
                0 <= a < w.slots.len() && !w.dirty.contains(#[trigger] w.slots[a].id)
                implies w.collider_fresh(a) by {
                assert(w.slots[a].blocks == w0.slots[a].blocks);
                if !w0.dirty.contains(w0.slots[a].id) {
                    assert(w0.collider_fresh(a));
                }
            }
        }
        updates
    }

    /// Records `entity` as the render entity of chunk `id`. Returns the entity
    /// the caller must retire: the one it displaces, or `entity` itself when
    /// the world does not hold the chunk.
    pub fn register_entity(&mut self, id: ChunkId, entity: u64) -> (r: Option<u64>)
        requires
            old(self).wf(),
        ensures
            final(self).wf(),
            old(self)@.contains(id) ==> final(self)@ == old(self)@.with_entity(old(self)@.slot_index(id), entity)
                && r == old(self)@.slots[old(self)@.slot_index(id)].entity,
            !old(self)@.contains(id) ==> final(self)@ == old(self)@ && r == Some(entity),
    {
        match self.position(id) {
            None => Some(entity),
            Some(i) => {
                let ghost w0 = self@;
                let previous = self.slots[i].entity;
                self.slots[i].entity = Some(entity);
                proof {
                    assert(self@.slots =~= w0.with_entity(i as int, entity).slots);
                    let w = self@;
                    assert forall|a: int, b: int|
                        0 <= a < w.slots.len() && 0 <= b < w.slots.len() && a != b implies w.slots[a].id
                        != w.slots[b].id by {
                        assert(w.slots[a].id == w0.slots[a].id);
                        assert(w.slots[b].id == w0.slots[b].id);
                    }
                    assert forall|k: int| 0 <= k < w.dirty.len() implies w.contains(#[trigger] w.dirty[k]) by {
                        assert(w0.contains(w0.dirty[k]));
                        let m = choose|m: int| 0 <= m < w0.slots.len() && w0.slots[m].id == w0.dirty[k];
                        assert(w.slots[m].id == w0.slots[m].id);
                    }
                    assert forall|a: int|
                        0 <= a < w.slots.len() && !w.dirty.contains(#[trigger] w.slots[a].id)
                        implies w.collider_fresh(a) by {
                        assert(w.slots[a].id == w0.slots[a].id);
                        assert(w0.collider_fresh(a));
                    }
                }
                previous
            },
        }
    }

    /// Removes the block that a hit targets: resolves the target as
    /// `target_from_hit` does and, when there is one, sets it to air and marks
    /// the chunk dirty. Returns the target.
    pub fn remove_target(&mut self, hit: &WorldHit) -> (r: Option<WorldTarget>)
        requires
            old(self).wf(),
            hit.wf(),
            old(self)@.contains(hit.chunk_id),
        ensures
            final(self).wf(),
            r == target_spec(
                old(self)@.slots[old(self)@.slot_index(hit.chunk_id)].blocks,
                local_coord(hit.hit_pos.x as int, hit.chunk_id.x as int),
                local_coord(hit.hit_pos.y as int, hit.chunk_id.y as int),
                local_coord(hit.hit_pos.z as int, hit.chunk_id.z as int),
            ),
            match r {
                Some(t) => final(self)@ == old(self)@.with_block(
                    old(self)@.slot_index(hit.chunk_id),
                    t.local_pos.x as int,
                    t.local_pos.y as int,
                    t.local_pos.z as int,
                    Block::Air,
                ),
                None => final(self)@ == old(self)@,
            },
    {
        let target = self.target_from_hit(hit);
        match target {
            Some(t) => {
                let p = t.local_pos;
                proof {
                    let blocks = self@.slots[self@.slot_index(hit.chunk_id)].blocks;
                    assert(!t.block.is_air());
                    assert(in_bounds(p.x as int, p.y as int, p.z as int));
                }
                self.set_block(hit.chunk_id, p.x as usize, p.y as usize, p.z as usize, Block::Air);
                Some(t)
            },
            None => None,
        }
    }

    /// Evicts chunk `id` together with its collision shape and takes it off
    /// the dirty list. Returns its render entity, for the caller to retire.
    pub fn remove_chunk(&mut self, id: ChunkId) -> (r: Option<u64>)
        requires
            old(self).wf(),
        ensures
            final(self).wf(),
            !old(self)@.contains(id) ==> final(self)@ == old(self)@ && r is None,
            old(self)@.contains(id) ==> {
                let i = old(self)@.slot_index(id);
                &&& final(self)@.slots == old(self)@.slots.remove(i)
                &&& final(self)@.dirty == (if old(self)@.dirty.contains(id) {
                    old(self)@.dirty.remove(old(self)@.dirty.index_of(id))
                } else {
                    old(self)@.dirty
                })
                &&& r == old(self)@.slots[i].entity
            },
    {
        let ghost w0 = self@;
        let i = match self.position(id) {
            Some(i) => i,
            None => {
                return None;
            },
        };
        let slot = self.slots.remove(i);
        proof {
            assert(self@.slots =~= w0.slots.remove(i as int));
        }
        let mut k: usize = 0;
        while k < self.invalid_meshes.len()
            invariant
                k <= self.invalid_meshes@.len(),
                self.invalid_meshes@ == w0.dirty,
                forall|j: int| 0 <= j < k ==> self.invalid_meshes@[j] != id,
            ensures
                k <= self.invalid_meshes@.len(),
                self.invalid_meshes@ == w0.dirty,
                forall|j: int| 0 <= j < k ==> self.invalid_meshes@[j] != id,
                k < self.invalid_meshes@.len() ==> self.invalid_meshes@[k as int] == id,
            decreases self.invalid_meshes@.len() - k,
        {
            if self.invalid_meshes[k] == id {
                break;
            }
            k += 1;
        }
        if k < self.invalid_meshes.len() {
            proof {
                assert(w0.dirty.contains(id));
                let j = w0.dirty.index_of(id);
                assert(0 <= j < w0.dirty.len() && w0.dirty[j] == id);
                assert(j == k);
            }
            self.invalid_meshes.remove(k);
        } else {
            proof {
                if w0.dirty.contains(id) {
                    let j = choose|j: int| 0 <= j < w0.dirty.len() && w0.dirty[j] == id;
                    assert(w0.dirty[j] != id);
                }
            }
        }
        proof {
            let w = self@;
            assert(!w.dirty.contains(id)) by {
                if w.dirty.contains(id) {
                    let j = choose|j: int| 0 <= j < w.dirty.len() && w.dirty[j] == id;
                    if w0.dirty.contains(id) {
                        let m = w0.dirty.index_of(id);
                        assert(0 <= m < w0.dirty.len() && w0.dirty[m] == id);
                        if j < m {
                            assert(w0.dirty[j] == id);
                        } else {
                            assert(w0.dirty[j + 1] == id);
                        }
                    } else {
                        assert(w0.dirty[j] == id);
                    }
                }
            }
            assert forall|d: ChunkId| d != id && #[trigger] w.dirty.contains(d) implies w0.dirty.contains(d) by {
                let j = choose|j: int| 0 <= j < w.dirty.len() && w.dirty[j] == d;
                if w0.dirty.contains(id) {
                    let m = w0.dirty.index_of(id);
                    assert(0 <= m < w0.dirty.len() && w0.dirty[m] == id);
                    if j < m {
                        assert(w0.dirty[j] == d);
                    } else {
                        assert(w0.dirty[j + 1] == d);
                    }
                } else {
                    assert(w0.dirty[j] == d);
                }
            }
            assert forall|d: ChunkId| d != id && w0.dirty.contains(d) implies #[trigger] w.dirty.contains(d) by {
                let j = choose|j: int| 0 <= j < w0.dirty.len() && w0.dirty[j] == d;
                if w0.dirty.contains(id) {
                    let m = w0.dirty.index_of(id);
                    assert(0 <= m < w0.dirty.len() && w0.dirty[m] == id);
                    if j < m {
                        assert(w.dirty[j] == d);
                    } else {
                        assert(j != m);
                        assert(w.dirty[j - 1] == d);
                    }
                } else {
                    assert(w.dirty[j] == d);
                }
            }
            assert(w.dirty.no_duplicates()) by {
                assert forall|a: int, b: int|
                    0 <= a < w.dirty.len() && 0 <= b < w.dirty.len() && a != b implies w.dirty[a] != w.dirty[b] by {
                    if w0.dirty.contains(id) {
                        let m = w0.dirty.index_of(id);
                        assert(0 <= m < w0.dirty.len() && w0.dirty[m] == id);
                        let a0 = if a < m { a } else { a + 1 };
                        let b0 = if b < m { b } else { b + 1 };
                        assert(w.dirty[a] == w0.dirty[a0]);
                        assert(w.dirty[b] == w0.dirty[b0]);
                    } else {
                        assert(w.dirty[a] == w0.dirty[a]);
                    }
                }
            }
            assert forall|a: int, b: int|
                0 <= a < w.slots.len() && 0 <= b < w.slots.len() && a != b implies w.slots[a].id
                != w.slots[b].id by {
                let a0 = if a < i { a } else { a + 1 };
                let b0 = if b < i { b } else { b + 1 };
                assert(w.slots[a] == w0.slots[a0]);
                assert(w.slots[b] == w0.slots[b0]);
            }
            assert forall|a: int| 0 <= a < w.slots.len() implies (#[trigger] w.slots[a]).blocks.len() == 4096 by {
                let a0 = if a < i { a } else { a + 1 };
                assert(w.slots[a] == w0.slots[a0]);
            }
            assert forall|k: int| 0 <= k < w.dirty.len() implies w.contains(#[trigger] w.dirty[k]) by {
                let d = w.dirty[k];
                assert(w.dirty.contains(d));
                assert(d != id);
                assert(w0.dirty.contains(d));
                let j = choose|j: int| 0 <= j < w0.dirty.len() && w0.dirty[j] == d;
                assert(w0.contains(w0.dirty[j]));
                let m = choose|m: int| 0 <= m < w0.slots.len() && w0.slots[m].id == d;
                assert(m != i);
                let m1 = if m < i { m } else { m - 1 };
                assert(w.slots[m1] == w0.slots[m]);
            }
            assert forall|a: int| 0 <= a < w.slots.len() && !w.dirty.contains(#[trigger] w.slots[a].id) implies w.collider_fresh(
                a,
            ) by {
                let a0 = if a < i { a } else { a + 1 };
                assert(w.slots[a] == w0.slots[a0]);
                assert(a0 != i);
                assert(w0.slots[a0].id != id);
                assert(w0.collider_fresh(a0));
            }
        }
        slot.entity
    }

    /// Number of chunks in the world.
    pub fn chunk_count(&self) -> (r: usize)
        ensures
            r == self@.slots.len(),
    {
        self.slots.len()
    }

    /// The ids of the world's chunks, in entry order.
    pub fn chunk_ids(&self) -> (r: Vec<ChunkId>)
        ensures
            r@.len() == self@.slots.len(),
            forall|i: int| 0 <= i < r@.len() ==> #[trigger] r@[i] == self@.slots[i].id,
    {
        let mut r: Vec<ChunkId> = Vec::new();
        let mut i: usize = 0;
        while i < self.slots.len()
            invariant
                i <= self.slots@.len(),
                r@.len() == i,
                forall|j: int| 0 <= j < i ==> #[trigger] r@[j] == self@.slots[j].id,
            decreases self.slots@.len() - i,
        {
            r.push(self.slots[i].chunk.id());
            i += 1;
        }
        r
    }

    /// The chunk `id`, if the world holds it.
    pub fn chunk(&self, id: ChunkId) -> (r: Option<&Chunk>)
        requires
            self.wf(),
        ensures
            match r {
                Some(c) => self@.contains(id) && c@.id == id && c@.blocks == self@.slots[self@.slot_index(id)].blocks
                    && c.wf(),
                None => !self@.contains(id),
            },
    {
        match self.position(id) {
            Some(i) => {
                assert(self@.slots[i as int].blocks.len() == 4096);
                Some(&self.slots[i].chunk)
            },
            None => None,
        }
    }

    /// The collision shape of the chunk at entry `i`, if it has one.
    pub fn collider_at(&self, i: usize) -> (r: Option<&TriMesh>)
        requires
            i < self@.slots.len(),
        ensures
            match r {
                Some(t) => self@.slots[i as int].collider == Some(t@),
                None => self@.slots[i as int].collider is None,
            },
    {
        match &self.slots[i].collider {
            Some(t) => Some(t),
            None => None,
        }
    }

    /// The render entity of chunk `id`, if it has one.
    pub fn entity(&self, id: ChunkId) -> (r: Option<u64>)
        requires
            self.wf(),
        ensures
            r == (if self@.contains(id) {
                self@.slots[self@.slot_index(id)].entity
            } else {
                None
            }),
    {
        match self.position(id) {
            Some(i) => self.slots[i].entity,
            None => None,
        }
    }

    /// The chunks awaiting a rebuild, in the order they were marked.
    pub fn dirty_ids(&self) -> (r: Vec<ChunkId>)
        ensures
            r@ == self@.dirty,
    {
        let mut r: Vec<ChunkId> = Vec::new();
        let mut i: usize = 0;
        while i < self.invalid_meshes.len()
            invariant
                i <= self@.dirty.len(),
                r@ == self@.dirty.take(i as int),
            decreases self@.dirty.len() - i,
        {
            r.push(self.invalid_meshes[i]);
            i += 1;
            assert(r@ =~= self@.dirty.take(i as int));
        }
        assert(self@.dirty.take(i as int) =~= self@.dirty);
        r
    }
}

} // verus!
