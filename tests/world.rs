use parry3d::na;
use parry3d::query::RayCast;
use voxel_world::block::Block;
use voxel_world::chunk::{Chunk, ChunkId};
use voxel_world::mesh::{TriMesh, Vec3i};
use voxel_world::world::{floor_div_units, Point3, Ray, World, WorldHit, WorldTarget, UNITS_PER_BLOCK};

fn toy_chunk(id: ChunkId) -> Chunk {
    let mut heights = Vec::new();
    for x in 0..16 {
        for z in 0..16 {
            heights.push((x + z) % 2 + 7);
        }
    }
    let mut c = Chunk::new(id);
    c.generate(&heights);
    c
}

fn collider_of(world: &World, id: ChunkId) -> Option<(Vec<Vec3i>, Vec<(u32, u32, u32)>)> {
    let i = world.position(id)?;
    world.collider_at(i).map(|t| (t.vertices.clone(), t.triangles.clone()))
}

fn to_parry(t: &TriMesh) -> parry3d::shape::TriMesh {
    parry3d::shape::TriMesh::new(
        t.vertices.iter().map(|p| na::Point3::new(p.x as f32, p.y as f32, p.z as f32)).collect(),
        t.triangles.iter().map(|&(a, b, c)| [a, b, c]).collect(),
    )
}

fn units(v: f32) -> i64 {
    (v as f64 * UNITS_PER_BLOCK as f64).round() as i64
}

fn outside_hits(world: &World, origin: [f32; 3], dir: [f32; 3]) -> Vec<Option<u64>> {
    let ray = parry3d::query::Ray::new(
        na::Point3::new(origin[0], origin[1], origin[2]),
        na::Vector3::new(dir[0], dir[1], dir[2]),
    );
    let ids = world.chunk_ids();
    (0..world.chunk_count())
        .map(|i| {
            let t = world.collider_at(i)?;
            if t.triangles.is_empty() {
                return None;
            }
            let id = ids[i];
            let pos = na::Isometry3::translation(16. * id.x as f32, 16. * id.y as f32, 16. * id.z as f32);
            to_parry(t).cast_ray(&pos, &ray, 10_000., true).map(|d| units(d) as u64)
        })
        .collect()
}

fn down_ray(x: f32, y: f32, z: f32) -> Ray {
    Ray {
        origin: Point3 { x: units(x), y: units(y), z: units(z) },
        direction: Point3 { x: 0, y: -UNITS_PER_BLOCK, z: 0 },
    }
}

#[test]
fn floor_division_rounds_down() {
    assert_eq!(floor_div_units(0), 0);
    assert_eq!(floor_div_units(1_999_999), 1);
    assert_eq!(floor_div_units(-1), -1);
    assert_eq!(floor_div_units(-1_000_000), -1);
    assert_eq!(floor_div_units(-1_000_001), -2);
}

#[test]
fn point_at_moves_along_direction() {
    let ray = Ray {
        origin: Point3 { x: 1_000_000, y: -5, z: 0 },
        direction: Point3 { x: 600_000, y: -800_000, z: 0 },
    };
    assert_eq!(ray.point_at(2_000_000), Point3 { x: 2_200_000, y: -1_600_005, z: 0 });
    assert_eq!(ray.point_at(1), Point3 { x: 1_000_000, y: -6, z: 0 });
}

#[test]
fn new_world_is_empty() {
    let w = World::new();
    assert_eq!(w.chunk_count(), 0);
    assert!(w.dirty_ids().is_empty());
    assert!(w.chunk(ChunkId::new(0, 0, 0)).is_none());
}

#[test]
fn insert_marks_dirty_once() {
    let mut w = World::new();
    w.insert_chunk(toy_chunk(ChunkId::new(0, 0, 0)));
    w.insert_chunk(toy_chunk(ChunkId::new(1, 0, 0)));
    w.insert_chunk(Chunk::new(ChunkId::new(0, 0, 0)));
    assert_eq!(w.chunk_count(), 2);
    assert_eq!(w.dirty_ids(), vec![ChunkId::new(0, 0, 0), ChunkId::new(1, 0, 0)]);
    assert_eq!(w.chunk(ChunkId::new(0, 0, 0)).unwrap().try_get(0, 0, 0), Some(Block::Air));
}

#[test]
fn rebuild_replaces_geometry_and_hands_back_entities() {
    let mut w = World::new();
    let c = ChunkId::new(0, 0, 0);
    let d = ChunkId::new(-1, 0, 0);
    w.insert_chunk(toy_chunk(c));
    w.insert_chunk(toy_chunk(d));
    let updates = w.rebuild_dirty();
    assert_eq!(updates.len(), 2);
    assert_eq!(updates[0].chunk_id, c);
    assert_eq!(updates[0].retire, None);
    assert_eq!(updates[0].mesh.positions.len(), 4 * 1536);
    assert!(w.dirty_ids().is_empty());
    assert_eq!(w.register_entity(c, 10), None);
    assert_eq!(w.register_entity(d, 11), None);
    assert_eq!(w.register_entity(ChunkId::new(9, 9, 9), 12), Some(12));
    assert_eq!(w.entity(c), Some(10));

    let c_before = collider_of(&w, c).unwrap();
    let d_before = collider_of(&w, d).unwrap();
    assert!(w.set_block(c, 0, 7, 1, Block::Air));
    assert_eq!(w.dirty_ids(), vec![c]);
    let updates = w.rebuild_dirty();
    assert_eq!(updates.len(), 1);
    assert_eq!(updates[0].chunk_id, c);
    assert_eq!(updates[0].retire, Some(10));
    assert_eq!(w.entity(c), None);
    assert_eq!(w.register_entity(c, 20), None);
    assert_eq!(w.entity(c), Some(20));
    assert!(w.dirty_ids().is_empty());
    assert_ne!(collider_of(&w, c).unwrap(), c_before);
    assert_eq!(collider_of(&w, d).unwrap(), d_before);
    assert_eq!(w.entity(d), Some(11));
}

#[test]
fn edits_to_missing_chunks_do_nothing() {
    let mut w = World::new();
    assert!(!w.set_block(ChunkId::new(0, 0, 0), 1, 1, 1, Block::Stone));
    assert!(!w.generate_chunk(ChunkId::new(0, 0, 0), &vec![3; 256]));
    assert!(w.dirty_ids().is_empty());
}

#[test]
fn generate_chunk_refills_and_marks_dirty() {
    let mut w = World::new();
    let c = ChunkId::new(0, 0, 0);
    w.insert_chunk(Chunk::new(c));
    w.rebuild_dirty();
    assert!(w.generate_chunk(c, &vec![3; 256]));
    assert_eq!(w.dirty_ids(), vec![c]);
    assert_eq!(w.chunk(c).unwrap().try_get(4, 3, 4), Some(Block::Dirt));
}

#[test]
fn target_on_top_face_is_block_below() {
    let mut w = World::new();
    let c = ChunkId::new(1, 0, 0);
    w.insert_chunk(toy_chunk(c));
    // Column (3, 4) has height (3 + 4) % 2 + 7 = 8, so its top face is y = 9.
    let hit = WorldHit {
        chunk_id: c,
        hit_pos: Point3 { x: 16_000_000 + 3_400_000, y: 9_000_000, z: 4_600_000 },
        dst: 0,
    };
    assert_eq!(
        w.target_from_hit(&hit),
        Some(WorldTarget { local_pos: Vec3i { x: 3, y: 8, z: 4 }, block: Block::Dirt })
    );
}

#[test]
fn target_on_side_face_is_solid_neighbour() {
    let mut w = World::new();
    let c = ChunkId::new(0, 0, 0);
    w.insert_chunk(toy_chunk(c));
    // Column (3, 4) reaches y = 8 and column (2, 4) only y = 7: the face at
    // x = 3 between them at y = 8 belongs to the taller column.
    let hit = WorldHit { chunk_id: c, hit_pos: Point3 { x: 3_000_200, y: 8_500_000, z: 4_500_000 }, dst: 0 };
    assert_eq!(
        w.target_from_hit(&hit),
        Some(WorldTarget { local_pos: Vec3i { x: 3, y: 8, z: 4 }, block: Block::Dirt })
    );
    // Inside solid stone both candidates are solid: no target.
    let inside = WorldHit { chunk_id: c, hit_pos: Point3 { x: 5_000_000, y: 2_500_000, z: 5_500_000 }, dst: 0 };
    assert_eq!(w.target_from_hit(&inside), None);
    // In open air neither is.
    let sky = WorldHit { chunk_id: c, hit_pos: Point3 { x: 5_500_000, y: 13_000_000, z: 5_500_000 }, dst: 0 };
    assert_eq!(w.target_from_hit(&sky), None);
}

#[test]
fn cast_ray_picks_nearest_then_least_id() {
    let mut w = World::new();
    let a = ChunkId::new(1, 0, 0);
    let b = ChunkId::new(0, 0, 0);
    let c = ChunkId::new(0, 0, 1);
    w.insert_chunk(Chunk::new(a));
    w.insert_chunk(Chunk::new(b));
    w.insert_chunk(Chunk::new(c));
    let ray = down_ray(0.5, 40.0, 0.5);
    // Without collision shapes nothing counts.
    assert_eq!(w.cast_ray(&ray, &vec![Some(5), Some(5), Some(5)]), None);
    w.rebuild_dirty();
    assert_eq!(w.cast_ray(&ray, &vec![None, None, None]), None);
    assert_eq!(w.cast_ray(&ray, &vec![Some(20_000_000_000), None, Some(u64::MAX)]), None);
    let hit = w.cast_ray(&ray, &vec![Some(7_000_000), Some(7_000_000), Some(9_000_000)]).unwrap();
    assert_eq!(hit.chunk_id, b);
    assert_eq!(hit.dst, 7_000_000);
    assert_eq!(hit.hit_pos, Point3 { x: 500_000, y: 33_000_000, z: 500_000 });
    let hit = w.cast_ray(&ray, &vec![Some(7_000_000), Some(8_000_000), Some(6_999_999)]).unwrap();
    assert_eq!(hit.chunk_id, c);
}

#[test]
fn ray_down_resolves_block_under_it() {
    let mut w = World::new();
    let c = ChunkId::new(0, 0, 0);
    let other = ChunkId::new(5, 0, 5);
    w.insert_chunk(toy_chunk(c));
    w.insert_chunk(toy_chunk(other));
    w.rebuild_dirty();
    for &(x, z) in &[(2usize, 5usize), (3, 5), (0, 0), (15, 15)] {
        let h = ((x + z) % 2 + 7) as i32;
        let origin = [x as f32 + 0.5, 30.0, z as f32 + 0.25];
        let hits = outside_hits(&w, origin, [0.0, -1.0, 0.0]);
        let ray = down_ray(origin[0], origin[1], origin[2]);
        let hit = w.cast_ray(&ray, &hits).unwrap();
        assert_eq!(hit.chunk_id, c);
        assert_eq!(hit.hit_pos.y, (h as i64 + 1) * UNITS_PER_BLOCK);
        let target = w.target_from_hit(&hit).unwrap();
        assert_eq!(target.local_pos, Vec3i { x: x as i32, y: h, z: z as i32 });
        assert_eq!(target.block, Block::Dirt);
    }
    let sky = outside_hits(&w, [0.5, 30.0, 0.5], [0.0, 1.0, 0.0]);
    assert_eq!(w.cast_ray(&down_ray(0.5, 30.0, 0.5), &sky), None);
}

#[test]
fn removing_target_clears_block_and_marks_dirty() {
    let mut w = World::new();
    let c = ChunkId::new(0, 0, 0);
    w.insert_chunk(toy_chunk(c));
    w.rebuild_dirty();
    let hit = WorldHit { chunk_id: c, hit_pos: Point3 { x: 2_500_000, y: 8_000_000, z: 4_500_000 }, dst: 0 };
    let removed = w.remove_target(&hit).unwrap();
    assert_eq!(removed, WorldTarget { local_pos: Vec3i { x: 2, y: 7, z: 4 }, block: Block::Dirt });
    assert_eq!(w.chunk(c).unwrap().try_get(2, 7, 4), Some(Block::Air));
    assert_eq!(w.dirty_ids(), vec![c]);
    let lower = WorldHit { chunk_id: c, hit_pos: Point3 { x: 2_500_000, y: 7_000_000, z: 4_500_000 }, dst: 0 };
    assert_eq!(w.remove_target(&hit), None);
    let again = w.remove_target(&lower).unwrap();
    assert_eq!(again.local_pos, Vec3i { x: 2, y: 6, z: 4 });
    assert_eq!(again.block, Block::Stone);
    let sky = WorldHit { chunk_id: c, hit_pos: Point3 { x: 2_500_000, y: 14_000_000, z: 4_500_000 }, dst: 0 };
    assert_eq!(w.remove_target(&sky), None);
}

#[test]
fn removing_chunk_drops_its_caches() {
    let mut w = World::new();
    let a = ChunkId::new(0, 0, 0);
    let b = ChunkId::new(0, 0, 1);
    w.insert_chunk(toy_chunk(a));
    w.insert_chunk(toy_chunk(b));
    w.rebuild_dirty();
    w.register_entity(a, 1);
    w.register_entity(b, 2);
    w.set_block(a, 0, 0, 0, Block::Air);
    w.set_block(b, 0, 0, 0, Block::Air);
    assert_eq!(w.remove_chunk(a), Some(1));
    assert_eq!(w.chunk_count(), 1);
    assert_eq!(w.chunk_ids(), vec![b]);
    assert_eq!(w.dirty_ids(), vec![b]);
    assert!(w.chunk(a).is_none());
    assert_eq!(w.entity(a), None);
    assert_eq!(w.remove_chunk(a), None);
    assert_eq!(w.entity(b), Some(2));
}

#[test]
fn regenerating_all_refills_and_dirties_every_chunk() {
    let mut w = World::new();
    let a = ChunkId::new(0, 0, 0);
    let b = ChunkId::new(0, 1, 0);
    w.insert_chunk(toy_chunk(a));
    w.insert_chunk(toy_chunk(b));
    w.rebuild_dirty();
    assert!(w.dirty_ids().is_empty());
    w.regenerate_all(&vec![vec![3; 256], vec![20; 256]]);
    assert_eq!(w.dirty_ids(), vec![a, b]);
    assert_eq!(w.chunk(a).unwrap().try_get(0, 3, 0), Some(Block::Dirt));
    assert_eq!(w.chunk(a).unwrap().try_get(0, 4, 0), Some(Block::Air));
    assert_eq!(w.chunk(b).unwrap().try_get(0, 4, 0), Some(Block::Dirt));
    assert_eq!(w.chunk(b).unwrap().try_get(0, 3, 0), Some(Block::Stone));
}
