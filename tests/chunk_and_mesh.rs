use voxel_world::block::{Block, TexCoord};
use voxel_world::chunk::{Chunk, ChunkId};
use voxel_world::mesh::{mesh_to_tri_mesh, test_cube, Direction, IncompleteMesh, Vec3i};

fn v(x: i32, y: i32, z: i32) -> Vec3i {
    Vec3i { x, y, z }
}

fn toy_heights() -> Vec<i32> {
    let mut heights = Vec::new();
    for x in 0..16 {
        for z in 0..16 {
            heights.push((x + z) % 2 + 7);
        }
    }
    heights
}

fn uniform_heights(h: i32) -> Vec<i32> {
    vec![h; 256]
}

#[test]
fn dirt_uvs_cover_its_atlas_cell() {
    let uvs = Block::Dirt.uvs();
    assert_eq!(
        uvs,
        [
            TexCoord { u: 2, v: 1 },
            TexCoord { u: 2, v: 0 },
            TexCoord { u: 3, v: 0 },
            TexCoord { u: 3, v: 1 },
        ]
    );
    assert_eq!(Block::Stone.uvs()[0], TexCoord { u: 3, v: 1 });
    assert_eq!(Block::Air.uvs()[2], TexCoord { u: 1, v: 0 });
}

#[test]
fn new_chunk_is_air() {
    let c = Chunk::new(ChunkId::new(1, -2, 3));
    assert_eq!(c.id(), ChunkId { x: 1, y: -2, z: 3 });
    for x in 0..16 {
        for y in 0..16 {
            for z in 0..16 {
                assert_eq!(c.try_get(x, y, z), Some(Block::Air));
            }
        }
    }
}

#[test]
fn try_get_rejects_each_axis_out_of_bounds() {
    let mut c = Chunk::new(ChunkId::new(0, 0, 0));
    c.generate(&uniform_heights(100));
    for bad in [-1, 16, 17, -100, i32::MIN, i32::MAX] {
        assert_eq!(c.try_get(bad, 5, 5), None);
        assert_eq!(c.try_get(5, bad, 5), None);
        assert_eq!(c.try_get(5, 5, bad), None);
        assert_eq!(c.get_or_air(bad, 5, 5), Block::Air);
    }
    assert_eq!(c.try_get(0, 0, 0), Some(Block::Stone));
    assert_eq!(c.try_get(15, 15, 15), Some(Block::Stone));
}

#[test]
fn set_and_get_mut_write_one_block() {
    let mut c = Chunk::new(ChunkId::new(0, 0, 0));
    c.set(3, 4, 5, Block::Dirt);
    assert_eq!(c.try_get(3, 4, 5), Some(Block::Dirt));
    assert_eq!(c.try_get(5, 4, 3), Some(Block::Air));
    *c.get_mut(15, 0, 7) = Block::Stone;
    assert_eq!(c.get_or_air(15, 0, 7), Block::Stone);
}

#[test]
fn toy_terrain_fills_stone_dirt_air() {
    let mut c = Chunk::new(ChunkId::new(0, 0, 0));
    c.generate(&toy_heights());
    for x in 0..16 {
        for z in 0..16 {
            let h = (x + z) % 2 + 7;
            for y in 0..16 {
                let expected = if y < h {
                    Block::Stone
                } else if y == h {
                    Block::Dirt
                } else {
                    Block::Air
                };
                assert_eq!(c.try_get(x, y, z), Some(expected));
            }
        }
    }
}

#[test]
fn toy_terrain_mesh_has_exposed_face_count() {
    let mut c = Chunk::new(ChunkId::new(0, 0, 0));
    c.generate(&toy_heights());
    let mesh = c.build_mesh();
    // 256 tops, 256 bottoms on the chunk floor, 4 * 136 chunk-boundary sides,
    // and one side face for each of the 480 neighbouring column pairs.
    let expected_faces = 256 + 256 + 4 * 136 + 480;
    assert_eq!(mesh.positions.len(), 4 * expected_faces);
    assert_eq!(mesh.normals.len(), 4 * expected_faces);
    assert_eq!(mesh.uvs.len(), 4 * expected_faces);
    assert_eq!(mesh.indices.len(), 6 * expected_faces);
    assert!(mesh.indices.iter().all(|&i| (i as usize) < mesh.positions.len()));
}

#[test]
fn terrain_uses_the_chunk_height_offset() {
    let mut c = Chunk::new(ChunkId::new(0, 1, 0));
    c.generate(&uniform_heights(20));
    assert_eq!(c.try_get(0, 3, 0), Some(Block::Stone));
    assert_eq!(c.try_get(0, 4, 0), Some(Block::Dirt));
    assert_eq!(c.try_get(0, 5, 0), Some(Block::Air));
}

#[test]
fn regenerating_with_same_heights_is_idempotent() {
    let mut a = Chunk::new(ChunkId::new(2, 0, -1));
    a.generate(&toy_heights());
    let mut b = Chunk::new(ChunkId::new(2, 0, -1));
    b.set(1, 1, 1, Block::Dirt);
    b.generate(&toy_heights());
    b.generate(&toy_heights());
    for x in 0..16 {
        for y in 0..16 {
            for z in 0..16 {
                assert_eq!(a.try_get(x, y, z), b.try_get(x, y, z));
            }
        }
    }
}

#[test]
fn solid_chunk_mesh_has_only_surface_faces() {
    let mut c = Chunk::new(ChunkId::new(0, 0, 0));
    c.generate(&uniform_heights(100));
    let mesh = c.build_mesh();
    assert_eq!(mesh.positions.len() / 4, 6 * 16 * 16);
    assert_eq!(mesh.indices.len(), 6 * 6 * 16 * 16);

    let mut mixed = Chunk::new(ChunkId::new(0, 0, 0));
    mixed.generate(&uniform_heights(15));
    assert_eq!(mixed.try_get(0, 15, 0), Some(Block::Dirt));
    assert_eq!(mixed.build_mesh().positions.len() / 4, 1536);
}

#[test]
fn empty_chunk_mesh_has_no_faces() {
    let c = Chunk::new(ChunkId::new(4, 4, 4));
    let mesh = c.build_mesh();
    assert!(mesh.positions.is_empty());
    assert!(mesh.indices.is_empty());
}

#[test]
fn single_block_mesh_is_a_cube() {
    let mut c = Chunk::new(ChunkId::new(0, 0, 0));
    c.set(5, 6, 7, Block::Stone);
    let mesh = c.build_mesh();
    assert_eq!(mesh.positions.len(), 24);
    let mut normals = mesh.normals.clone();
    normals.dedup();
    assert_eq!(normals.len(), 6);
    assert!(mesh.positions.iter().all(|p| (5..=6).contains(&p.x) && (6..=7).contains(&p.y) && (7..=8).contains(&p.z)));
}

#[test]
fn add_face_appends_quad() {
    let mut m = IncompleteMesh::new();
    m.add_face(v(2, 3, 4), Direction::Px, false, Block::Stone);
    m.add_face(v(0, 0, 0), Direction::Ny, true, Block::Dirt);
    let mesh = m.complete();
    assert_eq!(
        mesh.positions,
        vec![
            v(3, 3, 5),
            v(3, 4, 5),
            v(3, 4, 4),
            v(3, 3, 4),
            v(0, 0, 1),
            v(1, 0, 1),
            v(1, 0, 0),
            v(0, 0, 0)
        ]
    );
    assert_eq!(mesh.normals[0], v(1, 0, 0));
    assert_eq!(mesh.normals[4], v(0, 1, 0));
    assert_eq!(mesh.indices, vec![0, 3, 1, 3, 2, 1, 5, 6, 7, 5, 7, 4]);
    assert_eq!(mesh.uvs[0], TexCoord { u: 3, v: 1 });
    assert_eq!(mesh.uvs[4], TexCoord { u: 2, v: 1 });
}

#[test]
fn maybe_add_face_culls_equal_pairs() {
    let mut m = IncompleteMesh::new();
    m.maybe_add_face(v(0, 0, 0), Direction::Px, Block::Air, Block::Air);
    m.maybe_add_face(v(0, 0, 0), Direction::Px, Block::Stone, Block::Dirt);
    m.maybe_add_face(v(0, 0, 0), Direction::Px, Block::Dirt, Block::Dirt);
    assert_eq!(m.vertex_count(), 0);
    m.maybe_add_face(v(0, 0, 0), Direction::Px, Block::Dirt, Block::Air);
    assert_eq!(m.vertex_count(), 4);
    m.maybe_add_face(v(0, 0, 0), Direction::Px, Block::Air, Block::Stone);
    assert_eq!(m.vertex_count(), 8);
}

#[test]
fn swapping_blocks_flips_normal_and_winding() {
    let mut a = IncompleteMesh::new();
    a.maybe_add_face(v(1, 2, 3), Direction::Pz, Block::Stone, Block::Air);
    let a = a.complete();
    let mut b = IncompleteMesh::new();
    b.maybe_add_face(v(1, 2, 3), Direction::Pz, Block::Air, Block::Stone);
    let b = b.complete();
    assert_eq!(a.positions, b.positions);
    assert_eq!(a.uvs, b.uvs);
    for k in 0..4 {
        let n = b.normals[k];
        assert_eq!(a.normals[k], v(-n.x, -n.y, -n.z));
    }
    let mut reversed = b.indices.clone();
    reversed.reverse();
    assert_eq!(a.indices, reversed);
    assert_eq!(a.normals[0], v(0, 0, 1));
}

#[test]
fn directions_and_test_cube() {
    let dirs = Direction::iter();
    assert_eq!(dirs.len(), 6);
    assert_eq!(dirs[3], Direction::Nx);
    let verts = Direction::Nz.face_verts();
    assert_eq!(verts[0], (v(1, 0, 0), v(0, 0, -1)));
    let cube = test_cube();
    assert_eq!(cube.positions.len(), 24);
    assert_eq!(cube.indices.len(), 36);
    assert_eq!(cube.indices[6..12].to_vec(), vec![4, 7, 5, 7, 6, 5]);
}

#[test]
fn tri_mesh_groups_indices_in_triples() {
    let cube = test_cube();
    let tri = mesh_to_tri_mesh(&cube);
    assert_eq!(tri.vertices, cube.positions);
    assert_eq!(tri.triangles.len(), 12);
    assert_eq!(tri.triangles[0], (0, 3, 1));
    assert_eq!(tri.triangles[1], (3, 2, 1));
    assert_eq!(tri.triangles[2], (4, 7, 5));
}
