use vstd::prelude::*;

use crate::block::Block;

verus! {

/// Number of blocks in a chunk.
pub const CHUNK_VOLUME: usize = 4096;

/// The coordinate of a chunk in chunk space; one unit is 16 blocks.
#[derive(Clone, Copy, Debug, PartialEq, Eq, Structural, Hash)]
pub struct ChunkId {
    pub x: i32,
    pub y: i32,
    pub z: i32,
}

impl ChunkId {
    pub fn new(x: i32, y: i32, z: i32) -> (r: ChunkId)
        ensures
            r == (ChunkId { x, y, z }),
    {
        ChunkId { x, y, z }
    }
}

/// Whether a local coordinate lies inside a chunk.
pub open spec fn in_bounds(x: int, y: int, z: int) -> bool {
    0 <= x < 16 && 0 <= y < 16 && 0 <= z < 16
}

/// Position of the local coordinate `(x, y, z)` in a chunk's block sequence.
pub open spec fn index_of(x: int, y: int, z: int) -> int {
    x * 256 + y * 16 + z
}

/// The block at a local coordinate of a block sequence.
pub open spec fn block_at(blocks: Seq<Block>, x: int, y: int, z: int) -> Block {
    blocks[index_of(x, y, z)]
}

/// The block at a local coordinate, with everything outside the chunk read as air.
pub open spec fn get_or_air_spec(blocks: Seq<Block>, x: int, y: int, z: int) -> Block {
    if in_bounds(x, y, z) {
        block_at(blocks, x, y, z)
    } else {
        Block::Air
    }
}

/// The block that terrain puts at height `global_y` of a column whose surface is `height`.
pub open spec fn terrain_block(global_y: int, height: int) -> Block {
    if global_y < height {
        Block::Stone
    } else if global_y == height {
        Block::Dirt
    } else {
        Block::Air
    }
}

/// The contents of the chunk `id` filled from a height field.
///
/// `heights[x * 16 + z]` is the surface height, in world blocks, of the chunk's
/// column at local `(x, z)`.
pub open spec fn terrain_blocks(id: ChunkId, heights: Seq<i32>) -> Seq<Block> {
    Seq::new(
        4096,
        |i: int| terrain_block(16 * id.y + (i / 16) % 16, heights[(i / 256) * 16 + i % 16] as int),
    )
}

/// A sequence of air blocks filling a chunk.
pub open spec fn empty_blocks() -> Seq<Block> {
    Seq::new(4096, |i: int| Block::Air)
}

/// Every position of a chunk's block sequence is the index of one local coordinate.
pub proof fn lemma_index_decompose(i: int)
    requires
        0 <= i < 4096,
    ensures
        in_bounds(i / 256, (i / 16) % 16, i % 16),
        index_of(i / 256, (i / 16) % 16, i % 16) == i,
{
    assert(i == 256 * (i / 256) + 16 * ((i / 16) % 16) + i % 16) by (nonlinear_arith)
        requires
            0 <= i < 4096,
    ;
}

/// The index of a local coordinate splits back into that coordinate.
pub proof fn lemma_index_compose(x: int, y: int, z: int)
    requires
        in_bounds(x, y, z),
    ensures
        0 <= index_of(x, y, z) < 4096,
        index_of(x, y, z) / 256 == x,
        (index_of(x, y, z) / 16) % 16 == y,
        index_of(x, y, z) % 16 == z,
{
    let i = index_of(x, y, z);
    assert(i / 256 == x) by (nonlinear_arith)
        requires
            i == x * 256 + y * 16 + z,
            0 <= y < 16,
            0 <= z < 16,
    ;
    assert(i / 16 == x * 16 + y) by (nonlinear_arith)
        requires
            i == x * 256 + y * 16 + z,
            0 <= z < 16,
    ;
    assert((x * 16 + y) % 16 == y) by (nonlinear_arith)
        requires
            0 <= y < 16,
            0 <= x,
    ;
    assert(i % 16 == z) by (nonlinear_arith)
        requires
            i == x * 256 + y * 16 + z,
            0 <= z < 16,
            0 <= x,
            0 <= y,
    ;
}

/// Terrain is a function of each column's height alone: where two height
/// fields agree on a column, the chunks they fill agree on every block of it.
/// In particular regenerating with unchanged heights leaves a chunk as it was.
pub proof fn lemma_terrain_column_local(id: ChunkId, h1: Seq<i32>, h2: Seq<i32>, x: int, z: int)
    requires
        h1.len() == 256,
        h2.len() == 256,
        0 <= x < 16,
        0 <= z < 16,
        h1[x * 16 + z] == h2[x * 16 + z],
    ensures
        forall|y: int|
            0 <= y < 16 ==> #[trigger] block_at(terrain_blocks(id, h1), x, y, z) == block_at(
                terrain_blocks(id, h2),
                x,
                y,
                z,
            ),
{
    assert forall|y: int| 0 <= y < 16 implies #[trigger] block_at(terrain_blocks(id, h1), x, y, z) == block_at(
        terrain_blocks(id, h2),
        x,
        y,
        z,
    ) by {
        lemma_index_compose(x, y, z);
    }
}

/// The abstract contents of a chunk.
pub struct ChunkView {
    pub id: ChunkId,
    pub blocks: Seq<Block>,
}

/// A 16 by 16 by 16 grid of blocks at one chunk coordinate.
pub struct Chunk {
    id: ChunkId,
    blocks: Vec<Block>,
}

impl View for Chunk {
    type V = ChunkView;

    closed spec fn view(&self) -> ChunkView {
        ChunkView { id: self.id, blocks: self.blocks@ }
    }
}

impl Chunk {
    /// The grid holds exactly one block per local coordinate.
    pub open spec fn wf(&self) -> bool {
        self@.blocks.len() == 4096
    }

    /// An all-air chunk at `id`; terrain is filled separately by `generate`.
    pub fn new(id: ChunkId) -> (r: Chunk)
        ensures
            r.wf(),
            r@.id == id,
            r@.blocks == empty_blocks(),
    {
        let mut blocks: Vec<Block> = Vec::new();
        let mut i: usize = 0;
        while i < CHUNK_VOLUME
            invariant
                i <= 4096,
                blocks@ == Seq::new(i as nat, |j: int| Block::Air),
            decreases 4096 - i,
        {
            blocks.push(Block::Air);
            i += 1;
            assert(blocks@ =~= Seq::new(i as nat, |j: int| Block::Air));
        }
        assert(blocks@ =~= empty_blocks());
        Chunk { id, blocks }
    }

    /// The chunk's coordinate.
    pub fn id(&self) -> (r: ChunkId)
        ensures
            r == self@.id,
    {
        self.id
    }

    /// Fills the chunk from the surface heights of its 256 columns.
    ///
    /// `heights[x * 16 + z]` is the surface height, in world blocks, of the
    /// column at local `(x, z)`. Below the surface lies stone, at it dirt,
    /// above it air.
    pub fn generate(&mut self, heights: &Vec<i32>)
        requires
            old(self).wf(),
            heights@.len() == 256,
        ensures
            final(self).wf(),
            final(self)@.id == old(self)@.id,
            final(self)@.blocks == terrain_blocks(old(self)@.id, heights@),
    {
        let base_y: i64 = self.id.y as i64 * 16;
        let mut i: usize = 0;
        while i < CHUNK_VOLUME
            invariant
                i <= 4096,
                heights@.len() == 256,
                self.blocks@.len() == 4096,
                base_y == 16 * self.id.y,
                self.id == old(self).id,
                forall|j: int|
                    0 <= j < i ==> self.blocks@[j] == #[trigger] terrain_blocks(self.id, heights@)[j],
            decreases 4096 - i,
        {
            let x: usize = i / 256;
            let y: usize = (i / 16) % 16;
            let z: usize = i % 16;
            assert(x * 16 + z < 256) by (nonlinear_arith)
                requires
                    x == i / 256,
                    z == i % 16,
                    i < 4096,
            ;
            let global_y: i64 = base_y + y as i64;
            let height: i64 = heights[x * 16 + z] as i64;
            let block = if global_y < height {
                Block::Stone
            } else if global_y == height {
                Block::Dirt
            } else {
                Block::Air
            };
            self.blocks.set(i, block);
            i += 1;
        }
        assert(self.blocks@ =~= terrain_blocks(self.id, heights@));
    }

    /// The block at a local coordinate, or `None` when the coordinate lies outside the chunk.
    pub fn try_get(&self, x: i32, y: i32, z: i32) -> (r: Option<Block>)
        requires
            self.wf(),
        ensures
            r == (if in_bounds(x as int, y as int, z as int) {
                Some(block_at(self@.blocks, x as int, y as int, z as int))
            } else {
                None
            }),
    {
        if 0 <= x && x < 16 && 0 <= y && y < 16 && 0 <= z && z < 16 {
            let i: usize = (x * 256 + y * 16 + z) as usize;
            Some(self.blocks[i])
        } else {
            None
        }
    }

    /// The block at a local coordinate, reading air outside the chunk.
    pub fn get_or_air(&self, x: i32, y: i32, z: i32) -> (r: Block)
        requires
            self.wf(),
        ensures
            r == get_or_air_spec(self@.blocks, x as int, y as int, z as int),
    {
        match self.try_get(x, y, z) {
            Some(b) => b,
            None => Block::Air,
        }
    }

    /// Writes the block at a local coordinate inside the chunk.
    pub fn set(&mut self, x: usize, y: usize, z: usize, block: Block)
        requires
            old(self).wf(),
            in_bounds(x as int, y as int, z as int),
        ensures
            final(self).wf(),
            final(self)@.id == old(self)@.id,
            final(self)@.blocks == old(self)@.blocks.update(index_of(x as int, y as int, z as int), block),
    {
        let i: usize = x * 256 + y * 16 + z;
        self.blocks.set(i, block);
    }

    /// A mutable reference to the block at a local coordinate inside the chunk.
    pub fn get_mut(&mut self, x: usize, y: usize, z: usize) -> (r: &mut Block)
        requires
            old(self).wf(),
            in_bounds(x as int, y as int, z as int),
        ensures
            *r == block_at(old(self)@.blocks, x as int, y as int, z as int),
            final(self)@.id == old(self)@.id,
            final(self)@.blocks == old(self)@.blocks.update(index_of(x as int, y as int, z as int), *final(r)),
    {
        let i: usize = x * 256 + y * 16 + z;
        &mut self.blocks[i]
    }
}

} // verus!
