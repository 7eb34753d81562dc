use vstd::prelude::*;

verus! {

/// The kinds of block a chunk can hold.
#[derive(Clone, Copy, Debug, PartialEq, Eq, Structural)]
pub enum Block {
    Air,
    Dirt,
    Stone,
}

/// A texture coordinate in the block atlas, counted in cells.
///
/// The atlas is a 16 by 16 grid of cells, so the normalised coordinate is
/// `(u / 16, v / 16)`.
#[derive(Clone, Copy, Debug, PartialEq, Eq, Structural)]
pub struct TexCoord {
    pub u: u32,
    pub v: u32,
}

impl Block {
    /// Whether the block is empty space.
    pub open spec fn is_air(self) -> bool {
        self is Air
    }

    /// The atlas cell holding this block's texture.
    pub open spec fn atlas_cell(self) -> (u32, u32) {
        match self {
            Block::Air => (0, 0),
            Block::Dirt => (2, 0),
            Block::Stone => (3, 0),
        }
    }

    /// The four corners of the block's atlas cell, in the winding order of a face.
    pub open spec fn uvs_spec(self) -> Seq<TexCoord> {
        let (x, y) = self.atlas_cell();
        seq![
            TexCoord { u: x, v: (y + 1) as u32 },
            TexCoord { u: x, v: y },
            TexCoord { u: (x + 1) as u32, v: y },
            TexCoord { u: (x + 1) as u32, v: (y + 1) as u32 },
        ]
    }

    pub fn is_air_exec(&self) -> (r: bool)
        ensures
            r == self.is_air(),
    {
        match self {
            Block::Air => true,
            _ => false,
        }
    }

    /// The texture coordinates of the block's atlas cell, one per face corner.
    pub fn uvs(&self) -> (r: [TexCoord; 4])
        ensures
            r@ == self.uvs_spec(),
    {
        let (x, y): (u32, u32) = match self {
            Block::Air => (0, 0),
            Block::Dirt => (2, 0),
            Block::Stone => (3, 0),
        };
        let r = [
            TexCoord { u: x, v: y + 1 },
            TexCoord { u: x, v: y },
            TexCoord { u: x + 1, v: y },
            TexCoord { u: x + 1, v: y + 1 },
        ];
        assert(r@ =~= self.uvs_spec());
        r
    }
}

} // verus!
