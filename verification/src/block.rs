use vstd::prelude::*;

verus! {

/// The kinds of voxel the world is built from.
#[derive(Debug, Clone, Copy, PartialEq, Eq, Hash, Structural)]
pub enum BlockType {
    Air,
    Stone,
    Grass,
    Dirt,
    Sand,
    Gravel,
    Clay,
    Bedrock,
    Water,
    Ice,
    Snow,
    Wood,
    WoodStairs,
    Leaves,
    Cactus,
    DeadBush,
}

/// A block of kind `b` lets the faces of the blocks next to it be seen.
pub open spec fn see_through(b: BlockType) -> bool {
    b == BlockType::Air || b == BlockType::Water || b == BlockType::Ice || b == BlockType::Leaves
        || b == BlockType::DeadBush
}

/// The face of a block of kind `b` that touches a block of kind `n` is drawn:
/// `n` can be seen through and is not of the same kind (two touching water
/// blocks, or two touching ice blocks, share no face).
pub open spec fn renders_against(b: BlockType, n: BlockType) -> bool {
    see_through(n) && n != b
}

/// The texture-array layer of a kind of block.
pub open spec fn layer_of(b: BlockType) -> u32 {
    match b {
        BlockType::Air => 0,
        BlockType::Stone => 1,
        BlockType::Grass => 2,
        BlockType::Dirt => 3,
        BlockType::Sand => 4,
        BlockType::Gravel => 5,
        BlockType::Clay => 6,
        BlockType::Bedrock => 7,
        BlockType::Water => 8,
        BlockType::Ice => 9,
        BlockType::Snow => 10,
        BlockType::Wood => 11,
        BlockType::WoodStairs => 12,
        BlockType::Leaves => 13,
        BlockType::Cactus => 14,
        BlockType::DeadBush => 15,
    }
}

/// The layer drawn on the bottom face: grass shows dirt underneath.
pub open spec fn bottom_layer(b: BlockType) -> u32 {
    if b == BlockType::Grass {
        layer_of(BlockType::Dirt)
    } else {
        layer_of(b)
    }
}

impl BlockType {
    /// Whether the faces behind a block of this kind can be seen.
    pub fn is_transparent(&self) -> (r: bool)
        ensures
            r == see_through(*self),
    {
        match self {
            BlockType::Air | BlockType::Water | BlockType::Ice | BlockType::Leaves | BlockType::DeadBush => true,
            _ => false,
        }
    }

    /// Whether the face of this block that touches `neighbor` is drawn.
    pub fn should_render_face_against(&self, neighbor: BlockType) -> (r: bool)
        ensures
            r == renders_against(*self, neighbor),
    {
        neighbor.is_transparent() && neighbor != *self
    }

    /// The texture layer of the top face.
    pub fn tex_top(&self) -> (t: u32)
        ensures
            t == layer_of(*self),
    {
        self.tex_side()
    }

    /// The texture layer of the four side faces.
    pub fn tex_side(&self) -> (t: u32)
        ensures
            t == layer_of(*self),
    {
        match self {
            BlockType::Air => 0,
            BlockType::Stone => 1,
            BlockType::Grass => 2,
            BlockType::Dirt => 3,
            BlockType::Sand => 4,
            BlockType::Gravel => 5,
            BlockType::Clay => 6,
            BlockType::Bedrock => 7,
            BlockType::Water => 8,
            BlockType::Ice => 9,
            BlockType::Snow => 10,
            BlockType::Wood => 11,
            BlockType::WoodStairs => 12,
            BlockType::Leaves => 13,
            BlockType::Cactus => 14,
            BlockType::DeadBush => 15,
        }
    }

    /// The texture layer of the bottom face.
    pub fn tex_bottom(&self) -> (t: u32)
        ensures
            t == bottom_layer(*self),
    {
        match self {
            BlockType::Grass => BlockType::Dirt.tex_side(),
            _ => self.tex_side(),
        }
    }
}

} // verus!
