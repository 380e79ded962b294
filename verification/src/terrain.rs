use vstd::prelude::*;
use crate::biome::Biome;
use crate::block::BlockType;
use crate::chunk::{in_column, Chunk};
use crate::constants::{SEA_LEVEL, WORLD_HEIGHT};

verus! {

/// The hash of column `(x, z)` for a world of seed `seed`, which picks dirt
/// depth, tree size and cave entrances.
pub open spec fn spec_position_hash(seed: u32, x: i32, z: i32) -> u32 {
    let h = seed.wrapping_add(x as u32).wrapping_mul(73856093);
    let h = h.wrapping_add(z as u32).wrapping_mul(19349663);
    h ^ (h >> 16u32)
}

/// The hash of block `(x, y, z)` for a world of seed `seed`, which picks the
/// bedrock floor and ores.
pub open spec fn spec_position_hash_3d(seed: u32, x: i32, y: i32, z: i32) -> u32 {
    let h = seed.wrapping_add(x as u32).wrapping_mul(73856093);
    let h = h.wrapping_add(y as u32).wrapping_mul(19349663);
    let h = h.wrapping_add(z as u32).wrapping_mul(83492791);
    h ^ (h >> 16u32)
}

/// Hash of column `(x, z)`.
pub fn position_hash(seed: u32, x: i32, z: i32) -> (h: u32)
    ensures
        h == spec_position_hash(seed, x, z),
{
    let mut hash = seed;
    hash = hash.wrapping_add(x as u32).wrapping_mul(73856093);
    hash = hash.wrapping_add(z as u32).wrapping_mul(19349663);
    hash ^ (hash >> 16)
}

/// Hash of block `(x, y, z)`.
pub fn position_hash_3d(seed: u32, x: i32, y: i32, z: i32) -> (h: u32)
    ensures
        h == spec_position_hash_3d(seed, x, y, z),
{
    let mut hash = seed;
    hash = hash.wrapping_add(x as u32).wrapping_mul(73856093);
    hash = hash.wrapping_add(y as u32).wrapping_mul(19349663);
    hash = hash.wrapping_add(z as u32).wrapping_mul(83492791);
    hash ^ (hash >> 16)
}

/// Layer 0 is bedrock; on layers 1 to 4 a block is bedrock with chance
/// `(5 - y) * 20` percent, drawn from the block hash.
pub open spec fn is_bedrock_floor(seed: u32, y: i32, x: i32, z: i32) -> bool {
    ||| y == 0
    ||| y <= 4 && spec_position_hash_3d(seed, x, y, z) % 100 < (5 - y) * 20
}

/// How deep dirt reaches below the surface of column `(x, z)`: 3 to 5 blocks.
pub open spec fn dirt_depth(seed: u32, x: i32, z: i32) -> int {
    3 + (spec_position_hash(seed, x, z) % 3) as int
}

/// The block that terrain of biome `biome` whose surface is at
/// `surface_height` has at height `y` of column `(x, z)`, before caves and
/// decorations.
pub open spec fn block_for_biome(seed: u32, biome: Biome, y: i32, surface_height: i32, x: i32, z: i32) -> BlockType {
    let depth = surface_height - y;
    let top = y == surface_height - 1;
    let dd = dirt_depth(seed, x, z);
    if is_bedrock_floor(seed, y, x, z) {
        BlockType::Bedrock
    } else {
        match biome {
            Biome::Ocean | Biome::River | Biome::Lake => {
                if depth > 4 {
                    BlockType::Stone
                } else if depth > 1 {
                    BlockType::Gravel
                } else if y < surface_height {
                    BlockType::Sand
                } else {
                    BlockType::Air
                }
            },
            Biome::Beach | Biome::Island => {
                if depth > 6 {
                    BlockType::Stone
                } else if depth > 0 {
                    BlockType::Sand
                } else if top {
                    if biome == Biome::Island && y > SEA_LEVEL {
                        BlockType::Grass
                    } else {
                        BlockType::Sand
                    }
                } else {
                    BlockType::Air
                }
            },
            Biome::Desert => {
                if depth > 10 {
                    BlockType::Stone
                } else if depth > 0 || top {
                    BlockType::Sand
                } else {
                    BlockType::Air
                }
            },
            Biome::Tundra => {
                if depth > dd + 2 {
                    BlockType::Stone
                } else if depth > 1 {
                    BlockType::Dirt
                } else if top {
                    BlockType::Snow
                } else {
                    BlockType::Air
                }
            },
            Biome::Mountains => {
                if y > 140 {
                    if top {
                        BlockType::Snow
                    } else if depth > 0 {
                        BlockType::Stone
                    } else {
                        BlockType::Air
                    }
                } else if y > 110 {
                    if depth > 2 {
                        BlockType::Stone
                    } else if top {
                        BlockType::Grass
                    } else {
                        BlockType::Stone
                    }
                } else if depth > dd {
                    BlockType::Stone
                } else if depth > 1 {
                    BlockType::Dirt
                } else if top {
                    BlockType::Grass
                } else {
                    BlockType::Air
                }
            },
            Biome::Swamp => {
                if depth > dd {
                    BlockType::Stone
                } else if depth > 1 {
                    BlockType::Dirt
                } else if top {
                    if y <= SEA_LEVEL {
                        BlockType::Clay
                    } else {
                        BlockType::Grass
                    }
                } else {
                    BlockType::Air
                }
            },
            Biome::Plains | Biome::Forest => {
                if depth > dd {
                    BlockType::Stone
                } else if depth > 1 {
                    BlockType::Dirt
                } else if top {
                    BlockType::Grass
                } else {
                    BlockType::Air
                }
            },
        }
    }
}

/// Terrain layer law: the bedrock floor comes first; above it, each biome's
/// column holds, from the top down, the layers below, by depth `d` under the
/// surface (`d == 1` is the surface block, `d <= 0` is above the ground) and
/// with the column's dirt depth `dd` (3 to 5 blocks):
/// oceans, rivers and lakes: sand at 1, gravel from 2 to 4, stone below;
/// beaches and islands: sand from 1 to 6, stone below; deserts: sand from 1
/// to 10, stone below; tundra: snow at 1, dirt from 2 to `dd + 2`, stone
/// below; plains and forests: grass at 1, dirt from 2 to `dd`, stone below;
/// swamps: as plains, but clay on the surface at or below sea level;
/// mountains: as plains up to height 110, grass over stone up to 140, snow
/// over stone higher up.
pub proof fn lemma_biome_layers(seed: u32, biome: Biome, y: i32, surface_height: i32, x: i32, z: i32)
    ensures
        ({
            let b = block_for_biome(seed, biome, y, surface_height, x, z);
            let d = surface_height - y;
            let dd = dirt_depth(seed, x, z);
            &&& 3 <= dd <= 5
            &&& y == 0 ==> b == BlockType::Bedrock
            &&& is_bedrock_floor(seed, y, x, z) ==> b == BlockType::Bedrock
            &&& y > 4 ==> !is_bedrock_floor(seed, y, x, z)
            &&& !is_bedrock_floor(seed, y, x, z) ==> {
                &&& (biome == Biome::Ocean || biome == Biome::River || biome == Biome::Lake) ==> {
                    &&& d > 4 ==> b == BlockType::Stone
                    &&& 1 < d <= 4 ==> b == BlockType::Gravel
                    &&& d == 1 ==> b == BlockType::Sand
                    &&& d <= 0 ==> b == BlockType::Air
                }
                &&& (biome == Biome::Beach || biome == Biome::Island) ==> {
                    &&& d > 6 ==> b == BlockType::Stone
                    &&& 0 < d <= 6 ==> b == BlockType::Sand
                    &&& d <= 0 ==> b == BlockType::Air
                }
                &&& biome == Biome::Desert ==> {
                    &&& d > 10 ==> b == BlockType::Stone
                    &&& 0 < d <= 10 ==> b == BlockType::Sand
                    &&& d <= 0 ==> b == BlockType::Air
                }
                &&& biome == Biome::Tundra ==> {
                    &&& d > dd + 2 ==> b == BlockType::Stone
                    &&& 1 < d <= dd + 2 ==> b == BlockType::Dirt
                    &&& d == 1 ==> b == BlockType::Snow
                    &&& d <= 0 ==> b == BlockType::Air
                }
                &&& (biome == Biome::Plains || biome == Biome::Forest) ==> {
                    &&& d > dd ==> b == BlockType::Stone
                    &&& 1 < d <= dd ==> b == BlockType::Dirt
                    &&& d == 1 ==> b == BlockType::Grass
                    &&& d <= 0 ==> b == BlockType::Air
                }
                &&& biome == Biome::Swamp ==> {
                    &&& d > dd ==> b == BlockType::Stone
                    &&& 1 < d <= dd ==> b == BlockType::Dirt
                    &&& d == 1 && y <= SEA_LEVEL ==> b == BlockType::Clay
                    &&& d == 1 && y > SEA_LEVEL ==> b == BlockType::Grass
                    &&& d <= 0 ==> b == BlockType::Air
                }
                &&& biome == Biome::Mountains ==> {
                    &&& y <= 110 ==> {
                        &&& d > dd ==> b == BlockType::Stone
                        &&& 1 < d <= dd ==> b == BlockType::Dirt
                        &&& d == 1 ==> b == BlockType::Grass
                        &&& d <= 0 ==> b == BlockType::Air
                    }
                    &&& 110 < y <= 140 ==> {
                        &&& d == 1 ==> b == BlockType::Grass
                        &&& d != 1 ==> b == BlockType::Stone
                    }
                    &&& y > 140 ==> {
                        &&& d == 1 ==> b == BlockType::Snow
                        &&& d > 1 ==> b == BlockType::Stone
                        &&& d <= 0 ==> b == BlockType::Air
                    }
                }
            }
        }),
{
}

/// The inputs on which choosing a terrain block stays within `i32` and `u32`
/// arithmetic.
pub open spec fn block_for_biome_in_range(y: i32, surface_height: i32) -> bool {
    &&& y <= 4 ==> (5 - y) * 20 <= u32::MAX
    &&& i32::MIN <= surface_height - y <= i32::MAX
    &&& i32::MIN < surface_height
}

/// The block of biome `biome` at height `y` of column `(world_x, world_z)`
/// whose surface is at `surface_height`.
pub fn get_block_for_biome(seed: u32, biome: Biome, y: i32, surface_height: i32, world_x: i32, world_z: i32) -> (b: BlockType)
    requires
        block_for_biome_in_range(y, surface_height),
    ensures
        b == block_for_biome(seed, biome, y, surface_height, world_x, world_z),
{
    if y == 0 {
        return BlockType::Bedrock;
    }
    if y <= 4 {
        let bedrock_chance = (5 - y) as u32 * 20;
        let hash = position_hash_3d(seed, world_x, y, world_z);
        if (hash % 100) < bedrock_chance {
            return BlockType::Bedrock;
        }
    }
    let depth_from_surface = surface_height - y;
    let dirt_depth = 3 + (position_hash(seed, world_x, world_z) % 3) as i32;
    let top = y == surface_height - 1;
    match biome {
        Biome::Ocean | Biome::River | Biome::Lake => {
            if depth_from_surface > 4 {
                BlockType::Stone
            } else if depth_from_surface > 1 {
                BlockType::Gravel
            } else if y < surface_height {
                BlockType::Sand
            } else {
                BlockType::Air
            }
        },
        Biome::Beach | Biome::Island => {
            if depth_from_surface > 6 {
                BlockType::Stone
            } else if depth_from_surface > 0 {
                BlockType::Sand
            } else if top {
                if biome == Biome::Island && y > SEA_LEVEL {
                    BlockType::Grass
                } else {
                    BlockType::Sand
                }
            } else {
                BlockType::Air
            }
        },
        Biome::Desert => {
            if depth_from_surface > 10 {
                BlockType::Stone
            } else if depth_from_surface > 0 {
                BlockType::Sand
            } else if top {
                BlockType::Sand
            } else {
                BlockType::Air
            }
        },
        Biome::Tundra => {
            if depth_from_surface > dirt_depth + 2 {
                BlockType::Stone
            } else if depth_from_surface > 1 {
                BlockType::Dirt
            } else if top {
                BlockType::Snow
            } else {
                BlockType::Air
            }
        },
        Biome::Mountains => {
            if y > 140 {
                if top {
                    BlockType::Snow
                } else if depth_from_surface > 0 {
                    BlockType::Stone
                } else {
                    BlockType::Air
                }
            } else if y > 110 {
                if depth_from_surface > 2 {
                    BlockType::Stone
                } else if top {
                    BlockType::Grass
                } else {
                    BlockType::Stone
                }
            } else {
                if depth_from_surface > dirt_depth {
                    BlockType::Stone
                } else if depth_from_surface > 1 {
                    BlockType::Dirt
                } else if top {
                    BlockType::Grass
                } else {
                    BlockType::Air
                }
            }
        },
        Biome::Swamp => {
            if depth_from_surface > dirt_depth {
                BlockType::Stone
            } else if depth_from_surface > 1 {
                BlockType::Dirt
            } else if top {
                if y <= SEA_LEVEL {
                    BlockType::Clay
                } else {
                    BlockType::Grass
                }
            } else {
                BlockType::Air
            }
        },
        Biome::Plains | Biome::Forest => {
            if depth_from_surface > dirt_depth {
                BlockType::Stone
            } else if depth_from_surface > 1 {
                BlockType::Dirt
            } else if top {
                BlockType::Grass
            } else {
                BlockType::Air
            }
        },
    }
}

/// Mountains and islands get overhangs from 3D density above their surface.
pub open spec fn is_rough(biome: Biome) -> bool {
    biome == Biome::Mountains || biome == Biome::Island
}

/// The height below which the terrain pass writes a column: 20 below the
/// world top for rough biomes, else 5 above the surface but at least sea level.
pub open spec fn column_top(biome: Biome, surface_height: i32) -> int {
    if is_rough(biome) {
        WORLD_HEIGHT - 20
    } else if surface_height + 5 >= SEA_LEVEL {
        surface_height + 5
    } else {
        SEA_LEVEL as int
    }
}

/// What the terrain pass writes at height `y` of a column, if anything:
/// below the surface (or, in rough biomes, where `dense` says the 3D density
/// is positive within 8 blocks under the surface and above) the biome's
/// block unless that is air; above the surface and below sea level water,
/// or ice on the top water layer in tundra.
pub open spec fn terrain_block(
    seed: u32,
    biome: Biome,
    surface_height: i32,
    world_x: i32,
    world_z: i32,
    dense: Seq<bool>,
    y: int,
) -> Option<BlockType> {
    if !(0 <= y < column_top(biome, surface_height)) {
        None
    } else if y < surface_height || (is_rough(biome) && y >= surface_height - 8 && dense[y]) {
        let b = block_for_biome(seed, biome, y as i32, surface_height, world_x, world_z);
        if b != BlockType::Air {
            Some(b)
        } else {
            None
        }
    } else if surface_height <= y < SEA_LEVEL {
        if biome == Biome::Tundra && y == SEA_LEVEL - 1 {
            Some(BlockType::Ice)
        } else {
            Some(BlockType::Water)
        }
    } else {
        None
    }
}

/// Terrain-pass law: under the surface the pass writes the biome's block
/// (leaving air unwritten); between the surface and sea level it floods the
/// column with water, with an ice sheet on the top water layer in tundra; in
/// biomes without overhangs it writes nothing at or above both the surface
/// and sea level, and it never writes below height 0.
pub proof fn lemma_terrain_pass(
    seed: u32,
    biome: Biome,
    surface_height: i32,
    world_x: i32,
    world_z: i32,
    dense: Seq<bool>,
    y: int,
)
    ensures
        ({
            let t = terrain_block(seed, biome, surface_height, world_x, world_z, dense, y);
            let b = block_for_biome(seed, biome, y as i32, surface_height, world_x, world_z);
            &&& y < 0 ==> t is None
            &&& 0 <= y < surface_height && y < column_top(biome, surface_height) ==> t == (if b == BlockType::Air {
                None::<BlockType>
            } else {
                Some(b)
            })
            &&& !is_rough(biome) && 0 <= y && surface_height <= y < SEA_LEVEL ==> t == Some(
                if biome == Biome::Tundra && y == SEA_LEVEL - 1 { BlockType::Ice } else { BlockType::Water },
            )
            &&& biome != Biome::Tundra && !is_rough(biome) && 0 <= y && surface_height <= y < SEA_LEVEL ==> t == Some(BlockType::Water)
            &&& !is_rough(biome) && y >= surface_height && y >= SEA_LEVEL ==> t is None
            &&& t == Some(BlockType::Ice) ==> biome == Biome::Tundra && y == SEA_LEVEL - 1
        }),
{
}

/// The column `v` after the terrain pass wrote column `(lx, lz)`.
pub open spec fn terrain_view(
    v: spec_fn(int, int, int) -> BlockType,
    lx: i32,
    lz: i32,
    seed: u32,
    biome: Biome,
    surface_height: i32,
    world_x: i32,
    world_z: i32,
    dense: Seq<bool>,
) -> spec_fn(int, int, int) -> BlockType {
    |a: int, b: int, c: int|
        if a == lx && c == lz && in_column(a, b, c) && terrain_block(
            seed,
            biome,
            surface_height,
            world_x,
            world_z,
            dense,
            b,
        ) is Some {
            terrain_block(seed, biome, surface_height, world_x, world_z, dense, b)->0
        } else {
            v(a, b, c)
        }
}

/// Surface heights for which the terrain pass stays within `i32` arithmetic.
pub open spec fn surface_in_range(surface_height: i32) -> bool {
    i32::MIN + WORLD_HEIGHT <= surface_height <= i32::MAX - 5
}

/// Writes the terrain of column `(lx, lz)` (world column `(world_x,
/// world_z)`): `dense[y]` tells whether the 3D density at height `y` is
/// positive, which only rough biomes read.
pub fn fill_column(
    chunk: &mut Chunk,
    seed: u32,
    lx: i32,
    lz: i32,
    world_x: i32,
    world_z: i32,
    biome: Biome,
    surface_height: i32,
    dense: &[bool],
)
    requires
        old(chunk).wf(),
        dense@.len() == WORLD_HEIGHT,
        surface_in_range(surface_height),
    ensures
        final(chunk).wf(),
        final(chunk).cx == old(chunk).cx,
        final(chunk).cz == old(chunk).cz,
        final(chunk).player_modified == old(chunk).player_modified,
        final(chunk).flags() == old(chunk).flags(),
        final(chunk).view_fn() == terrain_view(
            old(chunk).view_fn(),
            lx,
            lz,
            seed,
            biome,
            surface_height,
            world_x,
            world_z,
            dense@,
        ),
{
    let ghost start = *chunk;
    let rough = matches!(biome, Biome::Mountains | Biome::Island);
    let max_y = if rough {
        WORLD_HEIGHT - 20
    } else if surface_height + 5 >= SEA_LEVEL {
        surface_height + 5
    } else {
        SEA_LEVEL
    };
    let mut y: i32 = 0;
    while y < max_y
        invariant
            chunk.wf(),
            chunk.cx == start.cx,
            chunk.cz == start.cz,
            chunk.player_modified == start.player_modified,
            chunk.flags() == start.flags(),
            dense@.len() == WORLD_HEIGHT,
            surface_in_range(surface_height),
            rough == is_rough(biome),
            max_y == column_top(biome, surface_height),
            0 <= y,
            y <= max_y || max_y < 0,
            forall|a: int, b: int, c: int| #[trigger] chunk.block(a, b, c) == if a == lx && c == lz && in_column(a, b, c)
                && b < y && terrain_block(seed, biome, surface_height, world_x, world_z, dense@, b) is Some {
                terrain_block(seed, biome, surface_height, world_x, world_z, dense@, b)->0
            } else {
                start.block(a, b, c)
            },
        decreases max_y - y,
    {
        let solid = y < surface_height || (rough && y >= surface_height - 8 && dense[y as usize]);
        if solid {
            let block = get_block_for_biome(seed, biome, y, surface_height, world_x, world_z);
            if !matches!(block, BlockType::Air) {
                chunk.set_block(lx, y, lz, block);
            }
        } else if y >= surface_height && y < SEA_LEVEL {
            if matches!(biome, Biome::Tundra) && y == SEA_LEVEL - 1 {
                chunk.set_block(lx, y, lz, BlockType::Ice);
            } else {
                chunk.set_block(lx, y, lz, BlockType::Water);
            }
        }
        y = y + 1;
    }
    assert(chunk.view_fn() =~= terrain_view(start.view_fn(), lx, lz, seed, biome, surface_height, world_x, world_z, dense@));
}

/// What cave carving leaves at height `y` of a column whose terrain height
/// is `height`, where the block was `old`: below the surface and above the
/// bedrock layer, where `cave[y]` says a cave passes, any block but water,
/// bedrock and air becomes water below sea level and air above.
pub open spec fn carved_block(old: BlockType, y: int, height: i32, cave: Seq<bool>) -> BlockType {
    if 1 <= y < height && y < WORLD_HEIGHT - 1 && cave[y] && old != BlockType::Water && old != BlockType::Bedrock
        && old != BlockType::Air {
        if y < SEA_LEVEL {
            BlockType::Water
        } else {
            BlockType::Air
        }
    } else {
        old
    }
}

/// Cave law: where a cave passes (`cave[y]`), strictly above the bedrock
/// layer, below the terrain height and below the top layer of the world,
/// a block other than water, bedrock and air is hollowed into air at or
/// above sea level and flooded with water below it; every other block stays
/// as it was. So carving never puts water at or above sea level.
pub proof fn lemma_carving(old: BlockType, y: int, height: i32, cave: Seq<bool>)
    ensures
        ({
            let c = carved_block(old, y, height, cave);
            let carved = 1 <= y < height && y < WORLD_HEIGHT - 1 && cave[y] && old != BlockType::Water
                && old != BlockType::Bedrock && old != BlockType::Air;
            &&& carved && y >= SEA_LEVEL ==> c == BlockType::Air
            &&& carved && y < SEA_LEVEL ==> c == BlockType::Water
            &&& !carved ==> c == old
            &&& c == BlockType::Water ==> old == BlockType::Water || y < SEA_LEVEL
        }),
{
}

/// Carving column `(lx, lz)` changes that column only, block by block as
/// `lemma_carving` says.
pub proof fn lemma_carved_column(v: spec_fn(int, int, int) -> BlockType, lx: i32, lz: i32, height: i32, cave: Seq<bool>, a: int, b: int, c: int)
    ensures
        carved_view(v, lx, lz, height, cave)(a, b, c) == if a == lx && c == lz && in_column(a, b, c) {
            carved_block(v(a, b, c), b, height, cave)
        } else {
            v(a, b, c)
        },
        !(a == lx && c == lz) ==> carved_view(v, lx, lz, height, cave)(a, b, c) == v(a, b, c),
{
}

/// The column `v` after caves were carved into column `(lx, lz)`.
pub open spec fn carved_view(v: spec_fn(int, int, int) -> BlockType, lx: i32, lz: i32, height: i32, cave: Seq<bool>) -> spec_fn(
    int,
    int,
    int,
) -> BlockType {
    |a: int, b: int, c: int|
        if a == lx && c == lz && in_column(a, b, c) {
            carved_block(v(a, b, c), b, height, cave)
        } else {
            v(a, b, c)
        }
}

/// Carves the caves of column `(lx, lz)`, whose terrain height is `height`:
/// `cave[y]` tells whether a cave passes at height `y`.
pub fn carve_column(chunk: &mut Chunk, lx: i32, lz: i32, height: i32, cave: &[bool])
    requires
        old(chunk).wf(),
        cave@.len() == WORLD_HEIGHT,
    ensures
        final(chunk).wf(),
        final(chunk).cx == old(chunk).cx,
        final(chunk).cz == old(chunk).cz,
        final(chunk).player_modified == old(chunk).player_modified,
        final(chunk).flags() == old(chunk).flags(),
        final(chunk).view_fn() == carved_view(old(chunk).view_fn(), lx, lz, height, cave@),
{
    let ghost start = *chunk;
    let top = if height < WORLD_HEIGHT - 1 { height } else { WORLD_HEIGHT - 1 };
    let mut y: i32 = 1;
    while y < top
        invariant
            chunk.wf(),
            chunk.cx == start.cx,
            chunk.cz == start.cz,
            chunk.player_modified == start.player_modified,
            chunk.flags() == start.flags(),
            cave@.len() == WORLD_HEIGHT,
            top <= WORLD_HEIGHT - 1,
            top == height || top == WORLD_HEIGHT - 1,
            top <= height,
            1 <= y,
            y <= top || top < 1,
            forall|a: int, b: int, c: int| #[trigger] chunk.block(a, b, c) == if a == lx && c == lz && in_column(a, b, c)
                && b < y {
                carved_block(start.block(a, b, c), b, height, cave@)
            } else {
                start.block(a, b, c)
            },
        decreases top - y,
    {
        if cave[y as usize] {
            let current = chunk.get_block(lx, y, lz);
            if !matches!(current, BlockType::Water | BlockType::Bedrock | BlockType::Air) {
                if y < SEA_LEVEL {
                    chunk.set_block(lx, y, lz, BlockType::Water);
                } else {
                    chunk.set_block(lx, y, lz, BlockType::Air);
                }
            }
        }
        y = y + 1;
    }
    assert(chunk.view_fn() =~= carved_view(start.view_fn(), lx, lz, height, cave@));
}

} // verus!
