use vstd::prelude::*;
use crate::biome::{spec_has_trees, Biome};
use crate::block::BlockType;
use crate::chunk::{in_column, Chunk};
use crate::constants::{CHUNK_SIZE, NUM_SUBCHUNKS, SEA_LEVEL, WORLD_HEIGHT};
use crate::terrain::{carve_column, carved_block, carved_view, fill_column, position_hash, spec_position_hash, surface_in_range, terrain_block, terrain_view};
use crate::trees::{cactus_height, cactus_view, can_place_tree, crown_reach, place_cactus_in_chunk, place_tree_in_chunk, trunk_height, tree_fits, tree_view};

verus! {

/// What the desert noise put on a column: nothing, a cactus or a dead bush.
#[derive(Debug, Clone, Copy, PartialEq, Eq, Structural)]
pub enum CactusRoll {
    Nothing,
    Cactus,
    DeadBush,
}

/// What the noise fields say about one world column: its biome and terrain
/// height, where the 3D density is positive and where caves pass (both
/// indexed by height), whether the tree noise exceeds the biome's tree
/// density, and the desert decoration.
#[derive(Debug, Clone)]
pub struct ColumnSample {
    pub biome: Biome,
    pub height: i32,
    pub dense: Vec<bool>,
    pub cave: Vec<bool>,
    pub tree_roll: bool,
    pub cactus: CactusRoll,
}

/// The column `v` with block `k` put at `(lx, y, lz)` if that lies in the column.
pub open spec fn set_view(v: spec_fn(int, int, int) -> BlockType, lx: int, y: int, lz: int, k: BlockType) -> spec_fn(
    int,
    int,
    int,
) -> BlockType {
    |a: int, b: int, c: int|
        if a == lx && b == y && c == lz && in_column(a, b, c) {
            k
        } else {
            v(a, b, c)
        }
}

/// A tree planted from world column `(world_x, world_z)` is large when the
/// column hash modulo 100 is below 25.
pub open spec fn tree_is_large(seed: u32, world_x: i32, world_z: i32) -> bool {
    spec_position_hash(seed, world_x, world_z) % 100 < 25
}

/// The column `v` after decorating local column `(lx, lz)` (world column
/// `(world_x, world_z)`) described by `s`: nothing below sea level; else a
/// tree where the biome has trees, the tree noise says so and the tree fits;
/// then, in deserts, a cactus or a dead bush on the surface.
pub open spec fn decorate_view(
    v: spec_fn(int, int, int) -> BlockType,
    seed: u32,
    lx: i32,
    lz: i32,
    world_x: i32,
    world_z: i32,
    s: ColumnSample,
) -> spec_fn(int, int, int) -> BlockType {
    if s.height < SEA_LEVEL {
        v
    } else {
        let large = tree_is_large(seed, world_x, world_z);
        let v1 = if spec_has_trees(s.biome) && s.tree_roll && tree_fits(v, lx as int, s.height as int, lz as int, large) {
            tree_view(v, lx, s.height, lz, s.biome, large)
        } else {
            v
        };
        if s.biome == Biome::Desert {
            match s.cactus {
                CactusRoll::Cactus => cactus_view(v1, seed, lx, s.height, lz),
                CactusRoll::DeadBush => set_view(v1, lx as int, s.height as int, lz as int, BlockType::DeadBush),
                CactusRoll::Nothing => v1,
            }
        } else {
            v1
        }
    }
}

/// Decorations of column `(lx, lz)` stay within `i32` arithmetic.
pub open spec fn decoration_in_range(seed: u32, lx: i32, lz: i32, s: ColumnSample) -> bool {
    &&& i32::MIN + 5 <= lx <= i32::MAX - 5
    &&& i32::MIN + 5 <= lz <= i32::MAX - 5
    &&& i32::MIN + 1 <= s.height
    &&& s.height + trunk_height(s.biome, true) + crown_reach(true) <= i32::MAX
    &&& (s.biome == Biome::Desert && s.cactus == CactusRoll::Cactus) ==> {
        &&& i32::MIN <= lx * 17 <= i32::MAX
        &&& i32::MIN <= lz * 31 <= i32::MAX
        &&& i32::MIN <= (seed as i32) + lx * 17 <= i32::MAX
        &&& i32::MIN <= (seed as i32) + lx * 17 + lz * 31 <= i32::MAX
    }
}

/// Decorates local column `(lx, lz)` (world column `(world_x, world_z)`)
/// as `s` describes it.
pub fn decorate_column(chunk: &mut Chunk, seed: u32, lx: i32, lz: i32, world_x: i32, world_z: i32, s: &ColumnSample)
    requires
        old(chunk).wf(),
        decoration_in_range(seed, lx, lz, *s),
    ensures
        final(chunk).wf(),
        final(chunk).cx == old(chunk).cx,
        final(chunk).cz == old(chunk).cz,
        final(chunk).player_modified == old(chunk).player_modified,
        final(chunk).flags() == old(chunk).flags(),
        final(chunk).view_fn() == decorate_view(old(chunk).view_fn(), seed, lx, lz, world_x, world_z, *s),
{
    let height = s.height;
    if height < SEA_LEVEL {
        return;
    }
    let biome = s.biome;
    if biome.has_trees() && s.tree_roll {
        let hash = position_hash(seed, world_x, world_z);
        let is_large = (hash % 100) < 25;
        if can_place_tree(chunk, lx, height, lz, is_large) {
            place_tree_in_chunk(chunk, lx, height, lz, biome, is_large);
        }
    }
    let ghost v1 = chunk.view_fn();
    if matches!(biome, Biome::Desert) {
        match s.cactus {
            CactusRoll::Cactus => {
                place_cactus_in_chunk(seed, chunk, lx, height, lz);
            },
            CactusRoll::DeadBush => {
                chunk.set_block(lx, height, lz, BlockType::DeadBush);
                assert(chunk.view_fn() =~= set_view(v1, lx as int, height as int, lz as int, BlockType::DeadBush));
            },
            CactusRoll::Nothing => {},
        }
    }
}

/// Index of local column `(lx, lz)` among the 256 samples of a chunk.
pub open spec fn column_index(lx: int, lz: int) -> int {
    lx * CHUNK_SIZE + lz
}

/// World coordinate of local coordinate `l` in chunk `c`.
pub open spec fn world_coord(c: i32, l: int) -> i32 {
    (c * CHUNK_SIZE + l) as i32
}

/// Decorated columns start 4 blocks in from each chunk edge, so trees stay
/// inside the chunk: local columns 4 to 11 in both directions.
pub const DECORATION_MARGIN: i32 = 4;

/// Local x of the `j`-th decorated column (x-major order).
pub open spec fn decoration_x(j: int) -> int {
    DECORATION_MARGIN + j / 8
}

/// Local z of the `j`-th decorated column.
pub open spec fn decoration_z(j: int) -> int {
    DECORATION_MARGIN + j % 8
}

/// What the terrain pass leaves at `(a, b, c)` of an all-air column.
pub open spec fn terrain_or_air(seed: u32, cx: i32, cz: i32, samples: Seq<ColumnSample>, a: int, b: int, c: int) -> BlockType {
    let s = samples[column_index(a, c)];
    match terrain_block(seed, s.biome, s.height, world_coord(cx, a), world_coord(cz, c), s.dense@, b) {
        Some(k) => k,
        None => BlockType::Air,
    }
}

/// The column after the terrain pass over local columns before `(lx, lz)`
/// in x-major order.
pub open spec fn terrain_pass(seed: u32, cx: i32, cz: i32, samples: Seq<ColumnSample>, lx: int, lz: int) -> spec_fn(
    int,
    int,
    int,
) -> BlockType {
    |a: int, b: int, c: int|
        if in_column(a, b, c) && (a < lx || (a == lx && c < lz)) {
            terrain_or_air(seed, cx, cz, samples, a, b, c)
        } else {
            BlockType::Air
        }
}

/// The column after the terrain pass and cave carving, before decorations.
pub open spec fn base_view(seed: u32, cx: i32, cz: i32, samples: Seq<ColumnSample>) -> spec_fn(int, int, int) -> BlockType {
    |a: int, b: int, c: int|
        if in_column(a, b, c) {
            let s = samples[column_index(a, c)];
            carved_block(terrain_or_air(seed, cx, cz, samples, a, b, c), b, s.height, s.cave@)
        } else {
            BlockType::Air
        }
}

/// The column after cave carving over local columns before `(lx, lz)`.
pub open spec fn cave_pass(seed: u32, cx: i32, cz: i32, samples: Seq<ColumnSample>, lx: int, lz: int) -> spec_fn(
    int,
    int,
    int,
) -> BlockType {
    |a: int, b: int, c: int|
        if in_column(a, b, c) && (a < lx || (a == lx && c < lz)) {
            base_view(seed, cx, cz, samples)(a, b, c)
        } else {
            terrain_pass(seed, cx, cz, samples, CHUNK_SIZE as int, 0)(a, b, c)
        }
}

/// The column `v` after decorating the first `k` decorated columns.
pub open spec fn decorated(v: spec_fn(int, int, int) -> BlockType, seed: u32, cx: i32, cz: i32, samples: Seq<ColumnSample>, k: nat) -> spec_fn(
    int,
    int,
    int,
) -> BlockType
    decreases k,
{
    if k == 0 {
        v
    } else {
        let j = k - 1;
        let lx = decoration_x(j);
        let lz = decoration_z(j);
        decorate_view(
            decorated(v, seed, cx, cz, samples, j as nat),
            seed,
            lx as i32,
            lz as i32,
            world_coord(cx, lx),
            world_coord(cz, lz),
            samples[column_index(lx, lz)],
        )
    }
}

/// The blocks of the generated chunk `(cx, cz)`: terrain, caves, then the 64
/// decorated columns in order.
pub open spec fn generated_view(seed: u32, cx: i32, cz: i32, samples: Seq<ColumnSample>) -> spec_fn(int, int, int) -> BlockType {
    decorated(base_view(seed, cx, cz, samples), seed, cx, cz, samples, 64)
}

/// One sample per column, each with a density and a cave flag per height,
/// and chunk and column coordinates within `i32` arithmetic.
pub open spec fn samples_ok(seed: u32, cx: i32, cz: i32, samples: Seq<ColumnSample>) -> bool {
    &&& i32::MIN <= cx * CHUNK_SIZE && cx * CHUNK_SIZE + CHUNK_SIZE <= i32::MAX
    &&& i32::MIN <= cz * CHUNK_SIZE && cz * CHUNK_SIZE + CHUNK_SIZE <= i32::MAX
    &&& samples.len() == CHUNK_SIZE * CHUNK_SIZE
    &&& forall|i: int|
        0 <= i < samples.len() ==> {
            &&& (#[trigger] samples[i]).dense@.len() == WORLD_HEIGHT
            &&& samples[i].cave@.len() == WORLD_HEIGHT
            &&& surface_in_range(samples[i].height)
        }
    &&& forall|j: int|
        0 <= j < 64 ==> decoration_in_range(
            seed,
            decoration_x(j) as i32,
            decoration_z(j) as i32,
            #[trigger] samples[column_index(decoration_x(j), decoration_z(j))],
        )
}

proof fn lemma_terrain_pass_step(seed: u32, cx: i32, cz: i32, samples: Seq<ColumnSample>, lx: int, lz: int)
    requires
        samples_ok(seed, cx, cz, samples),
        0 <= lx < CHUNK_SIZE,
        0 <= lz < CHUNK_SIZE,
    ensures
        ({
            let s = samples[column_index(lx, lz)];
            terrain_view(
                terrain_pass(seed, cx, cz, samples, lx, lz),
                lx as i32,
                lz as i32,
                seed,
                s.biome,
                s.height,
                world_coord(cx, lx),
                world_coord(cz, lz),
                s.dense@,
            ) == terrain_pass(seed, cx, cz, samples, lx, lz + 1)
        }),
{
    let s = samples[column_index(lx, lz)];
    assert(terrain_view(
        terrain_pass(seed, cx, cz, samples, lx, lz),
        lx as i32,
        lz as i32,
        seed,
        s.biome,
        s.height,
        world_coord(cx, lx),
        world_coord(cz, lz),
        s.dense@,
    ) =~= terrain_pass(seed, cx, cz, samples, lx, lz + 1));
}

proof fn lemma_terrain_pass_row(seed: u32, cx: i32, cz: i32, samples: Seq<ColumnSample>, lx: int)
    ensures
        terrain_pass(seed, cx, cz, samples, lx, CHUNK_SIZE as int) == terrain_pass(seed, cx, cz, samples, lx + 1, 0),
{
    assert(terrain_pass(seed, cx, cz, samples, lx, CHUNK_SIZE as int) =~= terrain_pass(seed, cx, cz, samples, lx + 1, 0));
}

/// The all-air chunk `(cx, cz)` with the terrain pass written over all its
/// columns.
fn build_terrain(seed: u32, cx: i32, cz: i32, samples: &Vec<ColumnSample>) -> (c: Chunk)
    requires
        samples_ok(seed, cx, cz, samples@),
    ensures
        c.wf(),
        c.cx == cx,
        c.cz == cz,
        !c.player_modified,
        c.view_fn() == terrain_pass(seed, cx, cz, samples@, CHUNK_SIZE as int, 0),
        forall|s: int| 0 <= s < NUM_SUBCHUNKS ==> !(#[trigger] c.flags()[s]).1,
{
    let mut chunk = Chunk::new(cx, cz);
    let base_x = cx * CHUNK_SIZE;
    let base_z = cz * CHUNK_SIZE;
    let ghost flags0 = chunk.flags();
    assert(forall|s: int| 0 <= s < NUM_SUBCHUNKS ==> !(#[trigger] flags0[s]).1);
    assert(chunk.view_fn() =~= terrain_pass(seed, cx, cz, samples@, 0, 0));
    let mut lx: i32 = 0;
    while lx < CHUNK_SIZE
        invariant
            samples_ok(seed, cx, cz, samples@),
            base_x == cx * CHUNK_SIZE,
            base_z == cz * CHUNK_SIZE,
            0 <= lx <= CHUNK_SIZE,
            chunk.wf(),
            chunk.cx == cx,
            chunk.cz == cz,
            !chunk.player_modified,
            chunk.flags() == flags0,
            forall|s: int| 0 <= s < NUM_SUBCHUNKS ==> !(#[trigger] flags0[s]).1,
            chunk.view_fn() == terrain_pass(seed, cx, cz, samples@, lx as int, 0),
        decreases CHUNK_SIZE - lx,
    {
        let mut lz: i32 = 0;
        while lz < CHUNK_SIZE
            invariant
                samples_ok(seed, cx, cz, samples@),
                base_x == cx * CHUNK_SIZE,
                base_z == cz * CHUNK_SIZE,
                0 <= lx < CHUNK_SIZE,
                0 <= lz <= CHUNK_SIZE,
                chunk.wf(),
                chunk.cx == cx,
                chunk.cz == cz,
                !chunk.player_modified,
                chunk.flags() == flags0,
                forall|s: int| 0 <= s < NUM_SUBCHUNKS ==> !(#[trigger] flags0[s]).1,
            chunk.flags() == flags0,
            forall|s: int| 0 <= s < NUM_SUBCHUNKS ==> !(#[trigger] flags0[s]).1,
                chunk.view_fn() == terrain_pass(seed, cx, cz, samples@, lx as int, lz as int),
            decreases CHUNK_SIZE - lz,
        {
            let i = (lx * CHUNK_SIZE + lz) as usize;
            let s = &samples[i];
            fill_column(&mut chunk, seed, lx, lz, base_x + lx, base_z + lz, s.biome, s.height, s.dense.as_slice());
            proof {
                lemma_terrain_pass_step(seed, cx, cz, samples@, lx as int, lz as int);
            }
            lz = lz + 1;
        }
        proof {
            lemma_terrain_pass_row(seed, cx, cz, samples@, lx as int);
        }
        lx = lx + 1;
    }
    chunk
}

proof fn lemma_cave_pass_step(seed: u32, cx: i32, cz: i32, samples: Seq<ColumnSample>, lx: int, lz: int)
    requires
        0 <= lx < CHUNK_SIZE,
        0 <= lz < CHUNK_SIZE,
    ensures
        ({
            let s = samples[column_index(lx, lz)];
            carved_view(cave_pass(seed, cx, cz, samples, lx, lz), lx as i32, lz as i32, s.height, s.cave@)
                == cave_pass(seed, cx, cz, samples, lx, lz + 1)
        }),
{
    let s = samples[column_index(lx, lz)];
    assert(carved_view(cave_pass(seed, cx, cz, samples, lx, lz), lx as i32, lz as i32, s.height, s.cave@) =~= cave_pass(
        seed,
        cx,
        cz,
        samples,
        lx,
        lz + 1,
    ));
}

proof fn lemma_cave_pass_ends(seed: u32, cx: i32, cz: i32, samples: Seq<ColumnSample>)
    ensures
        cave_pass(seed, cx, cz, samples, 0, 0) == terrain_pass(seed, cx, cz, samples, CHUNK_SIZE as int, 0),
        cave_pass(seed, cx, cz, samples, CHUNK_SIZE as int, 0) == base_view(seed, cx, cz, samples),
        forall|lx: int| #[trigger] cave_pass(seed, cx, cz, samples, lx, CHUNK_SIZE as int) == cave_pass(seed, cx, cz, samples, lx + 1, 0),
{
    assert(cave_pass(seed, cx, cz, samples, 0, 0) =~= terrain_pass(seed, cx, cz, samples, CHUNK_SIZE as int, 0));
    assert(cave_pass(seed, cx, cz, samples, CHUNK_SIZE as int, 0) =~= base_view(seed, cx, cz, samples));
    assert forall|lx: int| #[trigger] cave_pass(seed, cx, cz, samples, lx, CHUNK_SIZE as int) == cave_pass(seed, cx, cz, samples, lx + 1, 0) by {
        assert(cave_pass(seed, cx, cz, samples, lx, CHUNK_SIZE as int) =~= cave_pass(seed, cx, cz, samples, lx + 1, 0));
    }
}

/// Carves the caves of every column of a chunk holding the terrain pass.
fn carve_caves(chunk: &mut Chunk, seed: u32, cx: i32, cz: i32, samples: &Vec<ColumnSample>)
    requires
        samples_ok(seed, cx, cz, samples@),
        old(chunk).wf(),
        old(chunk).view_fn() == terrain_pass(seed, cx, cz, samples@, CHUNK_SIZE as int, 0),
    ensures
        final(chunk).wf(),
        final(chunk).cx == old(chunk).cx,
        final(chunk).cz == old(chunk).cz,
        final(chunk).player_modified == old(chunk).player_modified,
        final(chunk).flags() == old(chunk).flags(),
        final(chunk).view_fn() == base_view(seed, cx, cz, samples@),
{
    let ghost start = *chunk;
    proof {
        lemma_cave_pass_ends(seed, cx, cz, samples@);
    }
    let mut lx: i32 = 0;
    while lx < CHUNK_SIZE
        invariant
            samples_ok(seed, cx, cz, samples@),
            0 <= lx <= CHUNK_SIZE,
            chunk.wf(),
            chunk.cx == start.cx,
            chunk.cz == start.cz,
            chunk.player_modified == start.player_modified,
            chunk.flags() == start.flags(),
            chunk.view_fn() == cave_pass(seed, cx, cz, samples@, lx as int, 0),
            forall|l: int| #[trigger] cave_pass(seed, cx, cz, samples@, l, CHUNK_SIZE as int) == cave_pass(seed, cx, cz, samples@, l + 1, 0),
        decreases CHUNK_SIZE - lx,
    {
        let mut lz: i32 = 0;
        while lz < CHUNK_SIZE
            invariant
                samples_ok(seed, cx, cz, samples@),
                0 <= lx < CHUNK_SIZE,
                0 <= lz <= CHUNK_SIZE,
                chunk.wf(),
                chunk.cx == start.cx,
                chunk.cz == start.cz,
                chunk.player_modified == start.player_modified,
                chunk.flags() == start.flags(),
                chunk.view_fn() == cave_pass(seed, cx, cz, samples@, lx as int, lz as int),
            decreases CHUNK_SIZE - lz,
        {
            let i = (lx * CHUNK_SIZE + lz) as usize;
            let s = &samples[i];
            carve_column(chunk, lx, lz, s.height, s.cave.as_slice());
            proof {
                lemma_cave_pass_step(seed, cx, cz, samples@, lx as int, lz as int);
            }
            lz = lz + 1;
        }
        lx = lx + 1;
    }
}

/// Decorates the 64 inner columns of a chunk, x-major, as the samples
/// describe them.
pub fn generate_chunk_decorations(chunk: &mut Chunk, seed: u32, cx: i32, cz: i32, samples: &Vec<ColumnSample>)
    requires
        samples_ok(seed, cx, cz, samples@),
        old(chunk).wf(),
    ensures
        final(chunk).wf(),
        final(chunk).cx == old(chunk).cx,
        final(chunk).cz == old(chunk).cz,
        final(chunk).player_modified == old(chunk).player_modified,
        final(chunk).flags() == old(chunk).flags(),
        final(chunk).view_fn() == decorated(old(chunk).view_fn(), seed, cx, cz, samples@, 64),
{
    let ghost start = *chunk;
    let base_x = cx * CHUNK_SIZE;
    let base_z = cz * CHUNK_SIZE;
    let margin = DECORATION_MARGIN;
    let mut lx: i32 = margin;
    while lx < CHUNK_SIZE - margin
        invariant
            samples_ok(seed, cx, cz, samples@),
            margin == DECORATION_MARGIN,
            base_x == cx * CHUNK_SIZE,
            base_z == cz * CHUNK_SIZE,
            margin <= lx <= CHUNK_SIZE - margin,
            chunk.wf(),
            chunk.cx == start.cx,
            chunk.cz == start.cz,
            chunk.player_modified == start.player_modified,
            chunk.flags() == start.flags(),
            chunk.view_fn() == decorated(start.view_fn(), seed, cx, cz, samples@, ((lx - margin) * 8) as nat),
        decreases CHUNK_SIZE - margin - lx,
    {
        let mut lz: i32 = margin;
        while lz < CHUNK_SIZE - margin
            invariant
                samples_ok(seed, cx, cz, samples@),
                margin == DECORATION_MARGIN,
                base_x == cx * CHUNK_SIZE,
                base_z == cz * CHUNK_SIZE,
                margin <= lx < CHUNK_SIZE - margin,
                margin <= lz <= CHUNK_SIZE - margin,
                chunk.wf(),
                chunk.cx == start.cx,
                chunk.cz == start.cz,
                chunk.player_modified == start.player_modified,
                chunk.flags() == start.flags(),
                chunk.view_fn() == decorated(start.view_fn(), seed, cx, cz, samples@, ((lx - margin) * 8 + (lz - margin)) as nat),
            decreases CHUNK_SIZE - margin - lz,
        {
            let ghost k: int = (lx - margin) * 8 + (lz - margin);
            assert(decoration_x(k) == lx && decoration_z(k) == lz);
            let i = (lx * CHUNK_SIZE + lz) as usize;
            let s = &samples[i];
            assert(decoration_in_range(seed, decoration_x(k) as i32, decoration_z(k) as i32, samples@[column_index(decoration_x(k), decoration_z(k))]));
            decorate_column(chunk, seed, lx, lz, base_x + lx, base_z + lz, s);
            lz = lz + 1;
        }
        lx = lx + 1;
    }
}

/// Generates chunk `(cx, cz)` of the world of seed `seed` from the noise
/// samples of its 256 columns (`samples[lx * 16 + lz]`): the terrain pass,
/// cave carving, decorations, and the emptiness of each subchunk.
pub fn generate_chunk(seed: u32, cx: i32, cz: i32, samples: &Vec<ColumnSample>) -> (c: Chunk)
    requires
        samples_ok(seed, cx, cz, samples@),
    ensures
        c.wf(),
        c.cx == cx,
        c.cz == cz,
        !c.player_modified,
        c.view_fn() == generated_view(seed, cx, cz, samples@),
        forall|s: int|
            0 <= s < NUM_SUBCHUNKS ==> (#[trigger] c.subchunks@[s]).is_empty == c.subchunks@[s].all_air()
                && !c.subchunks@[s].is_fully_opaque,
{
    let mut chunk = build_terrain(seed, cx, cz, samples);
    carve_caves(&mut chunk, seed, cx, cz, samples);
    generate_chunk_decorations(&mut chunk, seed, cx, cz, samples);
    let ghost before = chunk;
    chunk.check_empty_subchunks();
    assert forall|s: int| 0 <= s < NUM_SUBCHUNKS implies !(#[trigger] chunk.subchunks@[s]).is_fully_opaque by {
        assert(before.flags()[s].1 == before.subchunks@[s].is_fully_opaque);
    }
    chunk
}

/// Determinism law of generation: two chunks generated for the same seed,
/// coordinates and noise samples hold the same blocks.
pub proof fn lemma_generation_deterministic(c1: Chunk, c2: Chunk, seed: u32, cx: i32, cz: i32, samples: Seq<ColumnSample>)
    requires
        c1.view_fn() == generated_view(seed, cx, cz, samples),
        c2.view_fn() == generated_view(seed, cx, cz, samples),
    ensures
        forall|a: int, b: int, c: int| #[trigger] c1.block(a, b, c) == c2.block(a, b, c),
{
    let v1 = c1.view_fn();
    let v2 = c2.view_fn();
    assert(v1 == v2);
    assert forall|a: int, b: int, c: int| #[trigger] c1.block(a, b, c) == c2.block(a, b, c) by {
        assert(v1(a, b, c) == v2(a, b, c));
        assert(v1(a, b, c) == c1.block(a, b, c));
        assert(v2(a, b, c) == c2.block(a, b, c));
    }
}

/// Sea law of the terrain pass: in a biome without overhangs whose surface
/// lies below sea level, every height from the surface up to sea level is
/// water, but the top layer in tundra, which is ice.
pub proof fn lemma_open_water_below_sea_level(seed: u32, biome: Biome, surface_height: i32, world_x: i32, world_z: i32, dense: Seq<bool>, y: int)
    requires
        biome != Biome::Mountains && biome != Biome::Island,
        0 <= surface_height <= y < SEA_LEVEL,
    ensures
        terrain_block(seed, biome, surface_height, world_x, world_z, dense, y) == Some(
            if biome == Biome::Tundra && y == SEA_LEVEL - 1 {
                BlockType::Ice
            } else {
                BlockType::Water
            },
        ),
{
}

/// Decoration law: columns whose surface lies below sea level are left
/// alone; elsewhere a tree, when the biome has trees, its roll says so and
/// it fits, stands with its trunk on the surface block; in deserts a cactus
/// roll puts a cactus and a dead-bush roll a dead bush on the surface; no
/// other biome gets either, and without a tree no wood is added.
pub proof fn lemma_decoration(
    v: spec_fn(int, int, int) -> BlockType,
    seed: u32,
    lx: i32,
    lz: i32,
    world_x: i32,
    world_z: i32,
    s: ColumnSample,
    a: int,
    b: int,
    c: int,
)
    ensures
        ({
            let d = decorate_view(v, seed, lx, lz, world_x, world_z, s);
            let h = s.height as int;
            let large = tree_is_large(seed, world_x, world_z);
            &&& s.height < SEA_LEVEL ==> d == v
            &&& s.height >= SEA_LEVEL && spec_has_trees(s.biome) && s.tree_roll && tree_fits(v, lx as int, h, lz as int, large)
                && s.biome != Biome::Desert && in_column(lx as int, h, lz as int) ==> d(lx as int, h, lz as int) == BlockType::Wood
            &&& s.height >= SEA_LEVEL && s.biome == Biome::Desert && s.cactus == CactusRoll::Cactus
                && in_column(lx as int, h, lz as int) ==> d(lx as int, h, lz as int) == BlockType::Cactus
            &&& s.height >= SEA_LEVEL && s.biome == Biome::Desert && s.cactus == CactusRoll::DeadBush
                && in_column(lx as int, h, lz as int) ==> d(lx as int, h, lz as int) == BlockType::DeadBush
            &&& s.biome != Biome::Desert && d(a, b, c) != v(a, b, c) ==> d(a, b, c) != BlockType::Cactus && d(a, b, c)
                != BlockType::DeadBush
            &&& !(spec_has_trees(s.biome) && s.tree_roll) && d(a, b, c) == BlockType::Wood ==> v(a, b, c) == BlockType::Wood
        }),
{
}

} // verus!
