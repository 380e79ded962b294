use vstd::prelude::*;
use crate::block::{bottom_layer, layer_of, renders_against, BlockType};
use crate::constants::{CHUNK_SIZE, NUM_SUBCHUNKS, SUBCHUNK_HEIGHT, SUBCHUNK_VOLUME};
use crate::chunk::Chunk;
use crate::world::{world_block, World};

verus! {

/// One visible face of a block: the block's world position, the side it
/// faces (0: -x, 1: +x, 2: -y, 3: +y, 4: -z, 5: +z) and its texture layer.
#[derive(Debug, Clone, Copy, PartialEq, Eq, Structural)]
pub struct Face {
    pub x: i32,
    pub y: i32,
    pub z: i32,
    pub dir: u8,
    pub tex: u32,
}

/// Faces examined per subchunk: six for each of its blocks.
pub const SUBCHUNK_FACES: usize = 24576;

/// Step along x towards the neighbour on side `d`.
pub open spec fn dir_dx(d: int) -> int {
    if d == 0 { -1 } else if d == 1 { 1 } else { 0 }
}

/// Step along y towards the neighbour on side `d`.
pub open spec fn dir_dy(d: int) -> int {
    if d == 2 { -1 } else if d == 3 { 1 } else { 0 }
}

/// Step along z towards the neighbour on side `d`.
pub open spec fn dir_dz(d: int) -> int {
    if d == 4 { -1 } else if d == 5 { 1 } else { 0 }
}

/// The texture layer of side `d` of a block of kind `b`: the bottom layer
/// on the bottom face, the block's own layer on the top and the sides.
pub open spec fn face_layer(b: BlockType, d: int) -> u32 {
    if d == 2 { bottom_layer(b) } else { layer_of(b) }
}

/// The block at world position `(x, y, z)` of the loaded chunks `m`, as
/// `world_block` gives it; kept folded where only its identity matters.
#[verifier::opaque]
pub open spec fn block_at(m: Map<u64, Chunk>, x: int, y: int, z: int) -> BlockType {
    world_block(m, x, y, z)
}

/// Face `i` examined in subchunk `sy` of chunk `(cx, cz)`: side `i % 6` of
/// block `i / 6`, the blocks taken with `lx` slowest, then `ly`, then `lz`.
#[verifier::opaque]
pub open spec fn candidate(m: Map<u64, Chunk>, cx: i32, cz: i32, sy: int, i: int) -> Face {
    let k = i / 6;
    let d = i % 6;
    let x = cx * CHUNK_SIZE + k / 256;
    let y = sy * SUBCHUNK_HEIGHT + (k / 16) % 16;
    let z = cz * CHUNK_SIZE + k % 16;
    Face { x: x as i32, y: y as i32, z: z as i32, dir: d as u8, tex: face_layer(block_at(m, x, y, z), d) }
}

/// Face `f` is drawn into the water list (`water`) or into the solid list:
/// its block is water, or neither air nor water, and the block it faces
/// lets it be seen.
pub open spec fn emits(m: Map<u64, Chunk>, f: Face, water: bool) -> bool {
    let b = block_at(m, f.x as int, f.y as int, f.z as int);
    let n = block_at(m, f.x + dir_dx(f.dir as int), f.y + dir_dy(f.dir as int), f.z + dir_dz(f.dir as int));
    &&& if water { b == BlockType::Water } else { b != BlockType::Air && b != BlockType::Water }
    &&& renders_against(b, n)
}

/// The faces drawn among the first `n` examined, in order.
pub open spec fn faces_upto(m: Map<u64, Chunk>, cx: i32, cz: i32, sy: int, water: bool, n: nat) -> Seq<Face>
    decreases n,
{
    if n == 0 {
        Seq::empty()
    } else {
        let before = faces_upto(m, cx, cz, sy, water, (n - 1) as nat);
        let f = candidate(m, cx, cz, sy, n - 1);
        if emits(m, f, water) { before.push(f) } else { before }
    }
}

/// Every drawn face of subchunk `sy` of chunk `(cx, cz)`, in examination order.
pub open spec fn subchunk_face_list(m: Map<u64, Chunk>, cx: i32, cz: i32, sy: int, water: bool) -> Seq<Face> {
    faces_upto(m, cx, cz, sy, water, SUBCHUNK_FACES as nat)
}

/// Chunk coordinate `c` is far enough from the ends of `i32` for every block
/// of the chunk and its neighbours to have `i32` world coordinates.
pub open spec fn chunk_coord_ok(c: i32) -> bool {
    -134_217_726 <= c <= 134_217_726
}

proof fn lemma_candidate(m: Map<u64, Chunk>, cx: i32, cz: i32, sy: int, k: int, d: int)
    requires
        0 <= k < SUBCHUNK_VOLUME,
        0 <= d < 6,
        0 <= sy < NUM_SUBCHUNKS,
        chunk_coord_ok(cx),
        chunk_coord_ok(cz),
    ensures
        ({
            let f = candidate(m, cx, cz, sy, 6 * k + d);
            &&& f.x == cx * CHUNK_SIZE + k / 256
            &&& f.y == sy * SUBCHUNK_HEIGHT + (k / 16) % 16
            &&& f.z == cz * CHUNK_SIZE + k % 16
            &&& f.dir == d
            &&& f.tex == face_layer(block_at(m, f.x as int, f.y as int, f.z as int), d)
        }),
        0 <= k / 256 < 16,
{
    reveal(candidate);
    vstd::arithmetic::div_mod::lemma_fundamental_div_mod_converse(6 * k + d, 6, k, d);
    assert(0 <= k / 256 < 16) by (nonlinear_arith)
        requires
            0 <= k < 4096,
    ;
}

/// The texture layer of side `d` of a block of kind `b`.
pub fn face_tex(b: BlockType, d: u8) -> (t: u32)
    ensures
        t == face_layer(b, d as int),
{
    if d == 2 {
        b.tex_bottom()
    } else if d == 3 {
        b.tex_top()
    } else {
        b.tex_side()
    }
}

/// Face law: side 0 faces -x, 1 faces +x, 2 faces down, 3 faces up, 4 faces
/// -z and 5 faces +z; a face is drawn only for a block that is not air,
/// into the water list exactly for water, and only against a neighbour
/// that can be seen through and is of another kind; the bottom of grass
/// shows dirt, every other face shows the block's own layer.
pub proof fn lemma_face_rules(m: Map<u64, Chunk>, f: Face, water: bool, b: BlockType, d: int)
    ensures
        dir_dx(0) == -1 && dir_dx(1) == 1 && dir_dy(2) == -1 && dir_dy(3) == 1 && dir_dz(4) == -1 && dir_dz(5) == 1,
        (d != 0 && d != 1 ==> dir_dx(d) == 0) && (d != 2 && d != 3 ==> dir_dy(d) == 0) && (d != 4 && d != 5 ==> dir_dz(d)
            == 0),
        face_layer(BlockType::Grass, 2) == layer_of(BlockType::Dirt),
        d != 2 ==> face_layer(b, d) == layer_of(b),
        b != BlockType::Grass ==> face_layer(b, d) == layer_of(b),
        emits(m, f, water) ==> ({
            let k = block_at(m, f.x as int, f.y as int, f.z as int);
            let n = block_at(
                m,
                f.x + dir_dx(f.dir as int),
                f.y + dir_dy(f.dir as int),
                f.z + dir_dz(f.dir as int),
            );
            &&& k != BlockType::Air
            &&& (k == BlockType::Water) == water
            &&& crate::block::see_through(n)
            &&& n != k
        }),
{
}

/// Appends to `solid` and `water` the drawn faces of block `k` of subchunk
/// `subchunk_y` of chunk `(chunk_x, chunk_z)`, side by side.
fn push_block_faces(
    world: &World,
    chunk_x: i32,
    chunk_z: i32,
    subchunk_y: i32,
    k: usize,
    solid: &mut Vec<Face>,
    water: &mut Vec<Face>,
)
    requires
        world.wf(),
        0 <= subchunk_y < NUM_SUBCHUNKS,
        chunk_coord_ok(chunk_x),
        chunk_coord_ok(chunk_z),
        k < SUBCHUNK_VOLUME,
        old(solid)@ == faces_upto(world.chunks@, chunk_x, chunk_z, subchunk_y as int, false, (6 * k) as nat),
        old(water)@ == faces_upto(world.chunks@, chunk_x, chunk_z, subchunk_y as int, true, (6 * k) as nat),
    ensures
        final(solid)@ == faces_upto(world.chunks@, chunk_x, chunk_z, subchunk_y as int, false, (6 * k + 6) as nat),
        final(water)@ == faces_upto(world.chunks@, chunk_x, chunk_z, subchunk_y as int, true, (6 * k + 6) as nat),
{
    let ghost m = world.chunks@;
    let ghost sy = subchunk_y as int;
    proof {
        lemma_candidate(m, chunk_x, chunk_z, sy, k as int, 0);
        assert(0 <= (k / 16) % 16 < 16 && 0 <= k % 16 < 16);
    }
    let x = chunk_x * CHUNK_SIZE + (k / 256) as i32;
    let y = subchunk_y * SUBCHUNK_HEIGHT + ((k / 16) % 16) as i32;
    let z = chunk_z * CHUNK_SIZE + (k % 16) as i32;
    let block = world.get_block(x, y, z);
    assert(block == block_at(m, x as int, y as int, z as int)) by {
        reveal(block_at);
    }
    let mut d: u8 = 0;
    while d < 6
        invariant
            world.wf(),
            m == world.chunks@,
            sy == subchunk_y,
            0 <= subchunk_y < NUM_SUBCHUNKS,
            chunk_coord_ok(chunk_x),
            chunk_coord_ok(chunk_z),
            k < SUBCHUNK_VOLUME,
            x == chunk_x * CHUNK_SIZE + k / 256,
            y == subchunk_y * SUBCHUNK_HEIGHT + (k / 16) % 16,
            z == chunk_z * CHUNK_SIZE + k % 16,
            i32::MIN + 32 <= x <= i32::MAX - 16,
            i32::MIN + 32 <= z <= i32::MAX - 16,
            0 <= y < 256,
            block == block_at(m, x as int, y as int, z as int),
            d <= 6,
            solid@ == faces_upto(m, chunk_x, chunk_z, sy, false, (6 * k + d) as nat),
            water@ == faces_upto(m, chunk_x, chunk_z, sy, true, (6 * k + d) as nat),
        decreases 6 - d,
    {
        proof {
            lemma_candidate(m, chunk_x, chunk_z, sy, k as int, d as int);
        }
        let ghost f = candidate(m, chunk_x, chunk_z, sy, 6 * k + d);
        let ghost n = (6 * k + d) as nat;
        assert(f.x == x && f.y == y && f.z == z && f.dir == d);
        if block != BlockType::Air {
            let nx = if d == 0 { x - 1 } else if d == 1 { x + 1 } else { x };
            let ny = if d == 2 { y - 1 } else if d == 3 { y + 1 } else { y };
            let nz = if d == 4 { z - 1 } else if d == 5 { z + 1 } else { z };
            let neighbour = world.get_block(nx, ny, nz);
            assert(neighbour == block_at(m, f.x + dir_dx(f.dir as int), f.y + dir_dy(f.dir as int), f.z + dir_dz(f.dir as int))) by {
                reveal(block_at);
            }
            if block.should_render_face_against(neighbour) {
                let face = Face { x, y, z, dir: d, tex: face_tex(block, d) };
                assert(face == f);
                if block == BlockType::Water {
                    water.push(face);
                } else {
                    solid.push(face);
                }
            }
        }
        assert(solid@ == faces_upto(m, chunk_x, chunk_z, sy, false, n + 1));
        assert(water@ == faces_upto(m, chunk_x, chunk_z, sy, true, n + 1));
        d = d + 1;
    }
}

/// The faces of subchunk `subchunk_y` of chunk `(chunk_x, chunk_z)` that can
/// be seen: those of solid blocks first, those of water blocks second, each
/// list in the order the blocks and their sides are examined. Neighbours
/// are looked up in the loaded chunks; blocks of chunks not loaded, and
/// above or below the world, count as air.
pub fn subchunk_faces(world: &World, chunk_x: i32, chunk_z: i32, subchunk_y: i32) -> (r: (Vec<Face>, Vec<Face>))
    requires
        world.wf(),
        0 <= subchunk_y < NUM_SUBCHUNKS,
        chunk_coord_ok(chunk_x),
        chunk_coord_ok(chunk_z),
    ensures
        r.0@ == subchunk_face_list(world.chunks@, chunk_x, chunk_z, subchunk_y as int, false),
        r.1@ == subchunk_face_list(world.chunks@, chunk_x, chunk_z, subchunk_y as int, true),
{
    let mut solid: Vec<Face> = Vec::new();
    let mut water: Vec<Face> = Vec::new();
    let mut k: usize = 0;
    while k < SUBCHUNK_VOLUME
        invariant
            world.wf(),
            0 <= subchunk_y < NUM_SUBCHUNKS,
            chunk_coord_ok(chunk_x),
            chunk_coord_ok(chunk_z),
            k <= SUBCHUNK_VOLUME,
            solid@ == faces_upto(world.chunks@, chunk_x, chunk_z, subchunk_y as int, false, (6 * k) as nat),
            water@ == faces_upto(world.chunks@, chunk_x, chunk_z, subchunk_y as int, true, (6 * k) as nat),
        decreases SUBCHUNK_VOLUME - k,
    {
        push_block_faces(world, chunk_x, chunk_z, subchunk_y, k, &mut solid, &mut water);
        k = k + 1;
    }
    (solid, water)
}

} // verus!
