use vstd::prelude::*;
use crate::biome::Biome;
use crate::block::BlockType;
use crate::chunk::{in_column, Chunk};
use crate::constants::CHUNK_SIZE;

verus! {

/// Blocks a tree can grow from.
pub open spec fn valid_tree_ground(b: BlockType) -> bool {
    b == BlockType::Grass || b == BlockType::Dirt
}

/// Blocks next to a tree's root that keep it from growing.
pub open spec fn blocks_tree_root(b: BlockType) -> bool {
    b == BlockType::Stone || b == BlockType::Gravel || b == BlockType::Sand || b == BlockType::Water
        || b == BlockType::Ice
}

/// Whether a tree can grow from `block`.
pub fn is_valid_tree_ground(block: BlockType) -> (r: bool)
    ensures
        r == valid_tree_ground(block),
{
    matches!(block, BlockType::Grass | BlockType::Dirt)
}

/// The test that `box_all` applies to each block of a box.
pub enum BlockCheck {
    NotWood,
    TreeGround,
    NotRootBlocker,
}

/// The test `check` on block `b`.
pub open spec fn passes(check: BlockCheck, b: BlockType) -> bool {
    match check {
        BlockCheck::NotWood => b != BlockType::Wood,
        BlockCheck::TreeGround => valid_tree_ground(b),
        BlockCheck::NotRootBlocker => !blocks_tree_root(b),
    }
}

/// `(a, b, c)` lies in the box `[x0, x1] × [y0, y1] × [z0, z1]`.
pub open spec fn in_box(a: int, b: int, c: int, x0: int, x1: int, y0: int, y1: int, z0: int, z1: int) -> bool {
    x0 <= a <= x1 && y0 <= b <= y1 && z0 <= c <= z1
}

/// Every block of the box in the column `v` passes `check`.
pub open spec fn box_passes(
    v: spec_fn(int, int, int) -> BlockType,
    check: BlockCheck,
    x0: int,
    x1: int,
    y0: int,
    y1: int,
    z0: int,
    z1: int,
) -> bool {
    forall|a: int, b: int, c: int| in_box(a, b, c, x0, x1, y0, y1, z0, z1) ==> passes(check, #[trigger] v(a, b, c))
}

fn check_block(check: &BlockCheck, b: BlockType) -> (r: bool)
    ensures
        r == passes(*check, b),
{
    match check {
        BlockCheck::NotWood => !matches!(b, BlockType::Wood),
        BlockCheck::TreeGround => matches!(b, BlockType::Grass | BlockType::Dirt),
        BlockCheck::NotRootBlocker => !matches!(
            b,
            BlockType::Stone | BlockType::Gravel | BlockType::Sand | BlockType::Water | BlockType::Ice
        ),
    }
}

/// Whether every block of the box `[x0, x1] × [y0, y1] × [z0, z1]` passes `check`.
fn box_all(ch: &Chunk, check: BlockCheck, x0: i32, x1: i32, y0: i32, y1: i32, z0: i32, z1: i32) -> (r: bool)
    requires
        ch.wf(),
    ensures
        r == box_passes(ch.view_fn(), check, x0 as int, x1 as int, y0 as int, y1 as int, z0 as int, z1 as int),
{
    let mut a: i64 = x0 as i64;
    while a <= x1 as i64
        invariant
            ch.wf(),
            x0 <= a <= x1 + 1 || (a == x0 && x0 > x1),
            forall|p: int, q: int, s: int|
                in_box(p, q, s, x0 as int, a - 1, y0 as int, y1 as int, z0 as int, z1 as int) ==> passes(
                    check,
                    #[trigger] ch.block(p, q, s),
                ),
        decreases x1 - a + 1,
    {
        let mut b: i64 = y0 as i64;
        while b <= y1 as i64
            invariant
                ch.wf(),
                x0 <= a <= x1,
                y0 <= b <= y1 + 1 || (b == y0 && y0 > y1),
                forall|p: int, q: int, s: int|
                    in_box(p, q, s, x0 as int, a - 1, y0 as int, y1 as int, z0 as int, z1 as int) ==> passes(
                        check,
                        #[trigger] ch.block(p, q, s),
                    ),
                forall|q: int, s: int|
                    y0 <= q < b && z0 <= s <= z1 ==> passes(check, #[trigger] ch.block(a as int, q, s)),
            decreases y1 - b + 1,
        {
            let mut c: i64 = z0 as i64;
            while c <= z1 as i64
                invariant
                    ch.wf(),
                    x0 <= a <= x1,
                    y0 <= b <= y1,
                    z0 <= c <= z1 + 1 || (c == z0 && z0 > z1),
                    forall|p: int, q: int, s: int|
                        in_box(p, q, s, x0 as int, a - 1, y0 as int, y1 as int, z0 as int, z1 as int) ==> passes(
                            check,
                            #[trigger] ch.block(p, q, s),
                        ),
                    forall|q: int, s: int|
                        y0 <= q < b && z0 <= s <= z1 ==> passes(check, #[trigger] ch.block(a as int, q, s)),
                    forall|s: int| z0 <= s < c ==> passes(check, #[trigger] ch.block(a as int, b as int, s)),
                decreases z1 - c + 1,
            {
                let blk = ch.get_block(a as i32, b as i32, c as i32);
                if !check_block(&check, blk) {
                    assert(in_box(a as int, b as int, c as int, x0 as int, x1 as int, y0 as int, y1 as int, z0 as int, z1 as int));
                    assert(ch.view_fn()(a as int, b as int, c as int) == blk);
                    return false;
                }
                c = c + 1;
            }
            b = b + 1;
        }
        a = a + 1;
    }
    true
}

/// The conditions for a tree on the block above `(lx, y - 1, lz)`: no wood
/// within `5` (large) or `3` (small) blocks sideways, from one block below to
/// eight above; grass or dirt under the trunk (a large trunk is 2 × 2 and
/// lies wholly in the chunk); and no stone, gravel, sand, water or ice next
/// to the trunk's ground.
pub open spec fn tree_fits(v: spec_fn(int, int, int) -> BlockType, lx: int, y: int, lz: int, is_large: bool) -> bool {
    let d: int = if is_large { 5 } else { 3 };
    &&& box_passes(v, BlockCheck::NotWood, lx - d, lx + d, y - 1, y + 8, lz - d, lz + d)
    &&& if is_large {
        &&& 0 <= lx && lx + 1 < CHUNK_SIZE && 0 <= lz && lz + 1 < CHUNK_SIZE
        &&& box_passes(v, BlockCheck::TreeGround, lx, lx + 1, y - 1, y - 1, lz, lz + 1)
        &&& box_passes(v, BlockCheck::NotRootBlocker, lx - 1, lx + 2, y - 1, y - 1, lz - 1, lz + 2)
    } else {
        &&& valid_tree_ground(v(lx, y - 1, lz))
        &&& box_passes(v, BlockCheck::NotRootBlocker, lx - 1, lx + 1, y - 1, y - 1, lz - 1, lz + 1)
    }
}

/// Whether a tree (large or small) can grow at `(lx, y, lz)` of `chunk`.
pub fn can_place_tree(chunk: &Chunk, lx: i32, y: i32, lz: i32, is_large: bool) -> (r: bool)
    requires
        chunk.wf(),
        i32::MIN + 5 <= lx <= i32::MAX - 5,
        i32::MIN + 5 <= lz <= i32::MAX - 5,
        i32::MIN + 1 <= y <= i32::MAX - 8,
    ensures
        r == tree_fits(chunk.view_fn(), lx as int, y as int, lz as int, is_large),
{
    let d: i32 = if is_large { 5 } else { 3 };
    if !box_all(chunk, BlockCheck::NotWood, lx - d, lx + d, y - 1, y + 8, lz - d, lz + d) {
        return false;
    }
    if is_large {
        if lx < 0 || lx + 1 >= CHUNK_SIZE || lz < 0 || lz + 1 >= CHUNK_SIZE {
            return false;
        }
        box_all(chunk, BlockCheck::TreeGround, lx, lx + 1, y - 1, y - 1, lz, lz + 1)
            && box_all(chunk, BlockCheck::NotRootBlocker, lx - 1, lx + 2, y - 1, y - 1, lz - 1, lz + 2)
    } else {
        let ground = chunk.get_block(lx, y - 1, lz);
        is_valid_tree_ground(ground)
            && box_all(chunk, BlockCheck::NotRootBlocker, lx - 1, lx + 1, y - 1, y - 1, lz - 1, lz + 1)
    }
}

/// The leaf crown of a tree: centred above the trunk at height `cy`.
#[derive(Clone, Copy)]
pub struct CrownShape {
    pub large: bool,
    pub tundra: bool,
    pub lx: i32,
    pub cy: i32,
    pub lz: i32,
}

/// `(a, b, c)` is within the crown's radius of its centre. A large crown is
/// centred between the four trunk columns, one block above `cy`, with radius
/// 4 (3 in tundra); distances are compared squared and doubled, so the test
/// is exact in integers. A small crown is centred one block above `cy` on the
/// trunk column, with radius 2.5 (2 in tundra), and leaves the trunk column
/// below `cy` out.
pub open spec fn in_crown(s: CrownShape, a: int, b: int, c: int) -> bool {
    let dx = a - s.lx;
    let dy = b - s.cy;
    let dz = c - s.lz;
    if s.large {
        &&& -5 <= dx <= 5 && -2 <= dy <= 5 && -5 <= dz <= 5
        &&& (2 * dx - 1) * (2 * dx - 1) + 4 * ((dy - 1) * (dy - 1)) + (2 * dz - 1) * (2 * dz - 1) <= if s.tundra {
            36int
        } else {
            64int
        }
    } else {
        &&& -3 <= dx <= 3 && -1 <= dy <= 3 && -3 <= dz <= 3
        &&& !(dx == 0 && dz == 0 && dy < 0)
        &&& dx * dx + (dy - 1) * (dy - 1) + dz * dz <= if s.tundra {
            4int
        } else {
            6int
        }
    }
}

fn crown_contains(s: &CrownShape, a: i32, b: i32, c: i32) -> (r: bool)
    requires
        i32::MIN / 2 <= a - s.lx <= i32::MAX / 2,
        i32::MIN / 2 <= b - s.cy <= i32::MAX / 2,
        i32::MIN / 2 <= c - s.lz <= i32::MAX / 2,
    ensures
        r == in_crown(*s, a as int, b as int, c as int),
{
    let dx = a as i64 - s.lx as i64;
    let dy = b as i64 - s.cy as i64;
    let dz = c as i64 - s.lz as i64;
    if s.large {
        if !(-5 <= dx && dx <= 5 && -2 <= dy && dy <= 5 && -5 <= dz && dz <= 5) {
            return false;
        }
        let ex = 2 * dx - 1;
        let ey = dy - 1;
        let ez = 2 * dz - 1;
        assert(0 <= ex * ex <= 121 && 0 <= ey * ey <= 49 && 0 <= ez * ez <= 121) by (nonlinear_arith)
            requires
                -11 <= ex <= 9,
                -3 <= ey <= 4,
                -11 <= ez <= 9,
        ;
        let limit: i64 = if s.tundra { 36 } else { 64 };
        ex * ex + 4 * (ey * ey) + ez * ez <= limit
    } else {
        if !(-3 <= dx && dx <= 3 && -1 <= dy && dy <= 3 && -3 <= dz && dz <= 3) {
            return false;
        }
        if dx == 0 && dz == 0 && dy < 0 {
            return false;
        }
        let ey = dy - 1;
        assert(0 <= dx * dx <= 9 && 0 <= ey * ey <= 4 && 0 <= dz * dz <= 9) by (nonlinear_arith)
            requires
                -3 <= dx <= 3,
                -2 <= ey <= 2,
                -3 <= dz <= 3,
        ;
        let limit: i64 = if s.tundra { 4 } else { 6 };
        dx * dx + ey * ey + dz * dz <= limit
    }
}

/// What a fill writes: one block everywhere, or leaves on the air of a crown.
#[derive(Clone, Copy)]
pub enum Fill {
    Solid(BlockType),
    Crown(CrownShape),
}

/// The block at `(a, b, c)` after the fill `f` visits it, where it was `old`.
pub open spec fn fill_result(f: Fill, old: BlockType, a: int, b: int, c: int) -> BlockType {
    match f {
        Fill::Solid(k) => k,
        Fill::Crown(s) => if in_crown(s, a, b, c) && old == BlockType::Air {
            BlockType::Leaves
        } else {
            old
        },
    }
}

/// `after` is `before` with the fill `f` applied to the part of the box
/// `[x0, x1] × [y0, y1] × [z0, z1]` that lies in the column.
pub open spec fn filled(before: Chunk, after: Chunk, f: Fill, x0: int, x1: int, y0: int, y1: int, z0: int, z1: int) -> bool {
    forall|a: int, b: int, c: int| #[trigger] after.block(a, b, c) == if in_column(a, b, c) && in_box(a, b, c, x0, x1, y0, y1, z0, z1) {
        fill_result(f, before.block(a, b, c), a, b, c)
    } else {
        before.block(a, b, c)
    }
}

/// Applies the fill `f` to every block of the box `[x0, x1] × [y0, y1] × [z0, z1]`.
fn fill_box(ch: &mut Chunk, f: Fill, x0: i32, x1: i32, y0: i32, y1: i32, z0: i32, z1: i32)
    requires
        old(ch).wf(),
        f matches Fill::Crown(s) ==> {
            &&& i32::MIN / 2 <= x0 - s.lx && x1 - s.lx <= i32::MAX / 2
            &&& i32::MIN / 2 <= y0 - s.cy && y1 - s.cy <= i32::MAX / 2
            &&& i32::MIN / 2 <= z0 - s.lz && z1 - s.lz <= i32::MAX / 2
        },
    ensures
        final(ch).wf(),
        final(ch).cx == old(ch).cx,
        final(ch).cz == old(ch).cz,
        final(ch).player_modified == old(ch).player_modified,
        final(ch).flags() == old(ch).flags(),
        filled(*old(ch), *final(ch), f, x0 as int, x1 as int, y0 as int, y1 as int, z0 as int, z1 as int),
{
    let ghost start = *ch;
    let mut a: i64 = x0 as i64;
    while a <= x1 as i64
        invariant
            ch.wf(),
            ch.cx == start.cx,
            ch.cz == start.cz,
            ch.player_modified == start.player_modified,
            ch.flags() == start.flags(),
            f matches Fill::Crown(s) ==> {
                &&& i32::MIN / 2 <= x0 - s.lx && x1 - s.lx <= i32::MAX / 2
                &&& i32::MIN / 2 <= y0 - s.cy && y1 - s.cy <= i32::MAX / 2
                &&& i32::MIN / 2 <= z0 - s.lz && z1 - s.lz <= i32::MAX / 2
            },
            x0 <= a <= x1 + 1 || (a == x0 && x0 > x1),
            filled(start, *ch, f, x0 as int, a - 1, y0 as int, y1 as int, z0 as int, z1 as int),
        decreases x1 - a + 1,
    {
        let mut b: i64 = y0 as i64;
        while b <= y1 as i64
            invariant
                ch.wf(),
                ch.cx == start.cx,
                ch.cz == start.cz,
                ch.player_modified == start.player_modified,
                ch.flags() == start.flags(),
                f matches Fill::Crown(s) ==> {
                    &&& i32::MIN / 2 <= x0 - s.lx && x1 - s.lx <= i32::MAX / 2
                    &&& i32::MIN / 2 <= y0 - s.cy && y1 - s.cy <= i32::MAX / 2
                    &&& i32::MIN / 2 <= z0 - s.lz && z1 - s.lz <= i32::MAX / 2
                },
                x0 <= a <= x1,
                y0 <= b <= y1 + 1 || (b == y0 && y0 > y1),
                forall|p: int, q: int, r: int| #[trigger] ch.block(p, q, r) == if in_column(p, q, r) && (
                in_box(p, q, r, x0 as int, a - 1, y0 as int, y1 as int, z0 as int, z1 as int) || (p == a && y0
                    <= q < b && z0 <= r <= z1)) {
                    fill_result(f, start.block(p, q, r), p, q, r)
                } else {
                    start.block(p, q, r)
                },
            decreases y1 - b + 1,
        {
            let mut c: i64 = z0 as i64;
            while c <= z1 as i64
                invariant
                    ch.wf(),
                    ch.cx == start.cx,
                    ch.cz == start.cz,
                    ch.player_modified == start.player_modified,
                    ch.flags() == start.flags(),
                    f matches Fill::Crown(s) ==> {
                        &&& i32::MIN / 2 <= x0 - s.lx && x1 - s.lx <= i32::MAX / 2
                        &&& i32::MIN / 2 <= y0 - s.cy && y1 - s.cy <= i32::MAX / 2
                        &&& i32::MIN / 2 <= z0 - s.lz && z1 - s.lz <= i32::MAX / 2
                    },
                    x0 <= a <= x1,
                    y0 <= b <= y1,
                    z0 <= c <= z1 + 1 || (c == z0 && z0 > z1),
                    forall|p: int, q: int, r: int| #[trigger] ch.block(p, q, r) == if in_column(p, q, r) && (
                    in_box(p, q, r, x0 as int, a - 1, y0 as int, y1 as int, z0 as int, z1 as int) || (p == a
                        && y0 <= q < b && z0 <= r <= z1) || (p == a && q == b && z0 <= r < c)) {
                        fill_result(f, start.block(p, q, r), p, q, r)
                    } else {
                        start.block(p, q, r)
                    },
                decreases z1 - c + 1,
            {
                let ai = a as i32;
                let bi = b as i32;
                let ci = c as i32;
                match f {
                    Fill::Solid(k) => {
                        ch.set_block(ai, bi, ci, k);
                    },
                    Fill::Crown(s) => {
                        if crown_contains(&s, ai, bi, ci) {
                            let cur = ch.get_block(ai, bi, ci);
                            if matches!(cur, BlockType::Air) {
                                ch.set_block(ai, bi, ci, BlockType::Leaves);
                            }
                        }
                    },
                }
                c = c + 1;
            }
            b = b + 1;
        }
        a = a + 1;
    }
}

/// Trunk height: 6 in forests, 7 in swamps, 4 in tundra, 5 elsewhere; two
/// more for a large tree.
pub open spec fn trunk_height(biome: Biome, is_large: bool) -> int {
    let base: int = match biome {
        Biome::Forest => 6,
        Biome::Swamp => 7,
        Biome::Tundra => 4,
        _ => 5,
    };
    if is_large {
        base + 2
    } else {
        base
    }
}

/// How far a crown reaches sideways from the trunk, and above the trunk top:
/// 5 blocks for a large tree, 3 for a small one.
pub open spec fn crown_reach(is_large: bool) -> int {
    if is_large {
        5
    } else {
        3
    }
}

/// `(a, b, c)` is part of the trunk of a tree rooted at `(lx, y, lz)`: one
/// column, or 2 × 2 columns for a large tree, `h` blocks high.
pub open spec fn in_trunk(lx: int, y: int, lz: int, h: int, is_large: bool, a: int, b: int, c: int) -> bool {
    &&& y <= b < y + h
    &&& if is_large {
        lx <= a <= lx + 1 && lz <= c <= lz + 1
    } else {
        a == lx && c == lz
    }
}

/// The crown of a tree rooted at `(lx, y, lz)`, centred on its trunk top.
pub open spec fn crown_of(lx: i32, y: i32, lz: i32, biome: Biome, is_large: bool) -> CrownShape {
    CrownShape {
        large: is_large,
        tundra: biome == Biome::Tundra,
        lx,
        cy: (y + trunk_height(biome, is_large)) as i32,
        lz,
    }
}

/// The column `v` with a tree grown at `(lx, y, lz)`: trunk blocks become
/// wood, and the air of the crown becomes leaves; the rest, and whatever lies
/// outside the column, is unchanged.
pub open spec fn tree_view(
    v: spec_fn(int, int, int) -> BlockType,
    lx: i32,
    y: i32,
    lz: i32,
    biome: Biome,
    is_large: bool,
) -> spec_fn(int, int, int) -> BlockType {
    |a: int, b: int, c: int|
        if in_column(a, b, c) && in_trunk(lx as int, y as int, lz as int, trunk_height(biome, is_large), is_large, a, b, c) {
            BlockType::Wood
        } else if in_column(a, b, c) && in_crown(crown_of(lx, y, lz, biome, is_large), a, b, c) && v(a, b, c)
            == BlockType::Air {
            BlockType::Leaves
        } else {
            v(a, b, c)
        }
}

/// Grows a tree of `biome` rooted at `(lx, y, lz)`: the trunk, then leaves on
/// the air of the crown.
pub fn place_tree_in_chunk(chunk: &mut Chunk, lx: i32, y: i32, lz: i32, biome: Biome, is_large: bool)
    requires
        old(chunk).wf(),
        i32::MIN + crown_reach(is_large) <= lx <= i32::MAX - crown_reach(is_large),
        i32::MIN + crown_reach(is_large) <= lz <= i32::MAX - crown_reach(is_large),
        y + trunk_height(biome, is_large) + crown_reach(is_large) <= i32::MAX,
    ensures
        final(chunk).wf(),
        final(chunk).cx == old(chunk).cx,
        final(chunk).cz == old(chunk).cz,
        final(chunk).player_modified == old(chunk).player_modified,
        final(chunk).flags() == old(chunk).flags(),
        final(chunk).view_fn() == tree_view(old(chunk).view_fn(), lx, y, lz, biome, is_large),
{
    let base_trunk_height: i32 = match biome {
        Biome::Forest => 6,
        Biome::Swamp => 7,
        Biome::Tundra => 4,
        _ => 5,
    };
    let trunk_height: i32 = if is_large { base_trunk_height + 2 } else { base_trunk_height };
    let crown_center_y = y + trunk_height;
    let shape = CrownShape { large: is_large, tundra: matches!(biome, Biome::Tundra), lx, cy: crown_center_y, lz };
    assert(shape == crown_of(lx, y, lz, biome, is_large));
    if is_large {
        fill_box(chunk, Fill::Solid(BlockType::Wood), lx, lx + 1, y, y + trunk_height - 1, lz, lz + 1);
        fill_box(chunk, Fill::Crown(shape), lx - 5, lx + 5, crown_center_y - 2, crown_center_y + 5, lz - 5, lz + 5);
        assert forall|a: int, b: int, c: int| in_crown(shape, a, b, c) implies in_box(
            a,
            b,
            c,
            lx - 5,
            lx + 5,
            crown_center_y - 2,
            crown_center_y + 5,
            lz - 5,
            lz + 5,
        ) by {}
    } else {
        fill_box(chunk, Fill::Solid(BlockType::Wood), lx, lx, y, y + trunk_height - 1, lz, lz);
        fill_box(chunk, Fill::Crown(shape), lx - 3, lx + 3, crown_center_y - 1, crown_center_y + 3, lz - 3, lz + 3);
        assert forall|a: int, b: int, c: int| in_crown(shape, a, b, c) implies in_box(
            a,
            b,
            c,
            lx - 3,
            lx + 3,
            crown_center_y - 1,
            crown_center_y + 3,
            lz - 3,
            lz + 3,
        ) by {}
    }
}

/// Height of a cactus at `(lx, lz)`: 2 plus the truncated remainder of
/// `seed as i32 + 17 lx + 31 lz` by 2, so 1 to 3 blocks.
pub open spec fn cactus_height(seed: u32, lx: i32, lz: i32) -> int {
    let v = (seed as i32) as int + lx * 17 + lz * 31;
    2 + if v >= 0 {
        v % 2
    } else {
        -((-v) % 2)
    }
}

/// The column `v` with a cactus of `cactus_height` blocks on `(lx, y, lz)`.
pub open spec fn cactus_view(v: spec_fn(int, int, int) -> BlockType, seed: u32, lx: i32, y: i32, lz: i32) -> spec_fn(
    int,
    int,
    int,
) -> BlockType {
    |a: int, b: int, c: int|
        if in_column(a, b, c) && a == lx && c == lz && y <= b < y + cactus_height(seed, lx, lz) {
            BlockType::Cactus
        } else {
            v(a, b, c)
        }
}

/// Grows a cactus of `cactus_height` blocks on `(lx, y, lz)` and upwards.
pub fn place_cactus_in_chunk(seed: u32, chunk: &mut Chunk, lx: i32, y: i32, lz: i32)
    requires
        old(chunk).wf(),
        i32::MIN <= lx * 17 <= i32::MAX,
        i32::MIN <= lz * 31 <= i32::MAX,
        i32::MIN <= (seed as i32) + lx * 17 <= i32::MAX,
        i32::MIN <= (seed as i32) + lx * 17 + lz * 31 <= i32::MAX,
        y <= i32::MAX - 3,
    ensures
        final(chunk).wf(),
        final(chunk).cx == old(chunk).cx,
        final(chunk).cz == old(chunk).cz,
        final(chunk).player_modified == old(chunk).player_modified,
        final(chunk).flags() == old(chunk).flags(),
        final(chunk).view_fn() == cactus_view(old(chunk).view_fn(), seed, lx, y, lz),
{
    let height = 2 + ((seed as i32 + lx * 17 + lz * 31) % 2);
    assert(height == cactus_height(seed, lx, lz));
    fill_box(chunk, Fill::Solid(BlockType::Cactus), lx, lx, y, y + height - 1, lz, lz);
}

/// Tree law: a tree's trunk is 6 blocks high in forests, 7 in swamps, 4 in
/// tundra and 5 elsewhere, two more for a large tree, and is made of wood
/// from the root up; the block just above the trunk top gets leaves when it
/// was air; leaves only ever replace air, and growing a tree changes nothing
/// but wood and leaves, within its crown's reach, inside the column.
pub proof fn lemma_tree_shape(
    v: spec_fn(int, int, int) -> BlockType,
    lx: i32,
    y: i32,
    lz: i32,
    biome: Biome,
    is_large: bool,
    a: int,
    b: int,
    c: int,
)
    requires
        y + trunk_height(biome, is_large) + crown_reach(is_large) <= i32::MAX,
    ensures
        trunk_height(Biome::Forest, false) == 6 && trunk_height(Biome::Swamp, false) == 7,
        trunk_height(Biome::Tundra, false) == 4 && trunk_height(Biome::Plains, false) == 5,
        trunk_height(biome, true) == trunk_height(biome, false) + 2,
        ({
            let t = tree_view(v, lx, y, lz, biome, is_large);
            let h = trunk_height(biome, is_large);
            let r = crown_reach(is_large);
            &&& in_column(a, b, c) && a == lx && c == lz && y <= b < y + h ==> t(a, b, c) == BlockType::Wood
            &&& in_column(a, b, c) && is_large && lx <= a <= lx + 1 && lz <= c <= lz + 1 && y <= b < y + h
                ==> t(a, b, c) == BlockType::Wood
            &&& in_column(lx as int, y + h, lz as int) && v(lx as int, y + h, lz as int) == BlockType::Air
                ==> t(lx as int, y + h, lz as int) == BlockType::Leaves
            &&& t(a, b, c) == BlockType::Leaves ==> v(a, b, c) == BlockType::Leaves || v(a, b, c) == BlockType::Air
            &&& t(a, b, c) != v(a, b, c) ==> in_column(a, b, c) && (t(a, b, c) == BlockType::Wood || t(a, b, c)
                == BlockType::Leaves)
            &&& t(a, b, c) != v(a, b, c) ==> lx - r <= a <= lx + r && lz - r <= c <= lz + r && y <= b <= y + h + r
        }),
{
    let t = tree_view(v, lx, y, lz, biome, is_large);
    let h = trunk_height(biome, is_large);
    let s = crown_of(lx, y, lz, biome, is_large);
    assert(s.cy == y + h);
    let top = y + h;
    if in_column(lx as int, top, lz as int) && v(lx as int, top, lz as int) == BlockType::Air {
        assert(in_crown(s, lx as int, top, lz as int));
        assert(t(lx as int, top, lz as int) == BlockType::Leaves);
    }
    if t(a, b, c) != v(a, b, c) {
        if !in_trunk(lx as int, y as int, lz as int, h, is_large, a, b, c) {
            assert(in_crown(s, a, b, c));
        }
    }
}

/// Cactus law: a cactus is 1 to 3 blocks of cactus standing on `(lx, y, lz)`
/// and upwards in its column; nothing else changes.
pub proof fn lemma_cactus_shape(v: spec_fn(int, int, int) -> BlockType, seed: u32, lx: i32, y: i32, lz: i32, a: int, b: int, c: int)
    ensures
        1 <= cactus_height(seed, lx, lz) <= 3,
        ({
            let t = cactus_view(v, seed, lx, y, lz);
            &&& in_column(lx as int, y as int, lz as int) ==> t(lx as int, y as int, lz as int) == BlockType::Cactus
            &&& in_column(a, b, c) && a == lx && c == lz && y <= b < y + cactus_height(seed, lx, lz) ==> t(a, b, c)
                == BlockType::Cactus
            &&& t(a, b, c) != v(a, b, c) ==> t(a, b, c) == BlockType::Cactus && a == lx && c == lz && y <= b < y + 3
        }),
{
}

} // verus!
