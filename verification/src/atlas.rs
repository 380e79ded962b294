use vstd::prelude::*;

verus! {

/// A square texture atlas: `tiles_per_row` tiles of `tile_size` pixels per
/// side, RGBA8, row-major.
#[derive(Debug)]
pub struct Atlas {
    pub width: u32,
    pub height: u32,
    pub tiles_per_row: u32,
    pub data: Vec<u8>,
}

/// `data` with `src` written over it from byte `dst` on.
pub open spec fn overwrite(data: Seq<u8>, dst: int, src: Seq<u8>) -> Seq<u8> {
    data.take(dst) + src + data.skip(dst + src.len())
}

/// Column of the first pixel of tile `i` (computed as the atlas builder does,
/// from the tile index modulo the atlas side).
pub open spec fn tile_x(i: int, tile: u32, side: u32) -> int {
    ((i as u32) % side) * tile
}

/// Row of the first pixel of tile `i`.
pub open spec fn tile_y(i: int, tile: u32, side: u32) -> int {
    ((i as u32) / side) * tile
}

/// Byte offset in the atlas of pixel row `row` of tile `i`.
pub open spec fn dst_start(i: int, row: int, tile: u32, side: u32) -> int {
    ((tile_y(i, tile, side) + row) * side + tile_x(i, tile, side)) * 4
}

/// `data` after copying rows `0..rows` of the texture `tex` into tile `i`.
pub open spec fn paint_rows(data: Seq<u8>, tex: Seq<u8>, i: int, tile: u32, side: u32, rows: nat) -> Seq<u8>
    decreases rows,
{
    if rows == 0 {
        data
    } else {
        let r = rows - 1;
        overwrite(
            paint_rows(data, tex, i, tile, side, r as nat),
            dst_start(i, r, tile, side),
            tex.subrange(r * tile * 4, r * tile * 4 + tile * 4),
        )
    }
}

/// `data` after copying the textures `0..n` into their tiles, in order.
pub open spec fn paint_tiles(data: Seq<u8>, textures: Seq<Seq<u8>>, tile: u32, side: u32, n: nat) -> Seq<u8>
    decreases n,
{
    if n == 0 {
        data
    } else {
        paint_rows(
            paint_tiles(data, textures, tile, side, (n - 1) as nat),
            textures[n - 1],
            n - 1,
            tile,
            side,
            tile as nat,
        )
    }
}

/// The first pixel of tile `i` lies within `u32` coordinates.
pub open spec fn tile_fits(i: int, tile: u32, side: u32) -> bool {
    tile_x(i, tile, side) <= u32::MAX && tile_y(i, tile, side) <= u32::MAX
}

/// Copying pixel row `row` of texture `i` stays within `u32` arithmetic, the
/// atlas and the texture.
pub open spec fn row_copy_fits(i: int, row: int, tile: u32, side: u32, textures: Seq<Seq<u8>>) -> bool {
    &&& tile_y(i, tile, side) + row <= u32::MAX
    &&& (tile_y(i, tile, side) + row) * side + tile_x(i, tile, side) <= u32::MAX
    &&& dst_start(i, row, tile, side) + tile * 4 <= side * side * 4
    &&& row * tile + tile <= u32::MAX
    &&& (row * tile + tile) * 4 <= textures[i].len()
}

/// The inputs on which building an atlas of side `side` stays within its
/// `u32` arithmetic and within the atlas and texture buffers.
pub open spec fn atlas_input_ok(tile: u32, side: u32, textures: Seq<Seq<u8>>) -> bool {
    &&& side * side * 4 <= u32::MAX
    &&& tile * 4 <= u32::MAX
    &&& textures.len() > 0 ==> side > 0
    &&& textures.len() <= u32::MAX
    &&& forall|i: int| 0 <= i < textures.len() ==> #[trigger] tile_fits(i, tile, side)
    &&& forall|i: int, row: int|
        0 <= i < textures.len() && 0 <= row < tile ==> #[trigger] row_copy_fits(i, row, tile, side, textures)
}

/// Places the textures tile by tile into a zeroed atlas of `tiles_per_row`
/// tiles per side, copying each texture row by row.
pub fn assemble_atlas(tile_size: u32, tiles_per_row: u32, textures: &[Vec<u8>]) -> (a: Atlas)
    requires
        tiles_per_row * tile_size <= u32::MAX,
        atlas_input_ok(tile_size, (tiles_per_row * tile_size) as u32, textures@.map_values(|t: Vec<u8>| t@)),
    ensures
        a.width == tiles_per_row * tile_size,
        a.height == tiles_per_row * tile_size,
        a.tiles_per_row == tiles_per_row,
        a.data@ == paint_tiles(
            Seq::new((a.width * a.width * 4) as nat, |k: int| 0u8),
            textures@.map_values(|t: Vec<u8>| t@),
            tile_size,
            a.width,
            textures@.len(),
        ),
{
    let ghost texs = textures@.map_values(|t: Vec<u8>| t@);
    let atlas_size = tiles_per_row * tile_size;
    assert((tiles_per_row * tile_size) as u32 == atlas_size);
    let total = (atlas_size * atlas_size * 4) as usize;
    let mut data: Vec<u8> = Vec::new();
    let mut k: usize = 0;
    while k < total
        invariant
            k <= total,
            data@ =~= Seq::new(k as nat, |j: int| 0u8),
        decreases total - k,
    {
        data.push(0);
        k = k + 1;
    }
    let ghost zero = data@;
    let n = textures.len();
    let mut i: usize = 0;
    while i < n
        invariant
            n == textures@.len(),
            i <= n,
            texs == textures@.map_values(|t: Vec<u8>| t@),
            atlas_input_ok(tile_size, atlas_size, texs),
            atlas_size == tiles_per_row * tile_size,
            data@.len() == total,
            total == atlas_size * atlas_size * 4,
            zero == Seq::new(total as nat, |j: int| 0u8),
            data@ == paint_tiles(zero, texs, tile_size, atlas_size, i as nat),
        decreases n - i,
    {
        let tex = &textures[i];
        let tex_len = tex.len();
        assert(texs[i as int] == tex@);
        assert(tile_fits(i as int, tile_size, atlas_size));
        let x = (i as u32 % atlas_size) * tile_size;
        let y = (i as u32 / atlas_size) * tile_size;
        let ghost before = data@;
        let mut row: u32 = 0;
        while row < tile_size
            invariant
                n == textures@.len(),
                i < n,
                row <= tile_size,
                texs == textures@.map_values(|t: Vec<u8>| t@),
                texs[i as int] == tex@,
                tex_len == tex@.len(),
                atlas_input_ok(tile_size, atlas_size, texs),
                atlas_size == tiles_per_row * tile_size,
                x == tile_x(i as int, tile_size, atlas_size),
                y == tile_y(i as int, tile_size, atlas_size),
                data@.len() == total,
                total == atlas_size * atlas_size * 4,
                data@ == paint_rows(before, tex@, i as int, tile_size, atlas_size, row as nat),
            decreases tile_size - row,
        {
            assert(row_copy_fits(i as int, row as int, tile_size, atlas_size, texs));
            let dst = ((y + row) * atlas_size + x) as usize * 4;
            assert(row * tile_size * 4 <= (row * tile_size + tile_size) * 4) by (nonlinear_arith);
            let src = (row * tile_size) as usize * 4;
            let len = (tile_size * 4) as usize;
            let ghost d0 = data@;
            let mut b: usize = 0;
            while b < len
                invariant
                    b <= len,
                    len == tile_size * 4,
                    dst + len <= d0.len(),
                    d0.len() == total,
                    src + len <= tex@.len(),
                    tex_len == tex@.len(),
                    data@.len() == d0.len(),
                    data@ =~= d0.take(dst as int) + tex@.subrange(src as int, src + b) + d0.skip(dst + b),
                decreases len - b,
            {
                data.set(dst + b, tex[src + b]);
                b = b + 1;
            }
            assert(src == (row as int) * tile_size * 4);
            row = row + 1;
        }
        i = i + 1;
    }
    Atlas { width: atlas_size, height: atlas_size, tiles_per_row, data }
}

/// The number of tiles along each side of a square atlas that holds `n`
/// textures: the smallest `r` with `r * r >= n`, the ceiling of `sqrt(n)`.
pub fn tiles_per_row_for(n: usize) -> (r: u32)
    requires
        n <= u32::MAX,
    ensures
        r * r >= n,
        r == 0 || (r - 1) * (r - 1) < n,
{
    let mut r: u64 = 0;
    while r * r < n as u64
        invariant
            n <= u32::MAX,
            r <= 65536,
            r * r <= 0x1_0000_0000u64,
            r == 0 || (r - 1) * (r - 1) < n,
        decreases 65536 - r,
    {
        assert(r < 65536) by (nonlinear_arith)
            requires
                r * r < n,
                n <= 0xffff_ffffusize,
        ;
        r = r + 1;
        assert(r * r <= 0x1_0000_0000u64) by (nonlinear_arith)
            requires
                r <= 65536,
        ;
    }
    r as u32
}

/// Whether `assemble_atlas` can build an atlas of `tiles_per_row` tiles per
/// side from `textures`: all its arithmetic stays within `u32` and every row
/// it copies lies within the atlas and within the texture it reads.
pub fn atlas_fits(tile_size: u32, tiles_per_row: u32, textures: &[Vec<u8>]) -> (b: bool)
    ensures
        b == (tiles_per_row * tile_size <= u32::MAX && atlas_input_ok(
            tile_size,
            (tiles_per_row * tile_size) as u32,
            textures@.map_values(|t: Vec<u8>| t@),
        )),
{
    let ghost texs = textures@.map_values(|t: Vec<u8>| t@);
    assert(tiles_per_row * tile_size <= 0xffff_ffffu64 * 0xffff_ffffu64) by (nonlinear_arith)
        requires
            tiles_per_row <= 0xffff_ffffu64,
            tile_size <= 0xffff_ffffu64,
    ;
    let prod: u64 = tiles_per_row as u64 * tile_size as u64;
    if prod > 0xffff_ffff {
        return false;
    }
    let side = prod as u32;
    let s = side as u128;
    let t = tile_size as u128;
    let n = textures.len();
    assert(s * s <= 0xffff_ffffu128 * 0xffff_ffffu128) by (nonlinear_arith)
        requires
            s <= 0xffff_ffffu128,
    ;
    if s * s * 4 > 0xffff_ffff || t * 4 > 0xffff_ffff || (n > 0 && side == 0) || n as u64 > 0xffff_ffff {
        return false;
    }
    let mut i: usize = 0;
    while i < n
        invariant
            n == textures@.len(),
            i <= n,
            n <= u32::MAX,
            n > 0 ==> side > 0,
            side == tiles_per_row * tile_size,
            s == side,
            t == tile_size,
            side * side * 4 <= u32::MAX,
            tile_size * 4 <= u32::MAX,
            texs == textures@.map_values(|t: Vec<u8>| t@),
            forall|j: int| 0 <= j < i ==> #[trigger] tile_fits(j, tile_size, side),
            forall|j: int, row: int|
                #![trigger row_copy_fits(j, row, tile_size, side, texs)]
                0 <= j < i && 0 <= row < tile_size ==> row_copy_fits(j, row, tile_size, side, texs),
        decreases n - i,
    {
        let iu = i as u32;
        let qx = iu % side;
        let qy = iu / side;
        assert((qx as u128) * t <= 0xffff_ffffu128 * 0xffff_ffffu128) by (nonlinear_arith)
            requires
                qx <= 0xffff_ffffu128,
                t <= 0xffff_ffffu128,
        ;
        assert((qy as u128) * t <= 0xffff_ffffu128 * 0xffff_ffffu128) by (nonlinear_arith)
            requires
                qy <= 0xffff_ffffu128,
                t <= 0xffff_ffffu128,
        ;
        let tx: u128 = (qx as u128) * t;
        let ty: u128 = (qy as u128) * t;
        assert(tx == tile_x(i as int, tile_size, side));
        assert(ty == tile_y(i as int, tile_size, side));
        if tx > 0xffff_ffff || ty > 0xffff_ffff {
            assert(!tile_fits(i as int, tile_size, side));
            return false;
        }
        assert(tile_fits(i as int, tile_size, side));
        let tex_len = textures[i].len();
        assert(texs[i as int] == textures@[i as int]@);
        let mut row: u32 = 0;
        while row < tile_size
            invariant
                n == textures@.len(),
                i < n,
                row <= tile_size,
                side == tiles_per_row * tile_size,
                s == side,
                t == tile_size,
                side * side * 4 <= u32::MAX,
                tile_size * 4 <= u32::MAX,
                tx == tile_x(i as int, tile_size, side),
                ty == tile_y(i as int, tile_size, side),
                tx <= u32::MAX,
                ty <= u32::MAX,
                n <= u32::MAX,
                texs == textures@.map_values(|t: Vec<u8>| t@),
                tex_len == texs[i as int].len(),
                forall|j: int| 0 <= j < i ==> #[trigger] tile_fits(j, tile_size, side),
                forall|j: int, r: int|
                    #![trigger row_copy_fits(j, r, tile_size, side, texs)]
                    0 <= j < i && 0 <= r < tile_size ==> row_copy_fits(j, r, tile_size, side, texs),
                forall|r: int|
                    #![trigger row_copy_fits(i as int, r, tile_size, side, texs)]
                    0 <= r < row ==> row_copy_fits(i as int, r, tile_size, side, texs),
            decreases tile_size - row,
        {
            let r = row as u128;
            let a = ty + r;
            let ok = if a > 0xffff_ffff {
                false
            } else {
                assert(a * s <= 0xffff_ffffu128 * 0xffff_ffffu128) by (nonlinear_arith)
                    requires
                        a <= 0xffff_ffffu128,
                        s <= 0xffff_ffffu128,
                ;
                let b2 = a * s + tx;
                if b2 > 0xffff_ffff {
                    false
                } else {
                    assert(r * t <= 0xffff_ffffu128 * 0xffff_ffffu128) by (nonlinear_arith)
                        requires
                            r <= 0xffff_ffffu128,
                            t <= 0xffff_ffffu128,
                    ;
                    let c = r * t + t;
                    b2 * 4 + t * 4 <= s * s * 4 && c <= 0xffff_ffff && c * 4 <= tex_len as u128
                }
            };
            assert(ok == row_copy_fits(i as int, row as int, tile_size, side, texs));
            if !ok {
                proof {
                    let ii = i as int;
                    let rr = row as int;
                    assert(0 <= ii < texs.len() && 0 <= rr < tile_size);
                    assert(!row_copy_fits(ii, rr, tile_size, side, texs));
                }
                return false;
            }
            row = row + 1;
        }
        i = i + 1;
    }
    assert(texs.len() == n);
    assert((tiles_per_row * tile_size) as u32 == side);
    assert(atlas_input_ok(tile_size, side, texs));
    true
}

/// A file-backed cache for the raw pixels of the texture atlas.
#[derive(Debug)]
pub struct TextureAtlasCache {
    pub cache_path: String,
}

impl TextureAtlasCache {
    /// A cache that reads from and writes to `cache_path`.
    pub fn new(cache_path: &str) -> (c: Self)
        ensures
            c.cache_path@ == cache_path@,
    {
        TextureAtlasCache { cache_path: cache_path.to_owned() }
    }
}

} // verus!
