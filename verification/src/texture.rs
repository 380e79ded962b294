use vstd::prelude::*;
use vstd::slice::{slice_subrange, slice_to_vec};

verus! {

/// Number of texture layers in the atlas array.
pub const ATLAS_LAYERS: usize = 16;

/// The RGBA8 pixels that `image::imageops::resize` with the `Triangle`
/// filter makes of the `src_w` x `src_h` image `pixels` at `dst_w` x `dst_h`.
pub uninterp spec fn triangle_resize(pixels: Seq<u8>, src_w: u32, src_h: u32, dst_w: u32, dst_h: u32) -> Seq<u8>;

/// `image::RgbaImage::from_raw` followed by `image::imageops::resize` with the
/// `Triangle` filter and `into_raw`: the bilinear downsample of one layer.
/// The result holds exactly `dst_w * dst_h` RGBA pixels. The resize works
/// through `f32` images of `src_w` x `dst_h` and `dst_w` x `dst_h` pixels,
/// whose allocation panics beyond `isize::MAX` bytes; the sizes asked for
/// here keep both below the `f32` size of the source image.
#[verifier::external_body]
fn resize_layer(pixels: Vec<u8>, src_w: u32, src_h: u32, dst_w: u32, dst_h: u32) -> (out: Vec<u8>)
    requires
        pixels@.len() == src_w * src_h * 4,
        dst_w <= src_w,
        dst_h <= src_h,
        src_w * src_h * 16 <= isize::MAX,
    ensures
        out@ == triangle_resize(pixels@, src_w, src_h, dst_w, dst_h),
        out@.len() == dst_w * dst_h * 4,
{
    let img = image::RgbaImage::from_raw(src_w, src_h, pixels).expect("Failed to create image from mipmap level");
    image::imageops::resize(&img, dst_w, dst_h, image::imageops::FilterType::Triangle).into_raw()
}

/// `floor(log2(n))` for `n >= 1`, and 0 for `n = 0`.
pub open spec fn floor_log2(n: nat) -> nat
    decreases n,
{
    if n <= 1 { 0 } else { 1 + floor_log2(n / 2) }
}

/// Number of mip levels of a `w` x `h` atlas: `floor(log2(max(w, h))) + 1`.
pub open spec fn mip_level_count(w: u32, h: u32) -> nat {
    floor_log2(if w >= h { w as nat } else { h as nat }) + 1
}

/// The side `side` shifted right `level` times, but never below 1.
pub open spec fn mip_side(side: u32, level: u32) -> u32 {
    if (side >> level) >= 1 { side >> level } else { 1 }
}

/// The layers `0..n` of `src`, each `sw` x `sh`, resized to `dw` x `dh` and
/// concatenated in layer order.
pub open spec fn resized_layers(src: Seq<u8>, sw: u32, sh: u32, dw: u32, dh: u32, n: nat) -> Seq<u8>
    decreases n,
{
    if n == 0 {
        Seq::empty()
    } else {
        let ls = sw * sh * 4;
        resized_layers(src, sw, sh, dw, dh, (n - 1) as nat)
            + triangle_resize(src.subrange((n - 1) * ls, n * ls), sw, sh, dw, dh)
    }
}

/// Mip level `level` of the 16-layer atlas `data` of `w` x `h` layers:
/// level 0 is `data`, each later level resizes every layer of the one before.
pub open spec fn mip_level(data: Seq<u8>, w: u32, h: u32, level: u32) -> Seq<u8>
    decreases level,
{
    if level == 0 {
        data
    } else {
        resized_layers(
            mip_level(data, w, h, (level - 1) as u32),
            mip_side(w, (level - 1) as u32),
            mip_side(h, (level - 1) as u32),
            mip_side(w, level),
            mip_side(h, level),
            ATLAS_LAYERS as nat,
        )
    }
}

/// What generating the mip chain needs of the input: when more than one level
/// is made, level 0 covers 16 layers, the layer and level byte counts the
/// generator computes in `u32` do not overflow, and a layer in `f32` pixels
/// (what the resize allocates) fits in `isize::MAX` bytes.
pub open spec fn mip_input_ok(data_len: nat, w: u32, h: u32) -> bool {
    mip_level_count(w, h) > 1 ==> {
        &&& mip_side(w, 0) * mip_side(h, 0) * 4 <= u32::MAX
        &&& mip_side(w, 0) * mip_side(h, 0) * 16 <= isize::MAX
        &&& mip_side(w, 1) * mip_side(h, 1) * 4 * 16 <= u32::MAX
        &&& data_len >= ATLAS_LAYERS * (mip_side(w, 0) * mip_side(h, 0) * 4)
    }
}

/// All mip levels of a 16-layer atlas, the given data first. Level `l`
/// has sides `max(w >> l, 1)` x `max(h >> l, 1)` and is made by downsampling
/// each layer of level `l - 1` with a bilinear (Triangle) filter; there are
/// `floor(log2(max(w, h))) + 1` levels.
pub fn generate_texture_atlas_with_mipmaps(atlas_data: &[u8], atlas_width: u32, atlas_height: u32) -> (levels: Vec<Vec<u8>>)
    requires
        mip_input_ok(atlas_data@.len(), atlas_width, atlas_height),
    ensures
        levels@.len() == mip_level_count(atlas_width, atlas_height),
        forall|l: int| 0 <= l < levels@.len() ==> (#[trigger] levels@[l])@ == mip_level(atlas_data@, atlas_width, atlas_height, l as u32),
        forall|l: int| 1 <= l < levels@.len() ==> (#[trigger] levels@[l])@.len() == ATLAS_LAYERS * (mip_side(atlas_width, l as u32)
            * mip_side(atlas_height, l as u32) * 4),
{
    let count = floor_log2_of(max_side(atlas_width, atlas_height)) + 1;
    let mut levels: Vec<Vec<u8>> = Vec::new();
    levels.push(slice_to_vec(atlas_data));
    let mut level: u32 = 1;
    while level < count
        invariant
            count == mip_level_count(atlas_width, atlas_height),
            count <= 32,
            1 <= level <= count,
            levels@.len() == level,
            mip_input_ok(atlas_data@.len(), atlas_width, atlas_height),
            forall|l: int| 0 <= l < level ==> (#[trigger] levels@[l])@ == mip_level(atlas_data@, atlas_width, atlas_height, l as u32),
            forall|l: int| 1 <= l < level ==> (#[trigger] levels@[l])@.len() == ATLAS_LAYERS * (mip_side(atlas_width, l as u32)
                * mip_side(atlas_height, l as u32) * 4),
            level < count ==> levels@[level - 1]@.len() >= ATLAS_LAYERS * (mip_side(atlas_width, (level - 1) as u32) * mip_side(atlas_height, (level - 1) as u32) * 4),
        decreases count - level,
    {
        let src_level = level - 1;
        let src_width = mip_side_of(atlas_width, src_level);
        let src_height = mip_side_of(atlas_height, src_level);
        let dst_width = mip_side_of(atlas_width, level);
        let dst_height = mip_side_of(atlas_height, level);
        proof {
            lemma_mip_sides_shrink(atlas_width, atlas_height, src_level);
            lemma_mip_sides_shrink(atlas_width, atlas_height, level);
        }
        let layer_size32 = src_width * src_height * 4;
        let layer_size = layer_size32 as usize;
        let mut level_data: Vec<u8> = Vec::with_capacity((dst_width * dst_height * 4 * 16) as usize);
        let ghost src = levels@[src_level as int]@;
        let src_len = levels[src_level as usize].len();
        let mut layer: usize = 0;
        while layer < ATLAS_LAYERS
            invariant
                layer <= ATLAS_LAYERS,
                levels@.len() == level,
                src == levels@[src_level as int]@,
                src_level == level - 1,
                layer_size == src_width * src_height * 4,
                src.len() >= ATLAS_LAYERS * layer_size,
                src.len() == src_len,
                level_data@ == resized_layers(src, src_width, src_height, dst_width, dst_height, layer as nat),
                level_data@.len() == layer * (dst_width * dst_height * 4),
                dst_width * dst_height * 4 <= u32::MAX,
                dst_width <= src_width,
                dst_height <= src_height,
                src_width * src_height * 16 <= isize::MAX,
            decreases ATLAS_LAYERS - layer,
        {
            proof {
                assert((layer + 1) * layer_size <= ATLAS_LAYERS * layer_size) by (nonlinear_arith)
                    requires layer < ATLAS_LAYERS;
                assert(layer * layer_size + layer_size == (layer + 1) * layer_size) by (nonlinear_arith);
            }
            let layer_offset = layer * layer_size;
            let pixels = slice_to_vec(slice_subrange(levels[src_level as usize].as_slice(), layer_offset, layer_offset + layer_size));
            let mut resized = resize_layer(pixels, src_width, src_height, dst_width, dst_height);
            proof {
                assert(layer_offset + layer_size == (layer + 1) * layer_size);
            }
            level_data.append(&mut resized);
            proof {
                assert(layer * (dst_width * dst_height * 4) + dst_width * dst_height * 4 == (layer + 1) * (dst_width * dst_height * 4)) by (nonlinear_arith);
            }
            layer = layer + 1;
        }
        levels.push(level_data);
        proof {
            assert(levels@[level as int]@ == mip_level(atlas_data@, atlas_width, atlas_height, level));
            assert(ATLAS_LAYERS * (dst_width * dst_height * 4) == 16 * (dst_width * dst_height * 4));
        }
        level = level + 1;
    }
    levels
}

/// `max(side >> level, 1)`.
fn mip_side_of(side: u32, level: u32) -> (s: u32)
    requires
        level < 32,
    ensures
        s == mip_side(side, level),
{
    let v = side >> level;
    if v >= 1 { v } else { 1 }
}

proof fn lemma_mip_sides_shrink(w: u32, h: u32, l: u32)
    requires
        l < 32,
        mip_level_count(w, h) > 1,
        mip_side(w, 0) * mip_side(h, 0) * 4 <= u32::MAX,
        mip_side(w, 1) * mip_side(h, 1) * 4 * 16 <= u32::MAX,
    ensures
        mip_side(w, l) * mip_side(h, l) * 4 <= u32::MAX,
        mip_side(w, l) * mip_side(h, l) * 16 <= mip_side(w, 0) * mip_side(h, 0) * 16,
        l >= 1 ==> mip_side(w, l) * mip_side(h, l) * 4 * 16 <= u32::MAX,
        l >= 1 ==> mip_side(w, l) <= mip_side(w, (l - 1) as u32) && mip_side(h, l) <= mip_side(h, (l - 1) as u32),
{
    if l >= 1 {
        let lm = (l - 1) as u32;
        assert((w >> l) <= (w >> lm)) by (bit_vector)
            requires
                lm + 1 == l,
        ;
        assert((h >> l) <= (h >> lm)) by (bit_vector)
            requires
                lm + 1 == l,
        ;
    }
    assert((w >> l) <= w) by (bit_vector);
    assert((h >> l) <= h) by (bit_vector);
    assert(l >= 1 ==> (w >> l) <= (w >> 1u32)) by (bit_vector);
    assert(l >= 1 ==> (h >> l) <= (h >> 1u32)) by (bit_vector);
    assert(w >> 0u32 == w) by (bit_vector);
    assert(h >> 0u32 == h) by (bit_vector);
    let a = mip_side(w, l) as int;
    let b = mip_side(h, l) as int;
    let a0 = mip_side(w, 0) as int;
    let b0 = mip_side(h, 0) as int;
    assert(a <= a0 && b <= b0);
    assert(a * b * 4 <= a0 * b0 * 4) by (nonlinear_arith)
        requires 1 <= a <= a0, 1 <= b <= b0;
    assert(a * b * 16 <= a0 * b0 * 16) by (nonlinear_arith)
        requires 1 <= a <= a0, 1 <= b <= b0;
    if l >= 1 {
        let a1 = mip_side(w, 1) as int;
        let b1 = mip_side(h, 1) as int;
        assert(a <= a1 && b <= b1);
        assert(a * b * 4 * 16 <= a1 * b1 * 4 * 16) by (nonlinear_arith)
            requires 1 <= a <= a1, 1 <= b <= b1;
    }
}

/// The largest side of the atlas.
fn max_side(w: u32, h: u32) -> (m: u32)
    ensures
        m == if w >= h { w } else { h },
{
    if w >= h { w } else { h }
}

/// `floor(log2(n))` (0 for `n = 0`).
fn floor_log2_of(n: u32) -> (r: u32)
    ensures
        r == floor_log2(n as nat),
        r < 32,
{
    proof {
        vstd::arithmetic::power2::lemma2_to64();
        lemma_floor_log2_le(n as nat, 31);
    }
    let mut m = n;
    let mut r: u32 = 0;
    while m > 1
        invariant
            floor_log2(n as nat) == r + floor_log2(m as nat),
            r + floor_log2(m as nat) < 32,
            m <= n,
        decreases m,
    {
        m = m / 2;
        r = r + 1;
    }
    r
}

proof fn lemma_floor_log2_le(n: nat, k: nat)
    requires
        n < vstd::arithmetic::power2::pow2(k + 1),
    ensures
        floor_log2(n) <= k,
    decreases k,
{
    vstd::arithmetic::power2::lemma_pow2_unfold(k + 1);
    if n > 1 {
        if k == 0 {
            vstd::arithmetic::power2::lemma2_to64();
            assert(false);
        } else {
            lemma_floor_log2_le(n / 2, (k - 1) as nat);
        }
    }
}

} // verus!
