use vstd::prelude::*;
use vstd::bytes::{
    spec_u32_from_le_bytes, spec_u32_to_le_bytes, spec_u64_from_le_bytes, spec_u64_to_le_bytes,
    u32_from_le_bytes, u32_to_le_bytes, u64_from_le_bytes, u64_to_le_bytes,
    lemma_auto_spec_u32_to_from_le_bytes, lemma_auto_spec_u64_to_from_le_bytes,
};
use vstd::slice::{slice_subrange, slice_to_vec};
use crate::block::BlockType;
use crate::chunk::Chunk;
use crate::constants::{CHUNK_SIZE, SUBCHUNK_HEIGHT};

verus! {

/// One block of a player-modified chunk, at world coordinates.
#[derive(Debug, Clone, Copy, PartialEq, Eq, Structural)]
pub struct SavedBlock {
    pub x: i32,
    pub y: i32,
    pub z: i32,
    pub block_type: BlockType,
}

/// The blocks of one player-modified chunk column `(cx, cz)`.
#[derive(Debug, Clone)]
pub struct SavedChunk {
    pub cx: i32,
    pub cz: i32,
    pub blocks: Vec<SavedBlock>,
}

/// The format version this build writes and reads.
pub const SAVE_VERSION: u32 = 1;

/// File name extension of saved worlds.
pub const WORLD_FILE_EXTENSION: &'static str = "r3d";

/// Default file name of a saved world.
pub const DEFAULT_WORLD_FILE: &'static str = "world.r3d";

/// The four bytes every save file starts with: `R3DW`.
pub open spec fn magic_header() -> Seq<u8> {
    seq![0x52u8, 0x33u8, 0x44u8, 0x57u8]
}

/// Why the bytes of a save file were refused.
#[derive(Debug, Clone, Copy, PartialEq, Eq, Structural)]
pub enum SaveFormatError {
    /// The file ends before the header or the payload is complete.
    Truncated,
    /// The file does not start with `R3DW`.
    BadMagic,
    /// The header names another format version.
    UnsupportedVersion(u32),
}

/// A save file: magic, version and payload length (little-endian `u32` and
/// `u64`), then the payload.
pub open spec fn save_file(payload: Seq<u8>) -> Seq<u8> {
    magic_header() + spec_u32_to_le_bytes(SAVE_VERSION) + spec_u64_to_le_bytes(payload.len() as u64) + payload
}

/// The payload a save file holds, or why it is refused. Bytes after the
/// payload are ignored.
pub open spec fn save_payload(b: Seq<u8>) -> Result<Seq<u8>, SaveFormatError> {
    if b.len() < 4 {
        Err(SaveFormatError::Truncated)
    } else if b.take(4) != magic_header() {
        Err(SaveFormatError::BadMagic)
    } else if b.len() < 8 {
        Err(SaveFormatError::Truncated)
    } else if spec_u32_from_le_bytes(b.subrange(4, 8)) != SAVE_VERSION {
        Err(SaveFormatError::UnsupportedVersion(spec_u32_from_le_bytes(b.subrange(4, 8))))
    } else if b.len() < 16 {
        Err(SaveFormatError::Truncated)
    } else if b.len() - 16 < spec_u64_from_le_bytes(b.subrange(8, 16)) {
        Err(SaveFormatError::Truncated)
    } else {
        Ok(b.subrange(16, 16 + spec_u64_from_le_bytes(b.subrange(8, 16))))
    }
}

/// The bytes of a save file around the serialized world `payload`.
pub fn frame_save_data(payload: &[u8]) -> (r: Vec<u8>)
    ensures
        r@ == save_file(payload@),
{
    let mut r: Vec<u8> = Vec::new();
    r.push(0x52);
    r.push(0x33);
    r.push(0x44);
    r.push(0x57);
    let mut v = u32_to_le_bytes(SAVE_VERSION);
    r.append(&mut v);
    let mut n = u64_to_le_bytes(payload.len() as u64);
    r.append(&mut n);
    let mut p = slice_to_vec(payload);
    r.append(&mut p);
    assert(r@ =~= save_file(payload@));
    r
}

/// Checks the header of a save file and hands out its payload.
pub fn unframe_save_data(bytes: &[u8]) -> (r: Result<Vec<u8>, SaveFormatError>)
    ensures
        match save_payload(bytes@) {
            Ok(p) => r is Ok && r.unwrap()@ == p,
            Err(e) => r == Err::<Vec<u8>, SaveFormatError>(e),
        },
{
    let len = bytes.len();
    if len < 4 {
        return Err(SaveFormatError::Truncated);
    }
    let magic = slice_subrange(bytes, 0, 4);
    if !(magic[0] == 0x52 && magic[1] == 0x33 && magic[2] == 0x44 && magic[3] == 0x57) {
        assert(bytes@.take(4) != magic_header()) by {
            if bytes@.take(4) == magic_header() {
                assert(magic@ == bytes@.take(4));
                assert(magic@[0] == 0x52 && magic@[1] == 0x33 && magic@[2] == 0x44 && magic@[3] == 0x57);
            }
        }
        return Err(SaveFormatError::BadMagic);
    }
    assert(bytes@.take(4) =~= magic_header());
    if len < 8 {
        return Err(SaveFormatError::Truncated);
    }
    let version = u32_from_le_bytes(slice_subrange(bytes, 4, 8));
    if version != SAVE_VERSION {
        return Err(SaveFormatError::UnsupportedVersion(version));
    }
    if len < 16 {
        return Err(SaveFormatError::Truncated);
    }
    let size = u64_from_le_bytes(slice_subrange(bytes, 8, 16));
    if ((len - 16) as u64) < size {
        return Err(SaveFormatError::Truncated);
    }
    let payload = slice_subrange(bytes, 16, 16 + size as usize);
    Ok(slice_to_vec(payload))
}

/// Round-trip law of the save format: the payload framed into a save file is
/// read back unchanged.
pub proof fn lemma_save_roundtrip(payload: Seq<u8>)
    requires
        payload.len() <= u64::MAX,
    ensures
        save_payload(save_file(payload)) == Ok::<Seq<u8>, SaveFormatError>(payload),
{
    lemma_auto_spec_u32_to_from_le_bytes();
    lemma_auto_spec_u64_to_from_le_bytes();
    let b = save_file(payload);
    assert(b.take(4) =~= magic_header());
    assert(b.subrange(4, 8) =~= spec_u32_to_le_bytes(SAVE_VERSION));
    assert(b.subrange(8, 16) =~= spec_u64_to_le_bytes(payload.len() as u64));
    assert(b.subrange(16, 16 + payload.len() as int) =~= payload);
}

/// Layout law of the save format: a save file is the bytes `R3DW`, the
/// version 1 as a little-endian `u32`, the payload length as a little-endian
/// `u64`, then the payload; a file too short for the magic is truncated and
/// one that starts otherwise is refused for its magic.
pub proof fn lemma_save_layout(payload: Seq<u8>, b: Seq<u8>)
    ensures
        ({
            let f = save_file(payload);
            &&& f.len() == 16 + payload.len()
            &&& f[0] == 0x52 && f[1] == 0x33 && f[2] == 0x44 && f[3] == 0x57
            &&& f.subrange(4, 8) == spec_u32_to_le_bytes(1)
            &&& f.subrange(8, 16) == spec_u64_to_le_bytes(payload.len() as u64)
            &&& f.skip(16) == payload
        }),
        b.len() < 4 ==> save_payload(b) == Err::<Seq<u8>, SaveFormatError>(SaveFormatError::Truncated),
        b.len() >= 4 && !(b[0] == 0x52 && b[1] == 0x33 && b[2] == 0x44 && b[3] == 0x57) ==> save_payload(b) == Err::<
            Seq<u8>,
            SaveFormatError,
        >(SaveFormatError::BadMagic),
{
    lemma_auto_spec_u32_to_from_le_bytes();
    lemma_auto_spec_u64_to_from_le_bytes();
    let f = save_file(payload);
    assert(f.subrange(4, 8) =~= spec_u32_to_le_bytes(SAVE_VERSION));
    assert(f.subrange(8, 16) =~= spec_u64_to_le_bytes(payload.len() as u64));
    assert(f.skip(16) =~= payload);
    if b.len() >= 4 && b.take(4) == magic_header() {
        assert(b[0] == b.take(4)[0] && b[1] == b.take(4)[1] && b[2] == b.take(4)[2] && b[3] == b.take(4)[3]);
    }
}

/// Blocks in a chunk column.
pub const CHUNK_VOLUME: usize = 65536;

/// The `i`-th block a save records of chunk `c`: subchunks bottom up, and in
/// each, x, then height, then z, at world coordinates.
pub open spec fn saved_block_at(c: Chunk, i: int) -> SavedBlock {
    let sy = i / 4096;
    let lx = (i / 256) % 16;
    let ly = (i / 16) % 16;
    let lz = i % 16;
    SavedBlock {
        x: (c.cx * CHUNK_SIZE + lx) as i32,
        y: (sy * SUBCHUNK_HEIGHT + ly) as i32,
        z: (c.cz * CHUNK_SIZE + lz) as i32,
        block_type: c.block(lx, sy * SUBCHUNK_HEIGHT + ly, lz),
    }
}

/// Chunk coordinates whose blocks have `i32` world coordinates.
pub open spec fn chunk_coords_in_range(c: Chunk) -> bool {
    &&& i32::MIN <= c.cx * CHUNK_SIZE && c.cx * CHUNK_SIZE + CHUNK_SIZE <= i32::MAX
    &&& i32::MIN <= c.cz * CHUNK_SIZE && c.cz * CHUNK_SIZE + CHUNK_SIZE <= i32::MAX
}

/// The record of every block of `chunk`, in the order `saved_block_at` gives.
pub fn saved_chunk_of(chunk: &Chunk) -> (s: SavedChunk)
    requires
        chunk.wf(),
        chunk_coords_in_range(*chunk),
    ensures
        s.cx == chunk.cx,
        s.cz == chunk.cz,
        s.blocks@.len() == CHUNK_VOLUME,
        forall|i: int| 0 <= i < CHUNK_VOLUME ==> #[trigger] s.blocks@[i] == saved_block_at(*chunk, i),
{
    let base_x = chunk.cx * CHUNK_SIZE;
    let base_z = chunk.cz * CHUNK_SIZE;
    let mut blocks: Vec<SavedBlock> = Vec::new();
    let mut i: usize = 0;
    while i < CHUNK_VOLUME
        invariant
            chunk.wf(),
            chunk_coords_in_range(*chunk),
            base_x == chunk.cx * CHUNK_SIZE,
            base_z == chunk.cz * CHUNK_SIZE,
            i <= CHUNK_VOLUME,
            blocks@.len() == i,
            forall|j: int| 0 <= j < i ==> #[trigger] blocks@[j] == saved_block_at(*chunk, j),
        decreases CHUNK_VOLUME - i,
    {
        let sy = (i / 4096) as i32;
        let lx = ((i / 256) % 16) as i32;
        let ly = ((i / 16) % 16) as i32;
        let lz = (i % 16) as i32;
        let y = sy * SUBCHUNK_HEIGHT + ly;
        let block_type = chunk.get_block(lx, y, lz);
        blocks.push(SavedBlock { x: base_x + lx, y, z: base_z + lz, block_type });
        i = i + 1;
    }
    SavedChunk { cx: chunk.cx, cz: chunk.cz, blocks }
}

/// Record law of a saved chunk: each record carries the block the chunk
/// holds at the record's own world coordinates, which lie in the chunk's
/// column; and every block of the column is recorded, block `(lx, y, lz)` at
/// index `(y / 16) * 4096 + lx * 256 + (y % 16) * 16 + lz`.
pub proof fn lemma_saved_records(c: Chunk, i: int, lx: int, y: int, lz: int)
    requires
        chunk_coords_in_range(c),
    ensures
        0 <= i < CHUNK_VOLUME ==> {
            let r = saved_block_at(c, i);
            &&& 0 <= r.x - c.cx * CHUNK_SIZE < CHUNK_SIZE
            &&& 0 <= r.y < 256
            &&& 0 <= r.z - c.cz * CHUNK_SIZE < CHUNK_SIZE
            &&& r.block_type == c.block(r.x - c.cx * CHUNK_SIZE, r.y as int, r.z - c.cz * CHUNK_SIZE)
        },
        0 <= lx < 16 && 0 <= y < 256 && 0 <= lz < 16 ==> {
            let k = (y / 16) * 4096 + lx * 256 + (y % 16) * 16 + lz;
            let r = saved_block_at(c, k);
            &&& 0 <= k < CHUNK_VOLUME
            &&& r.x == c.cx * CHUNK_SIZE + lx && r.y == y && r.z == c.cz * CHUNK_SIZE + lz
            &&& r.block_type == c.block(lx, y, lz)
        },
{
    if 0 <= i < CHUNK_VOLUME {
        assert(0 <= i / 4096 < 16 && 0 <= (i / 256) % 16 < 16 && 0 <= (i / 16) % 16 < 16 && 0 <= i % 16 < 16) by (nonlinear_arith)
            requires
                0 <= i < 65536,
        ;
    }
    if 0 <= lx < 16 && 0 <= y < 256 && 0 <= lz < 16 {
        let sy = y / 16;
        let ly = y % 16;
        let k = sy * 4096 + lx * 256 + ly * 16 + lz;
        assert(0 <= sy < 16 && 0 <= ly < 16 && y == sy * 16 + ly) by (nonlinear_arith)
            requires
                0 <= y < 256,
                sy == y / 16,
                ly == y % 16,
        ;
        assert(k / 4096 == sy && (k / 256) % 16 == lx && (k / 16) % 16 == ly && k % 16 == lz && 0 <= k < 65536)
            by (nonlinear_arith)
            requires
                k == sy * 4096 + lx * 256 + ly * 16 + lz,
                0 <= sy < 16,
                0 <= lx < 16,
                0 <= ly < 16,
                0 <= lz < 16,
        ;
    }
}

} // verus!
