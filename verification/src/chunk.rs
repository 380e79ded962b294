use vstd::prelude::*;
use crate::block::BlockType;
use crate::constants::{CHUNK_SIZE, NUM_SUBCHUNKS, SUBCHUNK_HEIGHT, SUBCHUNK_VOLUME, WORLD_HEIGHT};

verus! {

/// `(lx, y, lz)` lies inside a chunk column.
pub open spec fn in_column(lx: int, y: int, lz: int) -> bool {
    0 <= lx < CHUNK_SIZE && 0 <= y < WORLD_HEIGHT && 0 <= lz < CHUNK_SIZE
}

/// Index of block `(lx, ly, lz)` in the block array of its subchunk.
pub open spec fn block_index(lx: int, ly: int, lz: int) -> int {
    (lx * SUBCHUNK_HEIGHT + ly) * CHUNK_SIZE + lz
}

/// A 16 × 16 × 16 cube of a chunk column.
#[derive(Debug, Clone)]
pub struct SubChunk {
    /// The blocks, block `(lx, ly, lz)` at `block_index(lx, ly, lz)`.
    pub blocks: Vec<BlockType>,
    /// Every block of the subchunk is air (as of the last `check_empty`).
    pub is_empty: bool,
    /// Every block of the subchunk hides what is behind it.
    pub is_fully_opaque: bool,
}

/// A column of `NUM_SUBCHUNKS` subchunks at chunk coordinates `(cx, cz)`.
#[derive(Debug, Clone)]
pub struct Chunk {
    pub cx: i32,
    pub cz: i32,
    pub subchunks: Vec<SubChunk>,
    /// The player changed a block of this chunk since it was generated.
    pub player_modified: bool,
}

impl SubChunk {
    /// Every block is air.
    pub open spec fn all_air(&self) -> bool {
        forall|k: int| 0 <= k < self.blocks@.len() ==> #[trigger] self.blocks@[k] == BlockType::Air
    }

    /// Records whether every block is air.
    pub fn check_empty(&mut self)
        ensures
            final(self).blocks@ == old(self).blocks@,
            final(self).is_fully_opaque == old(self).is_fully_opaque,
            final(self).is_empty == old(self).all_air(),
    {
        let mut k: usize = 0;
        let n = self.blocks.len();
        let mut empty = true;
        while k < n
            invariant
                n == self.blocks@.len(),
                k <= n,
                empty == forall|j: int| 0 <= j < k ==> #[trigger] self.blocks@[j] == BlockType::Air,
            decreases n - k,
        {
            if !matches!(self.blocks[k], BlockType::Air) {
                empty = false;
            }
            k = k + 1;
        }
        self.is_empty = empty;
    }
}

impl Chunk {
    /// The blocks of the column as a function of local coordinates.
    pub open spec fn view_fn(&self) -> spec_fn(int, int, int) -> BlockType {
        |a: int, b: int, c: int| self.block(a, b, c)
    }

    /// The `(is_empty, is_fully_opaque)` flags of the subchunks, bottom up.
    pub open spec fn flags(&self) -> Seq<(bool, bool)> {
        self.subchunks@.map_values(|s: SubChunk| (s.is_empty, s.is_fully_opaque))
    }

    /// Sixteen subchunks of 4096 blocks each.
    pub open spec fn wf(&self) -> bool {
        &&& self.subchunks@.len() == NUM_SUBCHUNKS
        &&& forall|s: int| 0 <= s < NUM_SUBCHUNKS ==> #[trigger] self.subchunks@[s].blocks@.len() == SUBCHUNK_VOLUME
    }

    /// The block at local coordinates `(lx, y, lz)`; air outside the column.
    pub open spec fn block(&self, lx: int, y: int, lz: int) -> BlockType {
        if in_column(lx, y, lz) {
            self.subchunks@[y / SUBCHUNK_HEIGHT as int].blocks@[block_index(lx, y % SUBCHUNK_HEIGHT as int, lz)]
        } else {
            BlockType::Air
        }
    }

    /// An all-air column at chunk coordinates `(cx, cz)`.
    pub fn new(cx: i32, cz: i32) -> (c: Self)
        ensures
            c.wf(),
            c.cx == cx,
            c.cz == cz,
            !c.player_modified,
            forall|lx: int, y: int, lz: int| #[trigger] c.block(lx, y, lz) == BlockType::Air,
            forall|s: int| 0 <= s < NUM_SUBCHUNKS ==> #[trigger] c.subchunks@[s].is_empty && !c.subchunks@[s].is_fully_opaque,
    {
        let mut subchunks: Vec<SubChunk> = Vec::new();
        let mut s: usize = 0;
        while s < NUM_SUBCHUNKS
            invariant
                s <= NUM_SUBCHUNKS,
                subchunks@.len() == s,
                forall|t: int| 0 <= t < s ==> #[trigger] subchunks@[t].blocks@.len() == SUBCHUNK_VOLUME,
                forall|t: int, k: int| 0 <= t < s && 0 <= k < SUBCHUNK_VOLUME ==> #[trigger] subchunks@[t].blocks@[k] == BlockType::Air,
                forall|t: int| 0 <= t < s ==> #[trigger] subchunks@[t].is_empty && !subchunks@[t].is_fully_opaque,
            decreases NUM_SUBCHUNKS - s,
        {
            let mut blocks: Vec<BlockType> = Vec::new();
            let mut k: usize = 0;
            while k < SUBCHUNK_VOLUME
                invariant
                    k <= SUBCHUNK_VOLUME,
                    blocks@.len() == k,
                    forall|j: int| 0 <= j < k ==> #[trigger] blocks@[j] == BlockType::Air,
                decreases SUBCHUNK_VOLUME - k,
            {
                blocks.push(BlockType::Air);
                k = k + 1;
            }
            subchunks.push(SubChunk { blocks, is_empty: true, is_fully_opaque: false });
            s = s + 1;
        }
        let c = Chunk { cx, cz, subchunks, player_modified: false };
        assert forall|lx: int, y: int, lz: int| #[trigger] c.block(lx, y, lz) == BlockType::Air by {
            if in_column(lx, y, lz) {
                assert(0 <= block_index(lx, y % 16, lz) < 4096) by (nonlinear_arith)
                    requires
                        0 <= lx < 16,
                        0 <= y % 16 < 16,
                        0 <= lz < 16,
                ;
            }
        }
        c
    }

    /// The block at local coordinates `(lx, y, lz)`; air outside the column.
    pub fn get_block(&self, lx: i32, y: i32, lz: i32) -> (b: BlockType)
        requires
            self.wf(),
        ensures
            b == self.block(lx as int, y as int, lz as int),
    {
        if lx < 0 || lx >= CHUNK_SIZE || y < 0 || y >= WORLD_HEIGHT || lz < 0 || lz >= CHUNK_SIZE {
            return BlockType::Air;
        }
        let sy = (y / SUBCHUNK_HEIGHT) as usize;
        let ly = y % SUBCHUNK_HEIGHT;
        assert(0 <= block_index(lx as int, ly as int, lz as int) < 4096) by (nonlinear_arith)
            requires
                0 <= lx < 16,
                0 <= ly < 16,
                0 <= lz < 16,
        ;
        let idx = ((lx * SUBCHUNK_HEIGHT + ly) * CHUNK_SIZE + lz) as usize;
        self.subchunks[sy].blocks[idx]
    }

    /// Records in each subchunk whether all its blocks are air.
    pub fn check_empty_subchunks(&mut self)
        requires
            old(self).wf(),
        ensures
            final(self).wf(),
            final(self).cx == old(self).cx,
            final(self).cz == old(self).cz,
            final(self).player_modified == old(self).player_modified,
            forall|s: int|
                0 <= s < NUM_SUBCHUNKS ==> {
                    &&& (#[trigger] final(self).subchunks@[s]).blocks@ == old(self).subchunks@[s].blocks@
                    &&& final(self).subchunks@[s].is_empty == old(self).subchunks@[s].all_air()
                    &&& final(self).subchunks@[s].is_fully_opaque == old(self).subchunks@[s].is_fully_opaque
                },
            final(self).view_fn() == old(self).view_fn(),
    {
        let ghost start = *self;
        let mut s: usize = 0;
        while s < NUM_SUBCHUNKS
            invariant
                self.wf(),
                start.wf(),
                self.cx == start.cx,
                self.cz == start.cz,
                self.player_modified == start.player_modified,
                s <= NUM_SUBCHUNKS,
                forall|t: int|
                    0 <= t < NUM_SUBCHUNKS ==> (#[trigger] self.subchunks@[t]).blocks@ == start.subchunks@[t].blocks@,
                forall|t: int|
                    0 <= t < NUM_SUBCHUNKS ==> (#[trigger] self.subchunks@[t]).is_fully_opaque
                        == start.subchunks@[t].is_fully_opaque,
                forall|t: int| 0 <= t < s ==> (#[trigger] self.subchunks@[t]).is_empty == start.subchunks@[t].all_air(),
            decreases NUM_SUBCHUNKS - s,
        {
            self.subchunks[s].check_empty();
            s = s + 1;
        }
        assert(self.view_fn() =~= start.view_fn());
    }

    /// Puts `block` at local coordinates `(lx, y, lz)`; a position outside the
    /// column is ignored.
    pub fn set_block(&mut self, lx: i32, y: i32, lz: i32, block: BlockType)
        requires
            old(self).wf(),
        ensures
            final(self).wf(),
            final(self).cx == old(self).cx,
            final(self).cz == old(self).cz,
            final(self).player_modified == old(self).player_modified,
            final(self).flags() == old(self).flags(),
            forall|a: int, b: int, c: int| #[trigger] final(self).block(a, b, c) == if a == lx && b == y && c == lz
                && in_column(a, b, c) {
                block
            } else {
                old(self).block(a, b, c)
            },
    {
        if lx < 0 || lx >= CHUNK_SIZE || y < 0 || y >= WORLD_HEIGHT || lz < 0 || lz >= CHUNK_SIZE {
            return;
        }
        let sy = (y / SUBCHUNK_HEIGHT) as usize;
        let ly = y % SUBCHUNK_HEIGHT;
        assert(0 <= block_index(lx as int, ly as int, lz as int) < 4096) by (nonlinear_arith)
            requires
                0 <= lx < 16,
                0 <= ly < 16,
                0 <= lz < 16,
        ;
        let idx = ((lx * SUBCHUNK_HEIGHT + ly) * CHUNK_SIZE + lz) as usize;
        self.subchunks[sy].blocks.set(idx, block);
        assert(self.flags() =~= old(self).flags());
    }
}

} // verus!
