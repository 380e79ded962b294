use vstd::prelude::*;
use std::collections::HashMap;
use crate::block::BlockType;
use crate::save_format::{chunk_coords_in_range, saved_block_at, saved_chunk_of, SavedChunk, CHUNK_VOLUME};
use crate::chunk::Chunk;
use crate::constants::{CHUNK_SIZE, CHUNK_UNLOAD_DISTANCE, NUM_SUBCHUNKS, WORLD_HEIGHT};
use crate::loader::{chunk_key, chunk_key_of, lemma_chunk_key_injective};
use vstd::std_specs::iter::IteratorSpec;

verus! {

/// The chunk coordinate of world coordinate `x` (rounded down).
pub open spec fn chunk_coord(x: int) -> int {
    x / CHUNK_SIZE as int
}

/// The coordinate of world coordinate `x` within its chunk.
pub open spec fn local_coord(x: int) -> int {
    x % CHUNK_SIZE as int
}

/// The block at world position `(x, y, z)` of the loaded chunks `m`: air
/// outside the build height and in chunks not loaded.
pub open spec fn world_block(m: Map<u64, Chunk>, x: int, y: int, z: int) -> BlockType {
    let key = chunk_key(chunk_coord(x) as i32, chunk_coord(z) as i32);
    if 0 <= y < WORLD_HEIGHT && m.contains_key(key) {
        m[key].block(local_coord(x), y, local_coord(z))
    } else {
        BlockType::Air
    }
}

/// Subchunk `sy` of the chunk stored under `key` is fully opaque.
pub open spec fn opaque_at(m: Map<u64, Chunk>, key: u64, sy: int) -> bool {
    m.contains_key(key) && m[key].subchunks@[sy].is_fully_opaque
}

/// Subchunk `sy` of chunk `(cx, cz)` is hidden: it and the subchunks above
/// and below are fully opaque, it is not at the top or bottom of the world,
/// and the same subchunk of each of the four horizontal neighbours is loaded
/// and fully opaque.
pub open spec fn occluded(m: Map<u64, Chunk>, cx: i32, cz: i32, sy: int) -> bool {
    &&& opaque_at(m, chunk_key(cx, cz), sy)
    &&& 0 < sy < NUM_SUBCHUNKS - 1
    &&& opaque_at(m, chunk_key(cx, cz), sy - 1)
    &&& opaque_at(m, chunk_key(cx, cz), sy + 1)
    &&& opaque_at(m, chunk_key((cx - 1) as i32, cz), sy)
    &&& opaque_at(m, chunk_key((cx + 1) as i32, cz), sy)
    &&& opaque_at(m, chunk_key(cx, (cz - 1) as i32), sy)
    &&& opaque_at(m, chunk_key(cx, (cz + 1) as i32), sy)
}

/// The loaded chunks of a world and its seed.
pub struct World {
    pub chunks: HashMap<u64, Chunk>,
    pub seed: u32,
}

impl World {
    /// Every loaded chunk is well formed and stored under the key of its
    /// own coordinates.
    pub open spec fn wf(&self) -> bool {
        forall|k: u64| #[trigger] self.chunks@.contains_key(k) ==> self.chunks@[k].wf() && chunk_key(
            self.chunks@[k].cx,
            self.chunks@[k].cz,
        ) == k
    }

    /// A world of seed `seed` with no chunk loaded.
    pub fn new_with_seed(seed: u32) -> (w: Self)
        ensures
            w.wf(),
            w.seed == seed,
            w.chunks@ == Map::<u64, Chunk>::empty(),
    {
        World { chunks: HashMap::new(), seed }
    }

    /// Whether chunk `(cx, cz)` is loaded.
    pub fn has_chunk(&self, cx: i32, cz: i32) -> (b: bool)
        ensures
            b == self.chunks@.contains_key(chunk_key(cx, cz)),
    {
        let key = chunk_key_of(cx, cz);
        self.chunks.contains_key(&key)
    }

    /// Stores `chunk` under its coordinates, replacing what was there.
    pub fn insert_chunk(&mut self, chunk: Chunk)
        requires
            old(self).wf(),
            chunk.wf(),
        ensures
            final(self).wf(),
            final(self).seed == old(self).seed,
            final(self).chunks@ == old(self).chunks@.insert(chunk_key(chunk.cx, chunk.cz), chunk),
    {
        let key = chunk_key_of(chunk.cx, chunk.cz);
        self.chunks.insert(key, chunk);
    }

    /// The block at world position `(x, y, z)`; air where no chunk is loaded.
    pub fn get_block(&self, x: i32, y: i32, z: i32) -> (b: BlockType)
        requires
            self.wf(),
            0 <= y < WORLD_HEIGHT ==> x >= i32::MIN + CHUNK_SIZE && z >= i32::MIN + CHUNK_SIZE,
        ensures
            b == world_block(self.chunks@, x as int, y as int, z as int),
    {
        if y < 0 || y >= WORLD_HEIGHT {
            return BlockType::Air;
        }
        let cx = if x >= 0 { x / CHUNK_SIZE } else { (x - CHUNK_SIZE + 1) / CHUNK_SIZE };
        let cz = if z >= 0 { z / CHUNK_SIZE } else { (z - CHUNK_SIZE + 1) / CHUNK_SIZE };
        let lx = x - cx * CHUNK_SIZE;
        let lz = z - cz * CHUNK_SIZE;
        assert(cx == chunk_coord(x as int) && lx == local_coord(x as int));
        assert(cz == chunk_coord(z as int) && lz == local_coord(z as int));
        let key = chunk_key_of(cx, cz);
        match self.chunks.get(&key) {
            Some(chunk) => chunk.get_block(lx, y, lz),
            None => BlockType::Air,
        }
    }
}

/// `after` is `before` with block `(x, y, z)` set to `block` when it lies in
/// the build height and its chunk is loaded: the same chunks stay loaded, and
/// every other block at `i32` coordinates is unchanged.
pub open spec fn block_set(before: Map<u64, Chunk>, after: Map<u64, Chunk>, x: i32, y: i32, z: i32, block: BlockType) -> bool {
    &&& after.dom() == before.dom()
    &&& forall|a: i32, b: i32, c: i32| #[trigger] world_block(after, a as int, b as int, c as int) == if a == x && b == y && c == z
        && 0 <= y < WORLD_HEIGHT && before.contains_key(chunk_key(chunk_coord(x as int) as i32, chunk_coord(z as int) as i32)) {
        block
    } else {
        world_block(before, a as int, b as int, c as int)
    }
    &&& forall|k: u64| #[trigger] after.contains_key(k) ==> after[k].cx == before[k].cx && after[k].cz == before[k].cz
}

impl World {
    proof fn lemma_same_chunk(x: i32, a: i32, cx: i32)
        requires
            cx == chunk_coord(x as int),
            chunk_coord(a as int) == cx,
            local_coord(a as int) == local_coord(x as int),
        ensures
            a == x,
    {
    }

    fn modify_block(&mut self, x: i32, y: i32, z: i32, block: BlockType, mark_modified: bool)
        requires
            old(self).wf(),
            0 <= y < WORLD_HEIGHT ==> x >= i32::MIN + CHUNK_SIZE && z >= i32::MIN + CHUNK_SIZE,
        ensures
            final(self).wf(),
            final(self).seed == old(self).seed,
            block_set(old(self).chunks@, final(self).chunks@, x, y, z, block),
            forall|k: u64| #[trigger] final(self).chunks@.contains_key(k) ==> final(self).chunks@[k].player_modified == if mark_modified && 0 <= y < WORLD_HEIGHT && k == chunk_key(chunk_coord(x as int) as i32, chunk_coord(z as int) as i32) {
                true
            } else {
                old(self).chunks@[k].player_modified
            },
            forall|k: u64| #[trigger] final(self).chunks@.contains_key(k) ==> final(self).chunks@[k].flags() == old(self).chunks@[k].flags(),
    {
        let ghost before = self.chunks@;
        if y < 0 || y >= WORLD_HEIGHT {
            assert(self.chunks@ =~= before);
            return;
        }
        assert(x >= i32::MIN + CHUNK_SIZE && z >= i32::MIN + CHUNK_SIZE);
        let cx = if x >= 0 { x / CHUNK_SIZE } else { (x - CHUNK_SIZE + 1) / CHUNK_SIZE };
        let cz = if z >= 0 { z / CHUNK_SIZE } else { (z - CHUNK_SIZE + 1) / CHUNK_SIZE };
        let lx = x - cx * CHUNK_SIZE;
        let lz = z - cz * CHUNK_SIZE;
        assert(cx == chunk_coord(x as int) && lx == local_coord(x as int));
        assert(cz == chunk_coord(z as int) && lz == local_coord(z as int));
        let key = chunk_key_of(cx, cz);
        match self.chunks.remove(&key) {
            Some(mut chunk) => {
                let ghost old_chunk = chunk;
                chunk.set_block(lx, y, lz, block);
                if mark_modified {
                    chunk.player_modified = true;
                }
                self.chunks.insert(key, chunk);
                assert(self.chunks@.dom() =~= before.dom());
                assert forall|a: i32, b: i32, c: i32| #[trigger] world_block(self.chunks@, a as int, b as int, c as int) == if a == x
                    && b == y && c == z && 0 <= y < WORLD_HEIGHT && before.contains_key(key) {
                    block
                } else {
                    world_block(before, a as int, b as int, c as int)
                } by {
                    let ka = chunk_key(chunk_coord(a as int) as i32, chunk_coord(c as int) as i32);
                    if ka == key {
                        lemma_chunk_key_injective(chunk_coord(a as int) as i32, chunk_coord(c as int) as i32, cx, cz);
                        if local_coord(a as int) == lx && local_coord(c as int) == lz {
                            Self::lemma_same_chunk(x, a, cx);
                            Self::lemma_same_chunk(z, c, cz);
                        }
                    }
                }
            },
            None => {
                assert(self.chunks@ =~= before);
            },
        }
    }

    /// Puts `block` at world position `(x, y, z)` if its chunk is loaded and
    /// `y` is within the build height.
    pub fn set_block(&mut self, x: i32, y: i32, z: i32, block: BlockType)
        requires
            old(self).wf(),
            0 <= y < WORLD_HEIGHT ==> x >= i32::MIN + CHUNK_SIZE && z >= i32::MIN + CHUNK_SIZE,
        ensures
            final(self).wf(),
            final(self).seed == old(self).seed,
            block_set(old(self).chunks@, final(self).chunks@, x, y, z, block),
            forall|k: u64| #[trigger] final(self).chunks@.contains_key(k) ==> final(self).chunks@[k].player_modified == old(self).chunks@[k].player_modified,
            forall|k: u64| #[trigger] final(self).chunks@.contains_key(k) ==> final(self).chunks@[k].flags() == old(self).chunks@[k].flags(),
    {
        self.modify_block(x, y, z, block, false);
    }

    /// Puts `block` at world position `(x, y, z)` as `set_block` does, and
    /// marks its chunk as changed by the player.
    pub fn set_block_player(&mut self, x: i32, y: i32, z: i32, block: BlockType)
        requires
            old(self).wf(),
            0 <= y < WORLD_HEIGHT ==> x >= i32::MIN + CHUNK_SIZE && z >= i32::MIN + CHUNK_SIZE,
        ensures
            final(self).wf(),
            final(self).seed == old(self).seed,
            block_set(old(self).chunks@, final(self).chunks@, x, y, z, block),
            forall|k: u64| #[trigger] final(self).chunks@.contains_key(k) ==> final(self).chunks@[k].player_modified == (old(self).chunks@[k].player_modified || (0 <= y < WORLD_HEIGHT && k == chunk_key(chunk_coord(x as int) as i32, chunk_coord(z as int) as i32))),
            forall|k: u64| #[trigger] final(self).chunks@.contains_key(k) ==> final(self).chunks@[k].flags() == old(self).chunks@[k].flags(),
    {
        self.modify_block(x, y, z, block, true);
    }
}

/// Chunk `c` lies within the unload distance of chunk `(pcx, pcz)` along
/// both axes.
pub open spec fn near_player(c: Chunk, pcx: i32, pcz: i32) -> bool {
    -CHUNK_UNLOAD_DISTANCE <= c.cx - pcx <= CHUNK_UNLOAD_DISTANCE && -CHUNK_UNLOAD_DISTANCE <= c.cz - pcz
        <= CHUNK_UNLOAD_DISTANCE
}

impl World {
    /// Whether subchunk `sy` of chunk `(cx, cz)` is hidden behind opaque
    /// neighbours, so that it need not be drawn. The neighbouring chunk
    /// coordinates are only computed once the chunk itself is loaded and its
    /// subchunks `sy - 1` to `sy + 1` are fully opaque.
    pub fn is_subchunk_occluded(&self, cx: i32, cz: i32, sy: i32) -> (b: bool)
        requires
            self.wf(),
            self.chunks@.contains_key(chunk_key(cx, cz)) ==> 0 <= sy < NUM_SUBCHUNKS,
            self.chunks@.contains_key(chunk_key(cx, cz)) && 0 < sy < NUM_SUBCHUNKS - 1
                && opaque_at(self.chunks@, chunk_key(cx, cz), sy - 1) && opaque_at(self.chunks@, chunk_key(cx, cz), sy as int)
                && opaque_at(self.chunks@, chunk_key(cx, cz), sy + 1) ==> i32::MIN < cx < i32::MAX && i32::MIN < cz < i32::MAX,
        ensures
            b == occluded(self.chunks@, cx, cz, sy as int),
    {
        let key = chunk_key_of(cx, cz);
        match self.chunks.get(&key) {
            Some(chunk) => {
                assert(self.chunks@.contains_key(key));
                let s = sy as usize;
                if !chunk.subchunks[s].is_fully_opaque {
                    return false;
                }
                if sy > 0 && !chunk.subchunks[s - 1].is_fully_opaque {
                    return false;
                }
                if sy < NUM_SUBCHUNKS as i32 - 1 && !chunk.subchunks[s + 1].is_fully_opaque {
                    return false;
                }
                if sy == 0 || sy == NUM_SUBCHUNKS as i32 - 1 {
                    return false;
                }
                let neighbors: [(i32, i32); 4] = [(cx - 1, cz), (cx + 1, cz), (cx, cz - 1), (cx, cz + 1)];
                let mut i: usize = 0;
                while i < 4
                    invariant
                        self.wf(),
                        0 < sy < NUM_SUBCHUNKS - 1,
                        s == sy,
                        i32::MIN < cx < i32::MAX,
                        i32::MIN < cz < i32::MAX,
                        i <= 4,
                        neighbors@ == seq![((cx - 1) as i32, cz), ((cx + 1) as i32, cz), (cx, (cz - 1) as i32), (cx, (cz + 1) as i32)],
                        forall|j: int| 0 <= j < i ==> opaque_at(self.chunks@, chunk_key(#[trigger] neighbors@[j].0, neighbors@[j].1), sy as int),
                    decreases 4 - i,
                {
                    let (ncx, ncz) = neighbors[i];
                    let nkey = chunk_key_of(ncx, ncz);
                    match self.chunks.get(&nkey) {
                        Some(nchunk) => {
                            assert(self.chunks@.contains_key(nkey));
                            assert(self.chunks@[nkey].wf());
                            if !nchunk.subchunks[s].is_fully_opaque {
                                assert(!opaque_at(self.chunks@, chunk_key(neighbors@[i as int].0, neighbors@[i as int].1), sy as int));
                                return false;
                            }
                        },
                        None => {
                            return false;
                        },
                    }
                    i = i + 1;
                }
                assert(opaque_at(self.chunks@, chunk_key(neighbors@[0].0, neighbors@[0].1), sy as int));
                assert(opaque_at(self.chunks@, chunk_key(neighbors@[1].0, neighbors@[1].1), sy as int));
                assert(opaque_at(self.chunks@, chunk_key(neighbors@[2].0, neighbors@[2].1), sy as int));
                assert(opaque_at(self.chunks@, chunk_key(neighbors@[3].0, neighbors@[3].1), sy as int));
                true
            },
            None => false,
        }
    }
}

impl World {
    /// Unloads every chunk farther than `CHUNK_UNLOAD_DISTANCE` from the
    /// player's chunk `(player_cx, player_cz)` along either axis.
    pub fn unload_far_chunks(&mut self, player_cx: i32, player_cz: i32)
        requires
            old(self).wf(),
            forall|k: u64| #[trigger] old(self).chunks@.contains_key(k) ==> {
                &&& i32::MIN < old(self).chunks@[k].cx - player_cx <= i32::MAX
                &&& i32::MIN < old(self).chunks@[k].cz - player_cz <= i32::MAX
            },
        ensures
            final(self).wf(),
            final(self).seed == old(self).seed,
            final(self).chunks@ == old(self).chunks@.restrict(
                old(self).chunks@.dom().filter(|k: u64| near_player(old(self).chunks@[k], player_cx, player_cz)),
            ),
    {
        let ghost m = self.chunks@;
        let ghost seed = self.seed;
        let mut far: Vec<u64> = Vec::new();
        let ghost ks = vstd::std_specs::hash::spec_keys_iter(&self.chunks).remaining().unref();
        assert(ks.to_set() == m.dom());
        for k in it: self.chunks.keys()
            invariant
                self.wf(),
                m == self.chunks@,
                seed == self.seed,
                it.seq().unref() == ks,
                ks.to_set() == m.dom(),
                forall|k: u64| #[trigger] m.contains_key(k) ==> {
                    &&& i32::MIN < m[k].cx - player_cx <= i32::MAX
                    &&& i32::MIN < m[k].cz - player_cz <= i32::MAX
                },
                forall|j: int| 0 <= j < far@.len() ==> #[trigger] m.contains_key(far@[j]) && !near_player(m[far@[j]], player_cx, player_cz),
                forall|j: int|
                    0 <= j < it.index() && m.contains_key(ks[j]) && !near_player(m[#[trigger] ks[j]], player_cx, player_cz)
                        ==> far@.contains(ks[j]),
        {
            assert(ks[it.index() as int] == *k);
            assert(ks.to_set().contains(*k));
            let chunk = self.chunks.get(k).unwrap();
            let dx = chunk.cx - player_cx;
            let dz = chunk.cz - player_cz;
            let ghost old_far = far@;
            if dx < -CHUNK_UNLOAD_DISTANCE || dx > CHUNK_UNLOAD_DISTANCE || dz < -CHUNK_UNLOAD_DISTANCE || dz > CHUNK_UNLOAD_DISTANCE {
                assert(m[*k] == *chunk);
                assert(!near_player(m[*k], player_cx, player_cz));
                far.push(*k);
                assert(forall|j: int| 0 <= j < old_far.len() ==> far@[j] == old_far[j]);
                assert forall|x: u64| old_far.contains(x) implies far@.contains(x) by {
                    let i = choose|i: int| 0 <= i < old_far.len() && old_far[i] == x;
                    assert(far@[i] == x);
                }
                assert(far@[far@.len() - 1] == *k);
            }
        }
        assert forall|k: u64| m.contains_key(k) && !near_player(m[k], player_cx, player_cz) implies far@.contains(k) by {
            assert(ks.to_set().contains(k));
            let j = choose|j: int| 0 <= j < ks.len() && ks[j] == k;
            assert(m.contains_key(ks[j]));
        }
        let mut i: usize = 0;
        while i < far.len()
            invariant
                self.wf(),
                seed == self.seed,
                0 <= i <= far@.len(),
                forall|j: int| 0 <= j < far@.len() ==> #[trigger] m.contains_key(far@[j]) && !near_player(m[far@[j]], player_cx, player_cz),
                forall|j: int| 0 <= j < i ==> !self.chunks@.contains_key(#[trigger] far@[j]),
                forall|k: u64| #[trigger] self.chunks@.contains_key(k) ==> m.contains_key(k) && self.chunks@[k] == m[k],
                forall|k: u64| #[trigger] m.contains_key(k) && !far@.contains(k) ==> self.chunks@.contains_key(k),
            decreases far@.len() - i,
        {
            let key = far[i];
            self.chunks.remove(&key);
            i = i + 1;
        }
        assert forall|k: u64| #[trigger] self.chunks@.contains_key(k) implies near_player(m[k], player_cx, player_cz) by {
            if !near_player(m[k], player_cx, player_cz) {
                assert(far@.contains(k));
                let j = choose|j: int| 0 <= j < far@.len() && far@[j] == k;
                assert(!self.chunks@.contains_key(far@[j]));
            }
        }
        assert forall|k: u64| m.contains_key(k) && near_player(m[k], player_cx, player_cz) implies #[trigger] self.chunks@.contains_key(k) by {
            if far@.contains(k) {
                let j = choose|j: int| 0 <= j < far@.len() && far@[j] == k;
                assert(m.contains_key(far@[j]));
            }
        }
        assert(self.chunks@ =~= m.restrict(m.dom().filter(|k: u64| near_player(m[k], player_cx, player_cz))));
    }
}

/// `s` records every block of chunk `c`.
pub open spec fn records_chunk(s: SavedChunk, c: Chunk) -> bool {
    &&& s.cx == c.cx
    &&& s.cz == c.cz
    &&& s.blocks@.len() == CHUNK_VOLUME
    &&& forall|i: int| 0 <= i < CHUNK_VOLUME ==> #[trigger] s.blocks@[i] == saved_block_at(c, i)
}

/// Keys of the loaded chunks the player changed.
pub open spec fn modified_keys(m: Map<u64, Chunk>) -> Set<u64> {
    m.dom().filter(|k: u64| m[k].player_modified)
}

impl World {
    /// The records of the chunks the player changed, each once, in the order
    /// the chunk table is walked.
    pub fn saved_chunks(&self) -> (v: Vec<SavedChunk>)
        requires
            self.wf(),
            forall|k: u64| #[trigger] self.chunks@.contains_key(k) ==> chunk_coords_in_range(self.chunks@[k]),
        ensures
            exists|order: Seq<u64>| {
                &&& order.no_duplicates()
                &&& order.to_set() == modified_keys(self.chunks@)
                &&& order.len() == v@.len()
                &&& forall|i: int| 0 <= i < order.len() ==> records_chunk(#[trigger] v@[i], self.chunks@[order[i]])
            },
    {
        let ghost m = self.chunks@;
        let ghost ks = vstd::std_specs::hash::spec_keys_iter(&self.chunks).remaining().unref();
        assert(ks.to_set() == m.dom());
        assert(ks.no_duplicates());
        let mut out: Vec<SavedChunk> = Vec::new();
        let ghost mut order: Seq<u64> = Seq::empty();
        for k in it: self.chunks.keys()
            invariant
                self.wf(),
                m == self.chunks@,
                it.seq().unref() == ks,
                ks.to_set() == m.dom(),
                ks.no_duplicates(),
                forall|k: u64| #[trigger] m.contains_key(k) ==> chunk_coords_in_range(m[k]),
                order.len() == out@.len(),
                order.no_duplicates(),
                forall|i: int| 0 <= i < order.len() ==> #[trigger] m.contains_key(order[i]) && m[order[i]].player_modified,
                forall|j: int| 0 <= j < it.index() && m.contains_key(ks[j]) && m[#[trigger] ks[j]].player_modified ==> order.contains(ks[j]),
                forall|i: int| 0 <= i < order.len() ==> records_chunk(#[trigger] out@[i], m[order[i]]),
                forall|j: int| it.index() <= j < ks.len() ==> !order.contains(#[trigger] ks[j]),
        {
            let ghost idx = it.index() as int;
            assert(ks[idx] == *k);
            assert(ks.to_set().contains(*k));
            let chunk = self.chunks.get(k).unwrap();
            assert(m[*k] == *chunk);
            if chunk.player_modified {
                let rec = saved_chunk_of(chunk);
                out.push(rec);
                proof {
                    let old_order = order;
                    assert(!old_order.contains(*k));
                    order = order.push(*k);
                    assert forall|j: int| idx + 1 <= j < ks.len() implies !order.contains(#[trigger] ks[j]) by {
                        assert(!old_order.contains(ks[j]));
                        assert(ks[j] != ks[idx]);
                        if order.contains(ks[j]) {
                            let i = choose|i: int| 0 <= i < order.len() && order[i] == ks[j];
                            if i < old_order.len() {
                                assert(old_order[i] == ks[j]);
                            }
                        }
                    }
                    assert forall|x: u64| old_order.contains(x) implies order.contains(x) by {
                        let i = choose|i: int| 0 <= i < old_order.len() && old_order[i] == x;
                        assert(order[i] == x);
                    }
                    assert(order[order.len() - 1] == *k);
                }
            }
        }
        proof {
            assert forall|x: u64| order.to_set().contains(x) <==> modified_keys(m).contains(x) by {
                if modified_keys(m).contains(x) {
                    assert(ks.to_set().contains(x));
                    let j = choose|j: int| 0 <= j < ks.len() && ks[j] == x;
                    assert(m.contains_key(ks[j]));
                }
                if order.to_set().contains(x) {
                    let i = choose|i: int| 0 <= i < order.len() && order[i] == x;
                    assert(m.contains_key(order[i]));
                }
            }
            assert(order.to_set() =~= modified_keys(m));
        }
        out
    }
}

/// Undo law of block edits: putting a block somewhere and then putting back
/// the block that was there leaves every block of the world as it was.
pub proof fn lemma_set_block_undo(
    m0: Map<u64, Chunk>,
    m1: Map<u64, Chunk>,
    m2: Map<u64, Chunk>,
    x: i32,
    y: i32,
    z: i32,
    block: BlockType,
)
    requires
        block_set(m0, m1, x, y, z, block),
        block_set(m1, m2, x, y, z, world_block(m0, x as int, y as int, z as int)),
    ensures
        m2.dom() == m0.dom(),
        forall|a: i32, b: i32, c: i32| #[trigger] world_block(m2, a as int, b as int, c as int) == world_block(m0, a as int, b as int, c as int),
{
    assert forall|a: i32, b: i32, c: i32| #[trigger] world_block(m2, a as int, b as int, c as int) == world_block(m0, a as int, b as int, c as int) by {
        assert(world_block(m2, a as int, b as int, c as int) == world_block(m1, a as int, b as int, c as int) || (a == x && b == y && c == z));
        assert(world_block(m1, a as int, b as int, c as int) == world_block(m0, a as int, b as int, c as int) || (a == x && b == y && c == z));
        if a == x && b == y && c == z {
            let key = chunk_key(chunk_coord(x as int) as i32, chunk_coord(z as int) as i32);
            if !(0 <= y < WORLD_HEIGHT && m0.contains_key(key)) {
                assert(world_block(m0, x as int, y as int, z as int) == BlockType::Air);
            }
        }
    }
}

} // verus!
