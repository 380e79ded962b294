use vstd::prelude::*;
use vstd::multiset::Multiset;

verus! {

/// Most subchunks the unified buffers hold at once.
pub const MAX_SUBCHUNKS: usize = 32768;

/// Capacity of the unified vertex buffer, in vertices.
pub const MAX_VERTICES: u32 = 10_000_000;

/// Capacity of the unified index buffer, in indices.
pub const MAX_INDICES: u32 = 64_000_000;

/// Identifies one 16-block-high section of a chunk column.
#[derive(Debug, Clone, Copy, PartialEq, Eq, Hash, Structural)]
pub struct SubchunkKey {
    pub chunk_x: i32,
    pub chunk_z: i32,
    pub subchunk_y: i32,
}

/// Where one subchunk's mesh lives in the unified buffers, and the metadata
/// slot that describes it to the culling shader.
#[derive(Debug, Clone, Copy, PartialEq, Eq, Structural)]
pub struct SubchunkAlloc {
    pub vertex_offset: u32,
    pub vertex_count: u32,
    pub index_offset: u32,
    pub index_count: u32,
    pub slot_index: usize,
}

/// A reclaimed run of vertex or index slots.
#[derive(Debug, Clone, Copy, PartialEq, Eq, Structural)]
pub struct FreeBlock {
    pub offset: u32,
    pub count: u32,
}

/// The content of the indirect-drawing bookkeeping.
#[verifier::ext_equal]
pub struct IndirectView {
    /// Live allocations in the order they were made, at most one per key.
    pub allocations: Seq<(SubchunkKey, SubchunkAlloc)>,
    pub next_vertex_offset: u32,
    pub next_index_offset: u32,
    pub active_subchunk_count: u32,
    /// Unused metadata slots; the last one is handed out next.
    pub free_slots: Seq<usize>,
    pub free_vertex_blocks: Seq<FreeBlock>,
    pub free_index_blocks: Seq<FreeBlock>,
}

/// What `upload_subchunk` leaves for the caller to do on the GPU.
#[derive(Debug)]
pub struct UploadPlan {
    /// The placement to upload the mesh to, when one was made.
    pub placed: Option<SubchunkAlloc>,
    /// `false` when the vertex or index buffer is full or no metadata slot
    /// is left.
    pub success: bool,
}

/// The index of the allocation for `key`, if there is one.
pub open spec fn key_index(s: Seq<(SubchunkKey, SubchunkAlloc)>, key: SubchunkKey) -> Option<int> {
    if exists|i: int| 0 <= i < s.len() && (#[trigger] s[i]).0 == key {
        Some(choose|i: int| 0 <= i < s.len() && (#[trigger] s[i]).0 == key)
    } else {
        None
    }
}

/// No key has two allocations.
pub open spec fn keys_distinct(s: Seq<(SubchunkKey, SubchunkAlloc)>) -> bool {
    forall|i: int, j: int| 0 <= i < j < s.len() ==> (#[trigger] s[i]).0 != (#[trigger] s[j]).0
}

/// `blocks` extended by the run `[offset, offset + count)` when it is not empty.
pub open spec fn reclaim(blocks: Seq<FreeBlock>, offset: u32, count: u32) -> Seq<FreeBlock> {
    if count > 0 { blocks.push(FreeBlock { offset, count }) } else { blocks }
}

/// The bookkeeping once the allocation at position `i` is dropped: its slot
/// and its (non-empty) vertex and index runs become free, and the active count
/// drops by one.
pub open spec fn drop_allocation(v: IndirectView, i: int) -> IndirectView {
    let a = v.allocations[i].1;
    IndirectView {
        allocations: v.allocations.remove(i),
        active_subchunk_count: (v.allocations.len() - 1) as u32,
        free_slots: v.free_slots.push(a.slot_index),
        free_vertex_blocks: reclaim(v.free_vertex_blocks, a.vertex_offset, a.vertex_count),
        free_index_blocks: reclaim(v.free_index_blocks, a.index_offset, a.index_count),
        ..v
    }
}

/// The bookkeeping with the allocation for `key` dropped, if there was one.
pub open spec fn without_key(v: IndirectView, key: SubchunkKey) -> IndirectView {
    match key_index(v.allocations, key) {
        Some(i) => drop_allocation(v, i),
        None => v,
    }
}

/// The metadata slots of the allocations, in order.
pub open spec fn slots_of(s: Seq<(SubchunkKey, SubchunkAlloc)>) -> Seq<usize> {
    s.map_values(|e: (SubchunkKey, SubchunkAlloc)| e.1.slot_index)
}

/// The bookkeeping after a full reset of the buffers: every allocation is
/// dropped, its slot freed, the append offsets go back to 0 and the free runs
/// are forgotten.
pub open spec fn reset_buffers(v: IndirectView) -> IndirectView {
    IndirectView {
        allocations: Seq::empty(),
        next_vertex_offset: 0,
        next_index_offset: 0,
        active_subchunk_count: 0,
        free_slots: v.free_slots + slots_of(v.allocations),
        free_vertex_blocks: Seq::empty(),
        free_index_blocks: Seq::empty(),
    }
}

/// `b` can take `count` entries.
pub open spec fn fits(b: FreeBlock, count: u32) -> bool {
    b.count >= count
}

/// `i` is the best fit for `count`: it fits, wastes the least, and is the
/// first of the blocks that waste that little.
pub open spec fn is_best_fit(s: Seq<FreeBlock>, count: u32, i: int) -> bool {
    &&& 0 <= i < s.len()
    &&& fits(s[i], count)
    &&& forall|j: int| 0 <= j < s.len() && fits(#[trigger] s[j], count) ==> s[j].count >= s[i].count
    &&& forall|j: int| 0 <= j < i && fits(#[trigger] s[j], count) ==> s[j].count > s[i].count
}

/// The best-fit block for `count`, if any block fits.
pub open spec fn best_fit(s: Seq<FreeBlock>, count: u32) -> Option<int> {
    if exists|i: int| is_best_fit(s, count, i) {
        Some(choose|i: int| is_best_fit(s, count, i))
    } else {
        None
    }
}

/// A free list once `count` entries are cut from the front of block `idx`:
/// the block leaves the list and a non-empty remainder goes to its end.
pub open spec fn cut_block(s: Seq<FreeBlock>, idx: int, count: u32) -> Seq<FreeBlock> {
    let b = s[idx];
    if b.count > count {
        s.remove(idx).push(FreeBlock { offset: (b.offset + count) as u32, count: (b.count - count) as u32 })
    } else {
        s.remove(idx)
    }
}

/// Placing `count` vertices: `(state, offset, reused a free block)`. Without
/// a fitting free block the run is appended at the end of the buffer.
pub open spec fn place_vertices(v: IndirectView, found: Option<int>, count: u32) -> (IndirectView, u32, bool) {
    match found {
        Some(idx) => (
            IndirectView { free_vertex_blocks: cut_block(v.free_vertex_blocks, idx, count), ..v },
            v.free_vertex_blocks[idx].offset,
            true,
        ),
        None => (v, v.next_vertex_offset, false),
    }
}

/// Placing `count` indices: `(state, offset, reused a free block)`. Without
/// a fitting free block the run is appended at the end of the buffer.
pub open spec fn place_indices(v: IndirectView, found: Option<int>, count: u32) -> (IndirectView, u32, bool) {
    match found {
        Some(idx) => (
            IndirectView { free_index_blocks: cut_block(v.free_index_blocks, idx, count), ..v },
            v.free_index_blocks[idx].offset,
            true,
        ),
        None => (v, v.next_index_offset, false),
    }
}

/// The vertex buffer cannot take `count` more vertices: no free block fits
/// and appending would pass its end.
pub open spec fn vertex_buffer_full(v: IndirectView, count: u32) -> bool {
    best_fit(v.free_vertex_blocks, count) is None && v.next_vertex_offset + count > MAX_VERTICES
}

/// The index buffer cannot take `count` more indices: no free block fits and
/// appending would pass its end.
pub open spec fn index_buffer_full(v: IndirectView, count: u32) -> bool {
    best_fit(v.free_index_blocks, count) is None && v.next_index_offset + count > MAX_INDICES
}

/// The state after an upload of a mesh with `vertex_len` vertices and
/// `index_len` indices for `key`, the placement made (if any) and the
/// reported success. The earlier placement of `key` is dropped in every
/// case. An empty mesh is placed nowhere and succeeds; a mesh that a full
/// buffer cannot take (a mesh larger than a whole buffer among them), or that
/// finds no metadata slot, is refused and nothing else changes.
pub open spec fn upload_result(v: IndirectView, key: SubchunkKey, vertex_len: usize, index_len: usize)
    -> (IndirectView, Option<SubchunkAlloc>, bool)
{
    let s1 = without_key(v, key);
    let vc = vertex_len as u32;
    let ic = index_len as u32;
    if vertex_len == 0 || index_len == 0 {
        (s1, None, true)
    } else if vertex_len > MAX_VERTICES || index_len > MAX_INDICES || vertex_buffer_full(s1, vc) || index_buffer_full(s1, ic) || s1.free_slots.len() == 0 {
        (s1, None, false)
    } else {
        let (s2, vo, vr) = place_vertices(s1, best_fit(s1.free_vertex_blocks, vc), vc);
        let (s3, io, ir) = place_indices(s2, best_fit(s1.free_index_blocks, ic), ic);
        let a = SubchunkAlloc {
            vertex_offset: vo,
            vertex_count: vc,
            index_offset: io,
            index_count: ic,
            slot_index: s3.free_slots.last(),
        };
        let allocations = s3.allocations.push((key, a));
        (
            IndirectView {
                allocations,
                next_vertex_offset: if vr { s3.next_vertex_offset } else { (s3.next_vertex_offset + vc) as u32 },
                next_index_offset: if ir { s3.next_index_offset } else { (s3.next_index_offset + ic) as u32 },
                active_subchunk_count: allocations.len() as u32,
                free_slots: s3.free_slots.drop_last(),
                ..s3
            },
            Some(a),
            true,
        )
    }
}

/// Every run lies inside a buffer of `max` entries.
pub open spec fn blocks_within(s: Seq<FreeBlock>, max: u32) -> bool {
    forall|i: int| 0 <= i < s.len() ==> (#[trigger] s[i]).offset + s[i].count <= max
}

/// The shape the bookkeeping keeps under its own operations.
pub open spec fn indirect_wf(v: IndirectView) -> bool {
    &&& keys_distinct(v.allocations)
    &&& v.active_subchunk_count == v.allocations.len()
    &&& v.allocations.len() + v.free_slots.len() == MAX_SUBCHUNKS
    &&& v.next_vertex_offset <= MAX_VERTICES
    &&& v.next_index_offset <= MAX_INDICES
    &&& blocks_within(v.free_vertex_blocks, MAX_VERTICES)
    &&& blocks_within(v.free_index_blocks, MAX_INDICES)
    &&& forall|i: int| 0 <= i < v.allocations.len() ==> {
        let a = (#[trigger] v.allocations[i]).1;
        &&& a.vertex_offset + a.vertex_count <= MAX_VERTICES
        &&& a.index_offset + a.index_count <= MAX_INDICES
    }
}

/// The CPU-side bookkeeping of GPU indirect drawing: which subchunk occupies
/// which part of the unified vertex and index buffers and which metadata
/// slot, plus the free runs and slots available for reuse.
pub struct IndirectState {
    allocations: Vec<(SubchunkKey, SubchunkAlloc)>,
    next_vertex_offset: u32,
    next_index_offset: u32,
    active_subchunk_count: u32,
    free_slots: Vec<usize>,
    free_vertex_blocks: Vec<FreeBlock>,
    free_index_blocks: Vec<FreeBlock>,
}

impl View for IndirectState {
    type V = IndirectView;

    closed spec fn view(&self) -> IndirectView {
        IndirectView {
            allocations: self.allocations@,
            next_vertex_offset: self.next_vertex_offset,
            next_index_offset: self.next_index_offset,
            active_subchunk_count: self.active_subchunk_count,
            free_slots: self.free_slots@,
            free_vertex_blocks: self.free_vertex_blocks@,
            free_index_blocks: self.free_index_blocks@,
        }
    }
}

/// The slots `MAX_SUBCHUNKS - 1` down to `0`, so that slot 0 is handed out first.
pub open spec fn all_slots_descending() -> Seq<usize> {
    Seq::new(MAX_SUBCHUNKS as nat, |i: int| (MAX_SUBCHUNKS - 1 - i) as usize)
}

impl IndirectState {
    /// Nothing placed, every slot free.
    pub fn new() -> (s: Self)
        ensures
            s@.allocations.len() == 0,
            s@.next_vertex_offset == 0,
            s@.next_index_offset == 0,
            s@.active_subchunk_count == 0,
            s@.free_slots == all_slots_descending(),
            s@.free_vertex_blocks.len() == 0,
            s@.free_index_blocks.len() == 0,
            indirect_wf(s@),
            slots_conserved(s@),
    {
        proof {
            broadcast use vstd::multiset::group_multiset_axioms;
            broadcast use vstd::seq_lib::group_to_multiset_ensures;
            assert(slots_of(Seq::<(SubchunkKey, SubchunkAlloc)>::empty()) =~= Seq::<usize>::empty());
            assert(Seq::<usize>::empty().to_multiset() =~= Multiset::<usize>::empty());
            assert(all_slots_descending().to_multiset().add(Multiset::<usize>::empty()) =~= all_slots_descending().to_multiset());
        }
        IndirectState {
            allocations: Vec::new(),
            next_vertex_offset: 0,
            next_index_offset: 0,
            active_subchunk_count: 0,
            free_slots: descending_slots(),
            free_vertex_blocks: Vec::new(),
            free_index_blocks: Vec::new(),
        }
    }

    /// Number of subchunks placed (an upper bound for the draw count).
    pub fn active_count(&self) -> (n: u32)
        ensures
            n == self@.active_subchunk_count,
    {
        self.active_subchunk_count
    }

    /// Whether `key` is placed.
    pub fn has_subchunk(&self, key: &SubchunkKey) -> (b: bool)
        ensures
            b == key_index(self@.allocations, *key) is Some,
    {
        let r = self.find_key(*key);
        r.is_some()
    }

    /// The position of the allocation for `key`.
    fn find_key(&self, key: SubchunkKey) -> (r: Option<usize>)
        ensures
            match key_index(self@.allocations, key) {
                Some(i) => keys_distinct(self@.allocations) ==> r == Some(i as usize),
                None => r is None,
            },
            match r {
                Some(i) => i < self@.allocations.len() && self@.allocations[i as int].0 == key,
                None => key_index(self@.allocations, key) is None,
            },
    {
        let n = self.allocations.len();
        let mut i: usize = 0;
        while i < n
            invariant
                n == self.allocations@.len(),
                i <= n,
                forall|j: int| 0 <= j < i ==> (#[trigger] self.allocations@[j]).0 != key,
            decreases n - i,
        {
            if self.allocations[i].0 == key {
                proof {
                    let s = self.allocations@;
                    let c = choose|j: int| 0 <= j < s.len() && (#[trigger] s[j]).0 == key;
                    assert(0 <= c < s.len() && s[c].0 == key);
                    if keys_distinct(s) && c != i {
                        if c < i {
                            assert(s[c].0 != s[i as int].0);
                        } else {
                            assert(s[i as int].0 != s[c].0);
                        }
                    }
                }
                return Some(i);
            }
            i = i + 1;
        }
        None
    }

    /// Drops the allocation at position `i`, freeing its slot and runs.
    fn drop_at(&mut self, i: usize)
        requires
            i < old(self)@.allocations.len(),
            indirect_wf(old(self)@),
        ensures
            final(self)@ == drop_allocation(old(self)@, i as int),
    {
        let (_, a) = self.allocations.remove(i);
        if a.vertex_count > 0 {
            self.free_vertex_blocks.push(FreeBlock { offset: a.vertex_offset, count: a.vertex_count });
        }
        if a.index_count > 0 {
            self.free_index_blocks.push(FreeBlock { offset: a.index_offset, count: a.index_count });
        }
        self.free_slots.push(a.slot_index);
        self.active_subchunk_count = self.allocations.len() as u32;
    }

    /// Resets the buffers: every placement is forgotten, the slots in use
    /// become free, both buffers count as empty and the free runs are dropped.
    /// Returns the slots whose metadata must be disabled. This is the way out
    /// when an upload finds a buffer full.
    pub fn clear_gpu_data(&mut self) -> (zeroed: Vec<usize>)
        requires
            indirect_wf(old(self)@),
        ensures
            final(self)@ == reset_buffers(old(self)@),
            zeroed@ == slots_of(old(self)@.allocations),
            indirect_wf(final(self)@),
            slots_conserved(old(self)@) ==> slots_conserved(final(self)@),
    {
        proof {
            if slots_conserved(old(self)@) {
                lemma_reset_conserves(old(self)@);
            }
        }
        let mut zeroed: Vec<usize> = Vec::new();
        let n = self.allocations.len();
        let mut i: usize = 0;
        while i < n
            invariant
                n == self.allocations@.len(),
                self.allocations@ == old(self)@.allocations,
                i <= n,
                zeroed@ == slots_of(old(self)@.allocations.take(i as int)),
                self.free_slots@ == old(self)@.free_slots + zeroed@,
            decreases n - i,
        {
            let slot = self.allocations[i].1.slot_index;
            zeroed.push(slot);
            self.free_slots.push(slot);
            assert(old(self)@.allocations.take(i as int + 1) =~= old(self)@.allocations.take(i as int).push(old(self)@.allocations[i as int]));
            assert(slots_of(old(self)@.allocations.take(i as int + 1)) =~= slots_of(old(self)@.allocations.take(i as int)).push(slot));
            i = i + 1;
        }
        assert(old(self)@.allocations.take(n as int) =~= old(self)@.allocations);
        self.allocations.clear();
        self.next_vertex_offset = 0;
        self.next_index_offset = 0;
        self.active_subchunk_count = 0;
        self.free_vertex_blocks.clear();
        self.free_index_blocks.clear();
        zeroed
    }

    /// Removes `key` and reclaims its runs and slot; returns the slot whose
    /// metadata must be disabled, or `None` when `key` was not placed.
    pub fn remove_subchunk(&mut self, key: SubchunkKey) -> (r: Option<usize>)
        requires
            indirect_wf(old(self)@),
        ensures
            match key_index(old(self)@.allocations, key) {
                Some(i) => r == Some(old(self)@.allocations[i].1.slot_index)
                    && final(self)@ == drop_allocation(old(self)@, i),
                None => r is None && final(self)@ == old(self)@,
            },
            indirect_wf(final(self)@),
            slots_conserved(old(self)@) ==> slots_conserved(final(self)@),
    {
        proof {
            if slots_conserved(old(self)@) {
                lemma_slots_conserved(old(self)@, key, 0, 0);
            }
        }
        match self.find_key(key) {
            Some(i) => {
                let slot = self.allocations[i].1.slot_index;
                proof {
                    lemma_drop_keeps_wf(self@, i as int);
                }
                self.drop_at(i);
                Some(slot)
            },
            None => None,
        }
    }

    /// Places the mesh of subchunk `key` (`vertex_len` vertices, `index_len`
    /// indices) and reports whether it succeeded. An earlier placement of
    /// `key` is dropped first. Runs are taken best-fit from the free lists, or
    /// appended at the end of the buffers. An empty mesh is placed nowhere and
    /// counts as success. When the vertex or index buffer is full (a mesh
    /// larger than a whole buffer included), or no metadata slot is left, the
    /// mesh is refused and nothing else changes: no free run is cut; the
    /// caller may then `clear_gpu_data` and upload again. The active count
    /// always equals the number of placements.
    pub fn upload_subchunk(&mut self, key: SubchunkKey, vertex_len: usize, index_len: usize) -> (plan: UploadPlan)
        requires
            indirect_wf(old(self)@),
        ensures
            final(self)@ == upload_result(old(self)@, key, vertex_len, index_len).0,
            plan.placed == upload_result(old(self)@, key, vertex_len, index_len).1,
            plan.success == upload_result(old(self)@, key, vertex_len, index_len).2,
            indirect_wf(final(self)@),
            slots_conserved(old(self)@) ==> slots_conserved(final(self)@),
    {
        proof {
            if slots_conserved(old(self)@) {
                lemma_slots_conserved(old(self)@, key, vertex_len, index_len);
            }
        }
        match self.find_key(key) {
            Some(i) => {
                proof {
                    lemma_drop_keeps_wf(self@, i as int);
                }
                self.drop_at(i);
            },
            None => {},
        }
        let ghost s1 = self@;
        proof {
            lemma_without_key_absent(old(self)@, key);
        }
        assert(s1 == without_key(old(self)@, key));
        if vertex_len == 0 || index_len == 0 {
            return UploadPlan { placed: None, success: true };
        }
        if vertex_len as u64 > MAX_VERTICES as u64 || index_len as u64 > MAX_INDICES as u64 {
            return UploadPlan { placed: None, success: false };
        }
        let vc = vertex_len as u32;
        let ic = index_len as u32;
        let vertex_alloc = find_free_block(&self.free_vertex_blocks, vc);
        let index_alloc = find_free_block(&self.free_index_blocks, ic);
        if (vertex_alloc.is_none() && self.next_vertex_offset as u64 + vc as u64 > MAX_VERTICES as u64)
            || (index_alloc.is_none() && self.next_index_offset as u64 + ic as u64 > MAX_INDICES as u64)
            || self.free_slots.len() == 0 {
            return UploadPlan { placed: None, success: false };
        }
        let (vertex_offset, reused_vertex) = match vertex_alloc {
            Some((idx, block)) => {
                proof {
                    assert(is_best_fit(s1.free_vertex_blocks, vc, idx as int));
                }
                self.free_vertex_blocks.remove(idx);
                if block.count > vc {
                    self.free_vertex_blocks.push(FreeBlock { offset: block.offset + vc, count: block.count - vc });
                }
                assert(self.free_vertex_blocks@ =~= cut_block(s1.free_vertex_blocks, idx as int, vc));
                (block.offset, true)
            },
            None => (self.next_vertex_offset, false),
        };
        let ghost s2 = self@;
        assert(s2 =~= place_vertices(s1, best_fit(s1.free_vertex_blocks, vc), vc).0);
        let (index_offset, reused_index) = match index_alloc {
            Some((idx, block)) => {
                proof {
                    assert(is_best_fit(s1.free_index_blocks, ic, idx as int));
                    assert(s2.free_index_blocks == s1.free_index_blocks);
                }
                self.free_index_blocks.remove(idx);
                if block.count > ic {
                    self.free_index_blocks.push(FreeBlock { offset: block.offset + ic, count: block.count - ic });
                }
                assert(self.free_index_blocks@ =~= cut_block(s2.free_index_blocks, idx as int, ic));
                (block.offset, true)
            },
            None => (self.next_index_offset, false),
        };
        let ghost s3 = self@;
        assert(s3 =~= place_indices(s2, best_fit(s1.free_index_blocks, ic), ic).0);
        let slot_index = self.free_slots.pop().unwrap();
        let alloc = SubchunkAlloc {
            vertex_offset,
            vertex_count: vc,
            index_offset,
            index_count: ic,
            slot_index,
        };
        if !reused_vertex {
            self.next_vertex_offset = self.next_vertex_offset + vc;
        }
        if !reused_index {
            self.next_index_offset = self.next_index_offset + ic;
        }
        self.allocations.push((key, alloc));
        self.active_subchunk_count = self.allocations.len() as u32;
        proof {
            lemma_upload_keeps_wf(old(self)@, key, vertex_len, index_len);
        }
        UploadPlan { placed: Some(alloc), success: true }
    }

    /// Forgets every placement and makes every slot free again.
    pub fn clear(&mut self)
        ensures
            final(self)@.allocations.len() == 0,
            final(self)@.next_vertex_offset == 0,
            final(self)@.next_index_offset == 0,
            final(self)@.active_subchunk_count == 0,
            final(self)@.free_slots == all_slots_descending(),
            final(self)@.free_vertex_blocks.len() == 0,
            final(self)@.free_index_blocks.len() == 0,
            indirect_wf(final(self)@),
            slots_conserved(final(self)@),
    {
        proof {
            broadcast use vstd::multiset::group_multiset_axioms;
            broadcast use vstd::seq_lib::group_to_multiset_ensures;
            assert(slots_of(Seq::<(SubchunkKey, SubchunkAlloc)>::empty()) =~= Seq::<usize>::empty());
            assert(Seq::<usize>::empty().to_multiset() =~= Multiset::<usize>::empty());
            assert(all_slots_descending().to_multiset().add(Multiset::<usize>::empty()) =~= all_slots_descending().to_multiset());
        }
        self.allocations.clear();
        self.next_vertex_offset = 0;
        self.next_index_offset = 0;
        self.active_subchunk_count = 0;
        self.free_slots = descending_slots();
        self.free_vertex_blocks.clear();
        self.free_index_blocks.clear();
    }
}

/// `MAX_SUBCHUNKS - 1` down to `0`.
fn descending_slots() -> (v: Vec<usize>)
    ensures
        v@ == all_slots_descending(),
{
    let mut v: Vec<usize> = Vec::new();
    let mut k: usize = MAX_SUBCHUNKS;
    while k > 0
        invariant
            k <= MAX_SUBCHUNKS,
            v@ =~= all_slots_descending().take(MAX_SUBCHUNKS - k),
        decreases k,
    {
        k = k - 1;
        v.push(k);
    }
    v
}

/// Placement law: after an upload, `key` is placed exactly when the upload
/// made a placement, and then it is placed where the upload says; after a
/// removal, `key` is not placed.
pub proof fn lemma_upload_then_lookup(v: IndirectView, key: SubchunkKey, vertex_len: usize, index_len: usize)
    requires
        indirect_wf(v),
    ensures
        ({
            let (r, placed, _) = upload_result(v, key, vertex_len, index_len);
            match placed {
                Some(a) => key_index(r.allocations, key) == Some(r.allocations.len() - 1)
                    && r.allocations.last() == (key, a),
                None => key_index(r.allocations, key) is None,
            }
        }),
        key_index(without_key(v, key).allocations, key) is None,
{
    lemma_without_key_absent(v, key);
    let (r, placed, _) = upload_result(v, key, vertex_len, index_len);
    if vertex_len > 0 && index_len > 0 && vertex_len <= MAX_VERTICES && index_len <= MAX_INDICES && placed is Some {
        lemma_upload_keeps_wf(v, key, vertex_len, index_len);
        let s1 = without_key(v, key);
        let vc = vertex_len as u32;
        let ic = index_len as u32;
        let s2 = place_vertices(s1, best_fit(s1.free_vertex_blocks, vc), vc).0;
        let s3 = place_indices(s2, best_fit(s1.free_index_blocks, ic), ic).0;
        assert(key_index(s3.allocations, key) is None);
        if placed is Some {
            let k = r.allocations.len() - 1;
            assert(r.allocations[k].0 == key);
            let c = choose|j: int| 0 <= j < r.allocations.len() && (#[trigger] r.allocations[j]).0 == key;
            if c != k {
                assert(r.allocations[c].0 != r.allocations[k].0);
            }
        }
    }
}

/// Every metadata slot is either free or used by exactly one placement: the
/// free slots and the slots of the placements together are exactly the slots
/// `0..MAX_SUBCHUNKS`, each once.
pub open spec fn slots_conserved(v: IndirectView) -> bool {
    v.free_slots.to_multiset().add(slots_of(v.allocations).to_multiset()) == all_slots_descending().to_multiset()
}

proof fn lemma_slots_of_remove(s: Seq<(SubchunkKey, SubchunkAlloc)>, i: int)
    requires
        0 <= i < s.len(),
    ensures
        slots_of(s.remove(i)) == slots_of(s).remove(i),
        slots_of(s)[i] == s[i].1.slot_index,
{
    assert(slots_of(s.remove(i)) =~= slots_of(s).remove(i));
}

proof fn lemma_drop_conserves(v: IndirectView, i: int)
    requires
        slots_conserved(v),
        0 <= i < v.allocations.len(),
    ensures
        slots_conserved(drop_allocation(v, i)),
{
    broadcast use vstd::multiset::group_multiset_axioms;
    broadcast use vstd::seq_lib::to_multiset_build;
    broadcast use vstd::seq_lib::to_multiset_remove;
    let s = v.allocations;
    let slot = s[i].1.slot_index;
    lemma_slots_of_remove(s, i);
    vstd::seq_lib::to_multiset_remove(slots_of(s), i);
    vstd::seq_lib::to_multiset_build(v.free_slots, slot);
    let d = drop_allocation(v, i);
    assert(slots_of(s).to_multiset().count(slot) > 0) by {
        vstd::seq_lib::to_multiset_contains(slots_of(s), slot);
        assert(slots_of(s).contains(slot));
    }
    assert(d.free_slots.to_multiset().add(slots_of(d.allocations).to_multiset())
        =~= v.free_slots.to_multiset().add(slots_of(v.allocations).to_multiset()));
}

proof fn lemma_without_key_conserves(v: IndirectView, key: SubchunkKey)
    requires
        slots_conserved(v),
    ensures
        slots_conserved(without_key(v, key)),
{
    match key_index(v.allocations, key) {
        Some(i) => {
            let s = v.allocations;
            assert(0 <= i < s.len() && s[i].0 == key);
            lemma_drop_conserves(v, i);
        },
        None => {},
    }
}

proof fn lemma_reset_conserves(v: IndirectView)
    requires
        slots_conserved(v),
    ensures
        slots_conserved(reset_buffers(v)),
{
    broadcast use vstd::multiset::group_multiset_axioms;
    vstd::seq_lib::lemma_multiset_commutative(v.free_slots, slots_of(v.allocations));
    let r = reset_buffers(v);
    assert(slots_of(r.allocations) =~= Seq::<usize>::empty());
    assert(Seq::<usize>::empty().to_multiset() =~= Multiset::<usize>::empty()) by {
        broadcast use vstd::seq_lib::group_to_multiset_ensures;
    }
    assert(r.free_slots.to_multiset().add(slots_of(r.allocations).to_multiset())
        =~= v.free_slots.to_multiset().add(slots_of(v.allocations).to_multiset()));
}

/// Slot law: uploads and removals keep every metadata slot either free or
/// used by exactly one placement.
pub proof fn lemma_slots_conserved(v: IndirectView, key: SubchunkKey, vertex_len: usize, index_len: usize)
    requires
        slots_conserved(v),
    ensures
        slots_conserved(upload_result(v, key, vertex_len, index_len).0),
        slots_conserved(without_key(v, key)),
{
    broadcast use vstd::multiset::group_multiset_axioms;
    lemma_without_key_conserves(v, key);
    let s1 = without_key(v, key);
    let vc = vertex_len as u32;
    let ic = index_len as u32;
    if vertex_len > 0 && index_len > 0 && !(vertex_len > MAX_VERTICES || index_len > MAX_INDICES || vertex_buffer_full(s1, vc)
        || index_buffer_full(s1, ic) || s1.free_slots.len() == 0) {
        let s2 = place_vertices(s1, best_fit(s1.free_vertex_blocks, vc), vc).0;
        let s3 = place_indices(s2, best_fit(s1.free_index_blocks, ic), ic).0;
        assert(slots_conserved(s3));
        let r = upload_result(v, key, vertex_len, index_len).0;
        let slot = s3.free_slots.last();
        let k = s3.free_slots.len() - 1;
        assert(r.free_slots == s3.free_slots.remove(k)) by {
            assert(s3.free_slots.drop_last() =~= s3.free_slots.remove(k));
        }
        vstd::seq_lib::to_multiset_remove(s3.free_slots, k);
        assert(slots_of(r.allocations) =~= slots_of(s3.allocations).push(slot));
        vstd::seq_lib::to_multiset_build(slots_of(s3.allocations), slot);
        assert(s3.free_slots.to_multiset().count(slot) > 0) by {
            vstd::seq_lib::to_multiset_contains(s3.free_slots, slot);
            assert(s3.free_slots.contains(slot));
        }
        assert(r.free_slots.to_multiset().add(slots_of(r.allocations).to_multiset())
            =~= s3.free_slots.to_multiset().add(slots_of(s3.allocations).to_multiset()));
    }
}

/// A copy of a free list.
fn copy_blocks(v: &Vec<FreeBlock>) -> (c: Vec<FreeBlock>)
    ensures
        c@ == v@,
{
    let mut c: Vec<FreeBlock> = Vec::new();
    let n = v.len();
    let mut i: usize = 0;
    while i < n
        invariant
            n == v@.len(),
            i <= n,
            c@ =~= v@.take(i as int),
        decreases n - i,
    {
        c.push(v[i]);
        i = i + 1;
    }
    c
}

proof fn lemma_without_key_absent(v: IndirectView, key: SubchunkKey)
    requires
        indirect_wf(v),
    ensures
        key_index(without_key(v, key).allocations, key) is None,
        indirect_wf(without_key(v, key)),
{
    match key_index(v.allocations, key) {
        Some(i) => {
            lemma_drop_keeps_wf(v, i);
            let s = v.allocations;
            let d = s.remove(i);
            assert(0 <= i < s.len() && s[i].0 == key);
            assert forall|j: int| 0 <= j < d.len() implies (#[trigger] d[j]).0 != key by {
                if j < i {
                    assert(d[j] == s[j]);
                } else {
                    assert(d[j] == s[j + 1]);
                }
            }
        },
        None => {},
    }
}

proof fn lemma_cut_within(s: Seq<FreeBlock>, idx: int, count: u32, max: u32)
    requires
        blocks_within(s, max),
        0 <= idx < s.len(),
        s[idx].count >= count,
    ensures
        blocks_within(cut_block(s, idx, count), max),
{
    let r = s.remove(idx);
    assert forall|j: int| 0 <= j < r.len() implies (#[trigger] r[j]).offset + r[j].count <= max by {
        if j < idx {
            assert(r[j] == s[j]);
        } else {
            assert(r[j] == s[j + 1]);
        }
    }
}

proof fn lemma_upload_keeps_wf(v: IndirectView, key: SubchunkKey, vertex_len: usize, index_len: usize)
    requires
        indirect_wf(v),
        vertex_len > 0,
        index_len > 0,
        vertex_len <= MAX_VERTICES,
        index_len <= MAX_INDICES,
    ensures
        indirect_wf(upload_result(v, key, vertex_len, index_len).0),
{
    lemma_without_key_absent(v, key);
    let s1 = without_key(v, key);
    let vc = vertex_len as u32;
    let ic = index_len as u32;
    let vf = best_fit(s1.free_vertex_blocks, vc);
    let xf = best_fit(s1.free_index_blocks, ic);
    if vf is Some {
        let i = vf.unwrap();
        assert(is_best_fit(s1.free_vertex_blocks, vc, i));
        lemma_cut_within(s1.free_vertex_blocks, i, vc, MAX_VERTICES);
    }
    let s2 = place_vertices(s1, vf, vc).0;
    assert(indirect_wf(s2));
    if xf is Some {
        let i = xf.unwrap();
        assert(is_best_fit(s1.free_index_blocks, ic, i));
        assert(s2.free_index_blocks == s1.free_index_blocks);
        lemma_cut_within(s1.free_index_blocks, i, ic, MAX_INDICES);
    }
    let s3 = place_indices(s2, xf, ic).0;
    assert(indirect_wf(s3));
    assert(key_index(s3.allocations, key) is None);
    let r = upload_result(v, key, vertex_len, index_len).0;
    if !(vertex_buffer_full(s1, vc) || index_buffer_full(s1, ic) || s1.free_slots.len() == 0) {
        let a = r.allocations.last().1;
        assert(a.vertex_offset + a.vertex_count <= MAX_VERTICES);
        assert(a.index_offset + a.index_count <= MAX_INDICES);
        assert forall|x: int, y: int| 0 <= x < y < r.allocations.len() implies (#[trigger] r.allocations[x]).0 != (#[trigger] r.allocations[y]).0 by {
            if y == r.allocations.len() - 1 {
                assert(r.allocations[x] == s3.allocations[x]);
                if s3.allocations[x].0 == key {
                    assert(exists|j: int| 0 <= j < s3.allocations.len() && (#[trigger] s3.allocations[j]).0 == key);
                }
            } else {
                assert(r.allocations[x] == s3.allocations[x]);
                assert(r.allocations[y] == s3.allocations[y]);
            }
        }
        assert forall|k: int| 0 <= k < r.allocations.len() implies {
            let a = (#[trigger] r.allocations[k]).1;
            &&& a.vertex_offset + a.vertex_count <= MAX_VERTICES
            &&& a.index_offset + a.index_count <= MAX_INDICES
        } by {
            if k < r.allocations.len() - 1 {
                assert(r.allocations[k] == s3.allocations[k]);
            }
        }
    }
}

proof fn lemma_drop_keeps_wf(v: IndirectView, i: int)
    requires
        indirect_wf(v),
        0 <= i < v.allocations.len(),
    ensures
        indirect_wf(drop_allocation(v, i)),
{
    let d = drop_allocation(v, i);
    let s = v.allocations;
    assert forall|a: int, b: int| 0 <= a < b < d.allocations.len() implies (#[trigger] d.allocations[a]).0 != (#[trigger] d.allocations[b]).0 by {
        let a0 = if a < i { a } else { a + 1 };
        let b0 = if b < i { b } else { b + 1 };
        assert(d.allocations[a] == s[a0] && d.allocations[b] == s[b0]);
    }
    assert forall|k: int| 0 <= k < d.allocations.len() implies {
        let a = (#[trigger] d.allocations[k]).1;
        &&& a.vertex_offset + a.vertex_count <= MAX_VERTICES
        &&& a.index_offset + a.index_count <= MAX_INDICES
    } by {
        let k0 = if k < i { k } else { k + 1 };
        assert(d.allocations[k] == s[k0]);
    }
    let a = s[i].1;
    assert(a.vertex_offset + a.vertex_count <= MAX_VERTICES);
    assert(a.index_offset + a.index_count <= MAX_INDICES);
}

/// The best-fit block for `count`: the fitting block that wastes the least,
/// the first such one on ties.
pub fn find_free_block(blocks: &Vec<FreeBlock>, count: u32) -> (r: Option<(usize, FreeBlock)>)
    ensures
        match best_fit(blocks@, count) {
            Some(i) => r == Some((i as usize, blocks@[i])),
            None => r is None,
        },
        match r {
            Some((i, b)) => is_best_fit(blocks@, count, i as int) && b == blocks@[i as int],
            None => forall|i: int| !is_best_fit(blocks@, count, i),
        },
{
    let mut best_idx: Option<usize> = None;
    let mut best_waste: u32 = 0;
    let n = blocks.len();
    let mut idx: usize = 0;
    while idx < n
        invariant
            n == blocks@.len(),
            idx <= n,
            match best_idx {
                None => forall|j: int| 0 <= j < idx ==> !fits(#[trigger] blocks@[j], count),
                Some(b) => b < idx && fits(blocks@[b as int], count)
                    && best_waste == blocks@[b as int].count - count
                    && (forall|j: int| 0 <= j < idx && fits(#[trigger] blocks@[j], count) ==> blocks@[j].count >= blocks@[b as int].count)
                    && (forall|j: int| 0 <= j < b && fits(#[trigger] blocks@[j], count) ==> blocks@[j].count > blocks@[b as int].count),
            },
        decreases n - idx,
    {
        let block = blocks[idx];
        if block.count >= count {
            let waste = block.count - count;
            let better = match best_idx {
                None => true,
                Some(_) => waste < best_waste,
            };
            if better {
                best_waste = waste;
                best_idx = Some(idx);
            }
        }
        idx = idx + 1;
    }
    match best_idx {
        Some(i) => {
            proof {
                lemma_best_fit_unique(blocks@, count, i as int);
            }
            Some((i, blocks[i]))
        },
        None => {
            assert(!exists|i: int| is_best_fit(blocks@, count, i));
            None
        },
    }
}

proof fn lemma_best_fit_unique(s: Seq<FreeBlock>, count: u32, i: int)
    requires
        is_best_fit(s, count, i),
    ensures
        best_fit(s, count) == Some(i),
{
    let j = choose|j: int| is_best_fit(s, count, j);
    assert(is_best_fit(s, count, j));
    if j < i {
        assert(s[j].count > s[i].count);
    } else if j > i {
        assert(s[i].count > s[j].count);
    }
}

/// Entry `x` of a buffer lies in one of the free blocks `s`.
pub open spec fn free_in(s: Seq<FreeBlock>, x: int) -> bool {
    exists|i: int| 0 <= i < s.len() && (#[trigger] s[i]).offset <= x && x < s[i].offset + s[i].count
}

/// Cutting law: taking `count` entries from the front of block `idx` leaves
/// free exactly what the other blocks hold and the rest of that block past
/// its first `count` entries.
pub proof fn lemma_cut_block_units(s: Seq<FreeBlock>, idx: int, count: u32, x: int)
    requires
        0 <= idx < s.len(),
        s[idx].count >= count,
        s[idx].offset + s[idx].count <= u32::MAX,
    ensures
        free_in(cut_block(s, idx, count), x) <==> (free_in(s.remove(idx), x) || (s[idx].offset + count <= x < s[idx].offset
            + s[idx].count)),
{
    let b = s[idx];
    let t = cut_block(s, idx, count);
    let r = s.remove(idx);
    if free_in(t, x) {
        let i = choose|i: int| 0 <= i < t.len() && (#[trigger] t[i]).offset <= x && x < t[i].offset + t[i].count;
        if i < r.len() {
            assert(t[i] == r[i]);
        }
    }
    if free_in(r, x) {
        let i = choose|i: int| 0 <= i < r.len() && (#[trigger] r[i]).offset <= x && x < r[i].offset + r[i].count;
        assert(t[i] == r[i]);
    }
    if b.offset + count <= x < b.offset + b.count {
        assert(b.count > count);
        assert(t[r.len() as int] == FreeBlock { offset: (b.offset + count) as u32, count: (b.count - count) as u32 });
    }
}

/// Placement law: a placed mesh gets exactly its vertex and index counts and
/// the last free metadata slot; each run starts at the best-fitting free
/// block when one fits, leaving the end of its buffer where it was, and at
/// the end of its buffer otherwise, which then moves past the run. Empty
/// meshes succeed without a placement, and a mesh larger than a whole buffer
/// is refused.
pub proof fn lemma_upload_placement(v: IndirectView, key: SubchunkKey, vertex_len: usize, index_len: usize)
    requires
        indirect_wf(v),
    ensures
        ({
            let s1 = without_key(v, key);
            let (r, placed, ok) = upload_result(v, key, vertex_len, index_len);
            &&& (vertex_len == 0 || index_len == 0) ==> ok && placed is None
            &&& (vertex_len > MAX_VERTICES || index_len > MAX_INDICES) && vertex_len > 0 && index_len > 0 ==> !ok
                && placed is None
            &&& ok && vertex_len > 0 && index_len > 0 ==> placed is Some
            &&& placed matches Some(a) ==> {
                &&& ok
                &&& a.vertex_count == vertex_len && a.index_count == index_len
                &&& a.slot_index == s1.free_slots.last()
                &&& r.free_slots == s1.free_slots.drop_last()
                &&& (best_fit(s1.free_vertex_blocks, a.vertex_count) matches Some(i) ==> a.vertex_offset
                    == s1.free_vertex_blocks[i].offset && r.next_vertex_offset == s1.next_vertex_offset)
                &&& (best_fit(s1.free_vertex_blocks, a.vertex_count) is None ==> a.vertex_offset == s1.next_vertex_offset
                    && r.next_vertex_offset == s1.next_vertex_offset + vertex_len)
                &&& (best_fit(s1.free_index_blocks, a.index_count) matches Some(i) ==> a.index_offset
                    == s1.free_index_blocks[i].offset && r.next_index_offset == s1.next_index_offset)
                &&& (best_fit(s1.free_index_blocks, a.index_count) is None ==> a.index_offset == s1.next_index_offset
                    && r.next_index_offset == s1.next_index_offset + index_len)
                &&& a.vertex_offset + a.vertex_count <= MAX_VERTICES
                &&& a.index_offset + a.index_count <= MAX_INDICES
            }
        }),
{
    let (r, placed, ok) = upload_result(v, key, vertex_len, index_len);
    if placed is Some {
        lemma_upload_keeps_wf(v, key, vertex_len, index_len);
        lemma_without_key_absent(v, key);
        assert(r.allocations.last().1 == placed.unwrap());
    }
}

} // verus!
