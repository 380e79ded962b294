use vstd::prelude::*;
use crate::range_alloc::{
    free_list_wf, is_first_fit, lemma_allocate_release_roundtrip, lemma_first_fit_exists,
    lemma_well_formed_can_take, release_units, take_units, can_release, Range, RangeAllocator,
};
use crate::types::BufferAllocation;

verus! {

/// Capacity of the shared vertex buffer, in vertices.
pub const MAX_VERTICES: u32 = 10_000_000;

/// Capacity of the shared index buffer, in indices.
pub const MAX_INDICES: u32 = 20_000_000;

/// The two sub-allocators behind the shared chunk geometry buffers: one over
/// vertex slots, one over index slots. Uploading the mesh data into the
/// reserved slots is the caller's part.
pub struct ChunkAllocators {
    pub vertex_allocator: RangeAllocator,
    pub index_allocator: RangeAllocator,
}

impl ChunkAllocators {
    /// Both allocators are well formed.
    pub open spec fn well_formed(&self) -> bool {
        self.vertex_allocator.well_formed() && self.index_allocator.well_formed()
    }

    /// Allocators over the full vertex and index capacities.
    pub fn new() -> (m: Self)
        ensures
            m.vertex_allocator.free_ranges@ == seq![Range { offset: 0, size: MAX_VERTICES }],
            m.vertex_allocator.max_size == MAX_VERTICES,
            m.index_allocator.free_ranges@ == seq![Range { offset: 0, size: MAX_INDICES }],
            m.index_allocator.max_size == MAX_INDICES,
            m.well_formed(),
    {
        ChunkAllocators {
            vertex_allocator: RangeAllocator::new(MAX_VERTICES),
            index_allocator: RangeAllocator::new(MAX_INDICES),
        }
    }

    /// Reserves `vertex_count` vertex slots, then `index_count` index slots.
    /// When the index slots cannot be found, the vertex slots are released
    /// again and `None` is returned.
    pub fn allocate(&mut self, vertex_count: u32, index_count: u32) -> (r: Option<BufferAllocation>)
        requires
            old(self).well_formed(),
        ensures
            final(self).vertex_allocator.max_size == old(self).vertex_allocator.max_size,
            final(self).index_allocator.max_size == old(self).index_allocator.max_size,
            ({
                let (v1, vr) = take_units(old(self).vertex_allocator.free_ranges@, vertex_count);
                let (i1, ir) = take_units(old(self).index_allocator.free_ranges@, index_count);
                match vr {
                    None => r is None
                        && final(self).vertex_allocator.free_ranges@ == old(self).vertex_allocator.free_ranges@
                        && final(self).index_allocator.free_ranges@ == old(self).index_allocator.free_ranges@,
                    Some(vo) => match ir {
                        None => r is None
                            && final(self).vertex_allocator.free_ranges@ == release_units(v1, vo, vertex_count)
                            && final(self).index_allocator.free_ranges@ == old(self).index_allocator.free_ranges@,
                        Some(io) => r == Some(BufferAllocation {
                                index_offset: io,
                                index_count,
                                vertex_count,
                                base_vertex: vo as i32,
                            })
                            && final(self).vertex_allocator.free_ranges@ == v1
                            && final(self).index_allocator.free_ranges@ == i1,
                    },
                }
            }),
            final(self).well_formed(),
            r is None ==> final(self).vertex_allocator.free_ranges@ == old(self).vertex_allocator.free_ranges@
                && final(self).index_allocator.free_ranges@ == old(self).index_allocator.free_ranges@,
    {
        proof {
            lemma_well_formed_can_take(self.vertex_allocator.free_ranges@, self.vertex_allocator.max_size as int, vertex_count);
            lemma_well_formed_can_take(self.index_allocator.free_ranges@, self.index_allocator.max_size as int, index_count);
        }
        let ghost v0 = self.vertex_allocator.free_ranges@;
        let v_offset = match self.vertex_allocator.allocate(vertex_count) {
            Some(o) => o,
            None => {
                return None;
            },
        };
        let i_offset = match self.index_allocator.allocate(index_count) {
            Some(o) => o,
            None => {
                proof {
                    lemma_failed_pair_restores(v0, self.vertex_allocator.max_size as int, vertex_count);
                }
                self.vertex_allocator.deallocate(v_offset, vertex_count);
                return None;
            },
        };
        Some(BufferAllocation {
            index_offset: i_offset,
            index_count,
            vertex_count,
            base_vertex: v_offset as i32,
        })
    }

    /// Releases the vertex and index slots of `alloc`.
    pub fn deallocate(&mut self, alloc: BufferAllocation)
        requires
            can_release(old(self).vertex_allocator.free_ranges@, alloc.base_vertex as u32, alloc.vertex_count),
            can_release(old(self).index_allocator.free_ranges@, alloc.index_offset, alloc.index_count),
        ensures
            final(self).vertex_allocator.max_size == old(self).vertex_allocator.max_size,
            final(self).index_allocator.max_size == old(self).index_allocator.max_size,
            final(self).vertex_allocator.free_ranges@ == release_units(
                old(self).vertex_allocator.free_ranges@,
                alloc.base_vertex as u32,
                alloc.vertex_count,
            ),
            final(self).index_allocator.free_ranges@ == release_units(
                old(self).index_allocator.free_ranges@,
                alloc.index_offset,
                alloc.index_count,
            ),
    {
        self.vertex_allocator.deallocate(alloc.base_vertex as u32, alloc.vertex_count);
        self.index_allocator.deallocate(alloc.index_offset, alloc.index_count);
    }
}

/// When a pair allocation fails on its index half, handing the vertex block
/// back leaves the vertex free list exactly as it was before the attempt.
pub proof fn lemma_failed_pair_restores(s: Seq<Range>, max: int, size: u32)
    requires
        free_list_wf(s, max),
        max <= u32::MAX,
        take_units(s, size).1 is Some,
    ensures
        release_units(take_units(s, size).0, take_units(s, size).1.unwrap(), size) == s,
{
    if size > 0 {
        lemma_first_fit_exists(s, size);
        let idx = choose|i: int| is_first_fit(s, size, i);
        lemma_allocate_release_roundtrip(s, max, size, idx);
    }
}

} // verus!
