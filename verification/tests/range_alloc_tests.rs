use render3d::buffer_alloc::{ChunkAllocators, MAX_INDICES, MAX_VERTICES};
use render3d::range_alloc::{Range, RangeAllocator};
use render3d::types::BufferAllocation;

fn ranges(a: &RangeAllocator) -> Vec<(u32, u32)> {
    a.free_ranges.iter().map(|r| (r.offset, r.size)).collect()
}

#[test]
fn new_allocator_has_one_free_range() {
    let a = RangeAllocator::new(100);
    assert_eq!(ranges(&a), vec![(0, 100)]);
    assert_eq!(a.max_size, 100);
}

#[test]
fn allocate_is_first_fit_and_shrinks_range() {
    let mut a = RangeAllocator::new(100);
    assert_eq!(a.allocate(30), Some(0));
    assert_eq!(ranges(&a), vec![(30, 70)]);
    assert_eq!(a.allocate(70), Some(30));
    assert_eq!(ranges(&a), vec![]);
    assert_eq!(a.allocate(1), None);
}

#[test]
fn allocate_zero_is_offset_zero_and_changes_nothing() {
    let mut a = RangeAllocator::new(10);
    assert_eq!(a.allocate(0), Some(0));
    assert_eq!(ranges(&a), vec![(0, 10)]);
}

#[test]
fn allocate_too_large_fails() {
    let mut a = RangeAllocator::new(10);
    assert_eq!(a.allocate(11), None);
    assert_eq!(ranges(&a), vec![(0, 10)]);
}

#[test]
fn first_fit_skips_small_ranges() {
    let mut a = RangeAllocator::new(100);
    a.free_ranges = vec![Range { offset: 0, size: 5 }, Range { offset: 10, size: 50 }, Range { offset: 70, size: 20 }];
    assert_eq!(a.allocate(20), Some(10));
    assert_eq!(ranges(&a), vec![(0, 5), (30, 30), (70, 20)]);
}

#[test]
fn deallocate_merges_neighbours() {
    let mut a = RangeAllocator::new(100);
    let x = a.allocate(10).unwrap();
    let y = a.allocate(20).unwrap();
    let z = a.allocate(30).unwrap();
    assert_eq!((x, y, z), (0, 10, 30));
    a.deallocate(y, 20);
    assert_eq!(ranges(&a), vec![(10, 20), (60, 40)]);
    a.deallocate(x, 10);
    assert_eq!(ranges(&a), vec![(0, 30), (60, 40)]);
    a.deallocate(z, 30);
    assert_eq!(ranges(&a), vec![(0, 100)]);
}

#[test]
fn deallocate_zero_changes_nothing() {
    let mut a = RangeAllocator::new(10);
    a.allocate(4);
    a.deallocate(0, 0);
    assert_eq!(ranges(&a), vec![(4, 6)]);
}

#[test]
fn deallocate_sorts_unordered_list_stably() {
    let mut a = RangeAllocator::new(100);
    a.free_ranges = vec![Range { offset: 50, size: 5 }, Range { offset: 10, size: 5 }];
    a.deallocate(30, 5);
    assert_eq!(ranges(&a), vec![(10, 5), (30, 5), (50, 5)]);
}

#[test]
fn allocate_then_release_roundtrip() {
    let mut a = RangeAllocator::new(1000);
    a.allocate(100);
    a.allocate(200);
    a.deallocate(0, 100);
    let before = ranges(&a);
    let o = a.allocate(50).unwrap();
    assert_eq!(o, 0);
    a.deallocate(o, 50);
    assert_eq!(ranges(&a), before);
}

#[test]
fn chunk_allocators_pair_and_rollback() {
    let mut m = ChunkAllocators::new();
    assert_eq!(m.vertex_allocator.max_size, MAX_VERTICES);
    assert_eq!(m.index_allocator.max_size, MAX_INDICES);
    let first = m.allocate(4, 6).unwrap();
    assert_eq!(first.base_vertex, 0);
    assert_eq!(first.index_offset, 0);
    assert_eq!(first.vertex_count, 4);
    assert_eq!(first.index_count, 6);
    let second = m.allocate(8, 12).unwrap();
    assert_eq!(second.base_vertex, 4);
    assert_eq!(second.index_offset, 6);
    // index space exhausted: the vertex slots are handed back
    let vbefore = ranges(&m.vertex_allocator);
    assert!(m.allocate(10, MAX_INDICES).is_none());
    assert_eq!(ranges(&m.vertex_allocator), vbefore);
    m.deallocate(first);
    assert_eq!(ranges(&m.vertex_allocator), vec![(0, 4), (12, MAX_VERTICES - 12)]);
    let BufferAllocation { index_count, .. } = second;
    assert_eq!(index_count, 12);
}

fn free_units(a: &RangeAllocator) -> u64 {
    a.free_ranges.iter().map(|r| r.size as u64).sum()
}

#[test]
fn allocation_takes_exactly_its_units_from_the_free_total() {
    let mut a = RangeAllocator::new(100);
    a.free_ranges = vec![Range { offset: 0, size: 10 }, Range { offset: 20, size: 30 }, Range { offset: 60, size: 40 }];
    assert_eq!(free_units(&a), 80);
    assert_eq!(a.allocate(25), Some(20));
    assert_eq!(free_units(&a), 55);
    assert_eq!(a.allocate(50), None);
    assert_eq!(free_units(&a), 55);
    assert_eq!(a.allocate(10), Some(0));
    assert_eq!(free_units(&a), 45);
}

#[test]
fn releasing_every_block_in_any_order_restores_the_whole_space() {
    let sizes = [10u32, 25, 5, 40, 20];
    let orders: [[usize; 5]; 3] = [[0, 1, 2, 3, 4], [4, 3, 2, 1, 0], [2, 0, 4, 1, 3]];
    for order in orders {
        let mut a = RangeAllocator::new(100);
        let offsets: Vec<u32> = sizes.iter().map(|&s| a.allocate(s).unwrap()).collect();
        assert_eq!(offsets, vec![0, 10, 35, 40, 80]);
        assert!(a.free_ranges.is_empty());
        for &j in order.iter() {
            a.deallocate(offsets[j], sizes[j]);
        }
        assert_eq!(ranges(&a), vec![(0, 100)]);
    }
}
