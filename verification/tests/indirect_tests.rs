use render3d::indirect::{find_free_block, FreeBlock, IndirectState, SubchunkKey, MAX_INDICES, MAX_SUBCHUNKS, MAX_VERTICES};

fn key(x: i32) -> SubchunkKey {
    SubchunkKey { chunk_x: x, chunk_z: 0, subchunk_y: 0 }
}

#[test]
fn best_fit_picks_least_waste_first_on_ties() {
    let blocks = vec![
        FreeBlock { offset: 0, count: 10 },
        FreeBlock { offset: 20, count: 6 },
        FreeBlock { offset: 40, count: 6 },
        FreeBlock { offset: 60, count: 3 },
    ];
    assert_eq!(find_free_block(&blocks, 5), Some((1, FreeBlock { offset: 20, count: 6 })));
    assert_eq!(find_free_block(&blocks, 11), None);
    assert_eq!(find_free_block(&blocks, 3), Some((3, FreeBlock { offset: 60, count: 3 })));
}

#[test]
fn upload_appends_and_uses_slot_zero_first() {
    let mut s = IndirectState::new();
    let plan = s.upload_subchunk(key(1), 4, 6);
    assert!(plan.success);
    let a = plan.placed.unwrap();
    assert_eq!((a.vertex_offset, a.vertex_count, a.index_offset, a.index_count, a.slot_index), (0, 4, 0, 6, 0));
    let b = s.upload_subchunk(key(2), 3, 3).placed.unwrap();
    assert_eq!((b.vertex_offset, b.index_offset, b.slot_index), (4, 6, 1));
    assert_eq!(s.active_count(), 2);
    assert!(s.has_subchunk(&key(1)));
}

#[test]
fn reupload_reuses_freed_space() {
    let mut s = IndirectState::new();
    s.upload_subchunk(key(1), 10, 10);
    s.upload_subchunk(key(2), 10, 10);
    let again = s.upload_subchunk(key(1), 4, 4).placed.unwrap();
    assert_eq!((again.vertex_offset, again.index_offset), (0, 0));
    assert_eq!(again.slot_index, 0);
    let next = s.upload_subchunk(key(3), 6, 6).placed.unwrap();
    assert_eq!((next.vertex_offset, next.index_offset), (4, 4));
}

#[test]
fn empty_mesh_drops_placement() {
    let mut s = IndirectState::new();
    s.upload_subchunk(key(1), 10, 10);
    let plan = s.upload_subchunk(key(1), 0, 5);
    assert!(plan.success && plan.placed.is_none());
    assert!(!s.has_subchunk(&key(1)));
    // the active count follows the placements
    assert_eq!(s.active_count(), 0);
}

#[test]
fn remove_returns_slot() {
    let mut s = IndirectState::new();
    s.upload_subchunk(key(1), 1, 1);
    s.upload_subchunk(key(2), 1, 1);
    assert_eq!(s.remove_subchunk(key(2)), Some(1));
    assert_eq!(s.remove_subchunk(key(2)), None);
    assert_eq!(s.active_count(), 1);
    assert!(!s.has_subchunk(&key(2)));
}

#[test]
fn full_vertex_buffer_refuses_upload() {
    let mut s = IndirectState::new();
    s.upload_subchunk(key(1), (MAX_VERTICES - 5) as usize, 10);
    let plan = s.upload_subchunk(key(2), 10, 10);
    assert!(!plan.success);
    assert!(plan.placed.is_none());
    assert!(s.has_subchunk(&key(1)));
    assert!(!s.has_subchunk(&key(2)));
    assert_eq!(s.active_count(), 1);
    let fits = s.upload_subchunk(key(2), 5, 10).placed.unwrap();
    assert_eq!(fits.vertex_offset, MAX_VERTICES - 5);
}

#[test]
fn full_buffer_is_cleared_on_request() {
    let mut s = IndirectState::new();
    s.upload_subchunk(key(1), (MAX_VERTICES - 5) as usize, 10);
    assert!(!s.upload_subchunk(key(2), 10, 10).success);
    assert_eq!(s.clear_gpu_data(), vec![0]);
    assert!(!s.has_subchunk(&key(1)));
    let a = s.upload_subchunk(key(2), 10, 10).placed.unwrap();
    assert_eq!((a.vertex_offset, a.index_offset), (0, 0));
}

#[test]
fn full_index_buffer_refuses_upload_and_keeps_free_runs() {
    let mut s = IndirectState::new();
    s.upload_subchunk(key(1), 10, (MAX_INDICES - 3) as usize);
    s.upload_subchunk(key(2), 4, 1);
    s.remove_subchunk(key(2));
    let plan = s.upload_subchunk(key(3), 4, 5);
    assert!(!plan.success);
    let again = s.upload_subchunk(key(3), 4, 1).placed.unwrap();
    assert_eq!(again.vertex_offset, 10);
}

#[test]
fn best_fit_takes_the_largest_block_for_nothing() {
    let blocks = vec![FreeBlock { offset: 7, count: u32::MAX }];
    assert_eq!(find_free_block(&blocks, 0), Some((0, FreeBlock { offset: 7, count: u32::MAX })));
}

#[test]
fn clear_restores_all_slots() {
    let mut s = IndirectState::new();
    s.upload_subchunk(key(1), 1, 1);
    s.clear();
    assert_eq!(s.active_count(), 0);
    assert!(!s.has_subchunk(&key(1)));
    let a = s.upload_subchunk(key(1), 1, 1).placed.unwrap();
    assert_eq!(a.slot_index, 0);
    assert_eq!(MAX_SUBCHUNKS, 32768);
}

#[test]
fn mesh_larger_than_a_buffer_is_refused_as_full() {
    let mut s = IndirectState::new();
    s.upload_subchunk(key(1), 10, 10);
    let plan = s.upload_subchunk(key(2), MAX_VERTICES as usize + 1, 3);
    assert!(!plan.success && plan.placed.is_none());
    let plan = s.upload_subchunk(key(2), 3, MAX_INDICES as usize + 1);
    assert!(!plan.success && plan.placed.is_none());
    assert_eq!(s.active_count(), 1);
    // A refused re-upload drops the earlier placement, and the count follows.
    let plan = s.upload_subchunk(key(1), usize::MAX, usize::MAX);
    assert!(!plan.success);
    assert!(!s.has_subchunk(&key(1)));
    assert_eq!(s.active_count(), 0);
}
