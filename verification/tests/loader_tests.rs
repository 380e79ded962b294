use render3d::chunk::Chunk;
use render3d::loader::{ChunkGenRequest, ChunkGenResult, ChunkLoader, MeshLoader, MeshRequest, MeshResult};

#[test]
fn chunk_requests_are_deduplicated_and_ordered() {
    let (tx, rx) = crossbeam_channel::bounded::<ChunkGenRequest>(256);
    let (_rtx, rrx) = crossbeam_channel::bounded::<ChunkGenResult>(256);
    let mut l: ChunkLoader = ChunkLoader::from_queues(tx, rrx, 2);
    assert_eq!(l.worker_count(), 2);
    l.request_chunk(0, 0, 5);
    l.request_chunk(0, 0, 1);
    assert!(l.is_pending(0, 0));
    assert_eq!(l.pending_count(), 1);
    l.request_chunks(&[(3, 3, 9), (0, 0, 0), (1, 1, 2), (2, 2, 2), (-4, 7, -1)]);
    let got: Vec<(i32, i32, i32)> = std::iter::from_fn(|| rx.try_recv().ok()).map(|r| (r.cx, r.cz, r.priority)).collect();
    assert_eq!(got, vec![(0, 0, 5), (-4, 7, -1), (1, 1, 2), (2, 2, 2), (3, 3, 9)]);
    assert_eq!(l.pending_count(), 5);
    l.cancel(3, 3);
    assert!(!l.is_pending(3, 3));
    l.clear_pending();
    assert_eq!(l.pending_count(), 0);
}

#[test]
fn full_queue_leaves_column_not_pending() {
    let (tx, _rx) = crossbeam_channel::bounded::<ChunkGenRequest>(1);
    let (_rtx, rrx) = crossbeam_channel::bounded::<ChunkGenResult>(1);
    let mut l: ChunkLoader = ChunkLoader::from_queues(tx, rrx, 1);
    l.request_chunk(1, 1, 0);
    l.request_chunk(2, 2, 0);
    assert!(l.is_pending(1, 1));
    assert!(!l.is_pending(2, 2));
}

#[test]
fn polling_clears_pending() {
    let (tx, _rx) = crossbeam_channel::bounded::<ChunkGenRequest>(8);
    let (rtx, rrx) = crossbeam_channel::bounded::<ChunkGenResult>(8);
    let mut l: ChunkLoader = ChunkLoader::from_queues(tx, rrx, 1);
    l.request_chunk(1, 2, 0);
    l.request_chunk(3, 4, 0);
    rtx.send(ChunkGenResult { cx: 1, cz: 2, chunk: Chunk::new(1, 2) }).unwrap();
    let r = l.poll_results(5);
    assert_eq!(r.len(), 1);
    assert_eq!((r[0].chunk.cx, r[0].chunk.cz), (1, 2));
    assert!(!l.is_pending(1, 2));
    assert!(l.is_pending(3, 4));
    assert!(l.poll_all_results().is_empty());
}

#[test]
fn chunk_request_equality_is_by_priority() {
    let a = ChunkGenRequest { cx: 1, cz: 1, priority: 3 };
    let b = ChunkGenRequest { cx: 9, cz: 9, priority: 3 };
    assert!(a == b);
    assert!(a != ChunkGenRequest { cx: 1, cz: 1, priority: 4 });
}

#[test]
fn mesh_loader_tracks_queue() {
    let (tx, rx) = crossbeam_channel::bounded::<MeshRequest>(1);
    let (rtx, rrx) = crossbeam_channel::bounded::<MeshResult<u8>>(1);
    let mut m: MeshLoader<u8> = MeshLoader::from_queues(tx, rrx);
    m.request_mesh(1, 2, 3);
    m.request_mesh(4, 5, 6);
    assert!(m.is_pending(1, 2, 3));
    assert!(!m.is_pending(4, 5, 6));
    assert_eq!(rx.try_recv().unwrap().sy, 3);
    rtx.send(MeshResult { cx: 1, cz: 2, sy: 3, terrain: 1, water: 2 }).unwrap();
    let r = m.poll_result().unwrap();
    assert_eq!((r.terrain, r.water), (1, 2));
    assert!(!m.is_pending(1, 2, 3));
    assert!(m.poll_result().is_none());
}

#[test]
fn requests_order_by_urgency() {
    let urgent = ChunkGenRequest { cx: 0, cz: 0, priority: 1 };
    let later = ChunkGenRequest { cx: 5, cz: 5, priority: 9 };
    assert_eq!(urgent.partial_cmp(&later), Some(std::cmp::Ordering::Greater));
    assert_eq!(later.partial_cmp(&urgent), Some(std::cmp::Ordering::Less));
    assert!(urgent > later);
    assert_eq!(urgent.partial_cmp(&ChunkGenRequest { cx: 3, cz: 3, priority: 1 }), Some(std::cmp::Ordering::Equal));
}
