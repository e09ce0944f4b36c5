use pixy_terrain::chunk_manager::{Chunk, ChunkManager, ChunkState, DEFAULT_MAX_RESULTS_PER_UPDATE};
use pixy_terrain::voxel_grid::{ChunkCoord, CoordMap};

fn test_manager() -> ChunkManager {
    ChunkManager::new(10, 4, 10)
}

#[test]
fn test_transition_sides_computation() {
    let mut manager = test_manager();

    let neighbor = Chunk::new(0);
    manager.insert_chunk(ChunkCoord::new(-1, 0, 0), neighbor);

    // Create a desired map with LOD levels for testing
    let mut desired: CoordMap<u8> = CoordMap::new();
    desired.insert(ChunkCoord::new(0, 0, 0), 1);
    desired.insert(ChunkCoord::new(-1, 0, 0), 0);

    let sides = manager.compute_transition_sides(&ChunkCoord::new(0, 0, 0), 1, &desired);

    assert!(sides & 0b000001 != 0, "Should have LowX transition");
    assert!(sides & 0b000010 == 0, "Should not have HighX transition");
}

#[test]
fn test_no_transition_at_lod_0() {
    let manager = test_manager();

    let desired: CoordMap<u8> = CoordMap::new();
    let sides = manager.compute_transition_sides(&ChunkCoord::new(0, 0, 0), 0, &desired);
    assert_eq!(sides, 0);
}

#[test]
fn transition_sides_sets_every_finer_face() {
    let manager = test_manager();
    let c = ChunkCoord::new(3, 1, 3);
    let mut desired: CoordMap<u8> = CoordMap::new();
    desired.insert(ChunkCoord::new(4, 1, 3), 1); // +x finer
    desired.insert(ChunkCoord::new(3, 0, 3), 2); // -y same level
    desired.insert(ChunkCoord::new(3, 1, 4), 0); // +z finer
    assert_eq!(manager.compute_transition_sides(&c, 2, &desired), 0b100010);
}

#[test]
fn request_lifecycle() {
    let mut m = test_manager();
    assert_eq!(m.max_results_per_update(), DEFAULT_MAX_RESULTS_PER_UPDATE);
    let c = ChunkCoord::new(0, 0, 0);
    m.advance_frame();
    assert!(m.needs_request(&c, 0));
    m.record_request(c, 0);
    let ch = m.chunk(&c).unwrap();
    assert_eq!(ch.state, ChunkState::Pending);
    assert_eq!(ch.last_access_frame, 1);
    // A pending chunk is not requested again, even at another level.
    assert!(!m.needs_request(&c, 0));
    assert!(!m.needs_request(&c, 2));
    m.apply_result(&c, 0);
    assert_eq!(m.chunk(&c).unwrap().state, ChunkState::Ready);
    assert!(!m.needs_request(&c, 0));
    assert!(m.needs_request(&c, 1));
    m.mark_chunk_active(&c, 123);
    assert_eq!(m.chunk(&c).unwrap().mesh_instance_id, Some(123));
    m.advance_frame();
    m.touch(&c);
    assert_eq!(m.chunk(&c).unwrap().last_access_frame, 2);
}

#[test]
fn dirty_chunks_are_requested_again() {
    let mut m = test_manager();
    let a = ChunkCoord::new(0, 0, 0);
    let b = ChunkCoord::new(1, 0, 0);
    let p = ChunkCoord::new(2, 0, 0);
    m.record_request(a, 0);
    m.apply_result(&a, 0);
    m.record_request(b, 0);
    m.apply_result(&b, 0);
    m.mark_chunk_active(&b, 7);
    m.record_request(p, 0);
    let n = m.mark_chunks_dirty(&[a, b, b, p, ChunkCoord::new(9, 9, 9)]);
    assert_eq!(n, 2);
    assert_eq!(m.chunk(&a).unwrap().state, ChunkState::Unloaded);
    assert_eq!(m.chunk(&b).unwrap().state, ChunkState::Unloaded);
    assert_eq!(m.chunk(&p).unwrap().state, ChunkState::Pending);
    assert!(m.needs_request(&a, 0));
}

#[test]
fn distant_chunks_marked_for_unload() {
    let mut m = test_manager();
    let near = ChunkCoord::new(0, 0, 0);
    let far = ChunkCoord::new(5, 0, 5);
    let pending = ChunkCoord::new(6, 0, 6);
    m.insert_chunk(near, Chunk::new(0));
    m.insert_chunk(far, Chunk::new(0));
    m.mark_chunk_active(&far, 42);
    m.record_request(pending, 1);
    let mut desired: CoordMap<u8> = CoordMap::new();
    desired.insert(near, 0);
    m.mark_distant_for_unload(&desired);
    assert_eq!(m.get_unload_candidates(), vec![(far, Some(42))]);
    assert_eq!(m.chunk(&near).unwrap().state, ChunkState::Unloaded);
    assert_eq!(m.chunk(&pending).unwrap().state, ChunkState::Pending);
    m.remove_chunk(&far);
    assert!(m.get_unload_candidates().is_empty());
    m.clear_all_chunks();
    assert!(m.chunk(&near).is_none());
}

#[test]
fn map_bounds_include_guard_layers() {
    let m = ChunkManager::new(4, 4, 4);
    assert!(m.in_map_bounds(&ChunkCoord::new(-1, -1, -1)));
    assert!(m.in_map_bounds(&ChunkCoord::new(4, 3, 4)));
    assert!(!m.in_map_bounds(&ChunkCoord::new(4, 4, 4)));
    assert!(!m.in_map_bounds(&ChunkCoord::new(-2, 0, 0)));
    assert!(!m.in_map_bounds(&ChunkCoord::new(0, 0, 5)));
}

#[test]
fn finest_level_at_coordinate_limits_has_no_transitions() {
    let manager = test_manager();
    let desired: CoordMap<u8> = CoordMap::new();
    let c = ChunkCoord::new(i32::MAX, i32::MIN, i32::MAX);
    assert_eq!(manager.compute_transition_sides(&c, 0, &desired), 0);
}
