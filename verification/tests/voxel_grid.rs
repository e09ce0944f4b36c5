use pixy_terrain::voxel_grid::{local_index, ChunkCoord, ChunkedLayer, CoordMap, SparseChunkData};

#[test]
fn test_sparse_chunk_data() {
    let mut data: SparseChunkData<f32> = SparseChunkData::new();
    assert!(data.is_empty());

    data.set(42, -1.0);
    assert!(!data.is_empty());
    assert_eq!(data.len(), 1);
    assert_eq!(*data.get(42).unwrap(), -1.0);

    data.remove(42);
    assert!(data.is_empty());
}

#[test]
fn local_index_flattens_x_fastest() {
    assert_eq!(local_index(0, 0, 0, 32), 0);
    assert_eq!(local_index(1, 2, 3, 32), 1 + 2 * 32 + 3 * 32 * 32);
    assert_eq!(local_index(31, 31, 31, 32), 32 * 32 * 32 - 1);
}

#[test]
fn local_index_clamps_outside_coordinates() {
    assert_eq!(local_index(40, 0, 0, 32), 31);
    assert_eq!(local_index(0, 99, 0, 32), 31 * 32);
    assert_eq!(local_index(5, 5, 1000, 4), 3 + 3 * 4 + 3 * 16);
}

#[test]
fn coord_map_insert_get_remove() {
    let mut m: CoordMap<u8> = CoordMap::new();
    let a = ChunkCoord::new(-1, 0, 7);
    let b = ChunkCoord::new(i32::MAX, i32::MIN, 0);
    m.insert(a, 3);
    m.insert(b, 4);
    m.insert(a, 5);
    assert_eq!(m.len(), 2);
    assert_eq!(m.get(&a), Some(&5));
    assert!(m.contains_key(&b));
    assert_eq!(m.remove(&b), Some(4));
    assert!(!m.contains_key(&b));
    assert_eq!(m.keys(), vec![a]);
    m.clear();
    assert_eq!(m.len(), 0);
}

#[test]
fn chunked_layer_reads_back_writes() {
    let mut layer: ChunkedLayer<(f32, f32)> = ChunkedLayer::new();
    let c = ChunkCoord::new(0, -1, 2);
    let d = ChunkCoord::new(1, 1, 1);
    layer.set(c, 5, (-1.0, 0.5));
    layer.set(c, 6, (2.0, 1.0));
    layer.set(d, 0, (3.0, 1.0));
    layer.set(c, 5, (-2.0, 0.25));
    assert_eq!(layer.get(&c, 5), Some(&(-2.0, 0.25)));
    assert_eq!(layer.get(&d, 5), None);
    assert_eq!(layer.total_modifications(), 3);
    let mut chunks = layer.modified_chunks();
    chunks.sort_by_key(|k| (k.x, k.y, k.z));
    assert_eq!(chunks, vec![c, d]);
    assert_eq!(layer.remove(&d, 0), Some((3.0, 1.0)));
    assert_eq!(layer.remove(&d, 0), None);
    assert_eq!(layer.modified_chunks(), vec![c]);
    assert_eq!(layer.total_modifications(), 2);
}
