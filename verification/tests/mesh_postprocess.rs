use pixy_terrain::mesh_postprocess::{
    decimation_target, merge_chunks, remove_unused_vertices, weld_vertices, ChunkMesh, CombinedMesh,
};

fn bits(v: [f32; 3]) -> [u32; 3] {
    [v[0].to_bits(), v[1].to_bits(), v[2].to_bits()]
}

fn chunk(vertices: Vec<[f32; 3]>, indices: Vec<i32>) -> ChunkMesh<[f32; 3]> {
    let normals = vec![[0.0, 1.0, 0.0]; vertices.len()];
    ChunkMesh { vertices, normals, indices }
}

#[test]
fn merge_offsets_indices_and_drops_bad_triangles() {
    let a = chunk(vec![[0.0, 0.0, 0.0], [1.0, 0.0, 0.0], [0.0, 0.0, 1.0]], vec![0, 1, 2, 0, 5, 1, 2]);
    let b = chunk(vec![[5.0, 0.0, 0.0], [6.0, 0.0, 0.0], [5.0, 0.0, 1.0]], vec![2, 1, 0, -1, 0, 1]);
    let m = merge_chunks(&vec![a, b]);
    assert_eq!(m.vertex_count(), 6);
    assert_eq!(m.normals.len(), 6);
    // Chunk a: one good triangle, one with index 5, a trailing partial one.
    // Chunk b: one good triangle (shifted by 3), one with index -1.
    assert_eq!(m.indices, vec![0, 1, 2, 5, 4, 3]);
    assert_eq!(m.triangle_count(), 2);
    assert_eq!(m.vertices[3], [5.0, 0.0, 0.0]);
}

#[test]
fn empty_mesh_defaults() {
    let m: CombinedMesh<[f32; 3]> = CombinedMesh::default();
    assert_eq!(m.vertex_count(), 0);
    assert_eq!(m.triangle_count(), 0);
    let m = merge_chunks::<[f32; 3]>(&vec![]);
    assert!(m.indices.is_empty());
}

#[test]
fn unused_vertices_are_dropped_and_indices_follow() {
    let mut m = CombinedMesh {
        vertices: vec![[0.0, 0.0, 0.0], [1.0, 0.0, 0.0], [2.0, 0.0, 0.0], [3.0, 0.0, 0.0]],
        normals: vec![[0.0, 1.0, 0.0], [0.0, 0.0, 1.0], [1.0, 0.0, 0.0], [0.0, -1.0, 0.0]],
        indices: vec![3, 1, 3],
    };
    remove_unused_vertices(&mut m);
    assert_eq!(m.vertices, vec![[1.0, 0.0, 0.0], [3.0, 0.0, 0.0]]);
    assert_eq!(m.normals, vec![[0.0, 0.0, 1.0], [0.0, -1.0, 0.0]]);
    assert_eq!(m.indices, vec![1, 0, 1]);
}

#[test]
fn weld_merges_equal_positions() {
    let a = bits([0.0f32, 0.0, 0.0]);
    let b = bits([1.0f32, 0.0, 0.0]);
    let c = bits([0.0f32, 0.0, 1.0]);
    let mut m = CombinedMesh {
        vertices: vec![a, b, a, c],
        normals: vec![bits([0.0, 1.0, 0.0]); 4],
        indices: vec![0, 1, 3, 2, 1, 3],
    };
    let (unique, remap) = weld_vertices(&mut m).unwrap();
    assert_eq!(unique, 3);
    assert_eq!(remap, vec![0, 1, 0, 2]);
    assert_eq!(m.vertices, vec![a, b, c]);
    assert_eq!(m.indices, vec![0, 1, 2, 0, 1, 2]);
    assert_eq!(m.normals.len(), 4);
}

#[test]
fn weld_refuses_bad_or_empty_meshes() {
    let mut m = CombinedMesh {
        vertices: vec![bits([0.0f32, 0.0, 0.0])],
        normals: vec![bits([0.0, 1.0, 0.0])],
        indices: vec![0, 0, 7],
    };
    assert!(weld_vertices(&mut m).is_none());
    assert_eq!(m.indices, vec![0, 0, 7]);
    let mut e: CombinedMesh<[u32; 3]> = CombinedMesh::new();
    assert!(weld_vertices(&mut e).is_none());
}

#[test]
fn decimation_budget() {
    assert_eq!(decimation_target(300, None), None);
    assert_eq!(decimation_target(300, Some(0)), None);
    assert_eq!(decimation_target(0, Some(10)), None);
    assert_eq!(decimation_target(300, Some(100)), None);
    assert_eq!(decimation_target(300, Some(40)), Some(120));
}

#[test]
fn weld_keeps_each_corner_position() {
    let verts: Vec<[u32; 3]> = vec![[0.0f32, 0.0, 0.0], [1.0, 0.0, 0.0], [0.0, 0.0, 1.0], [1.0, 0.0, 0.0], [0.0, 0.0, 1.0], [1.0, 0.0, 1.0]]
        .into_iter()
        .map(bits)
        .collect();
    let idx: Vec<u32> = vec![0, 1, 2, 3, 5, 4];
    let mut m = CombinedMesh { vertices: verts.clone(), normals: verts.clone(), indices: idx.clone() };
    let (unique, _) = weld_vertices(&mut m).unwrap();
    assert_eq!(unique, 4);
    for k in 0..idx.len() {
        assert_eq!(m.vertices[m.indices[k] as usize], verts[idx[k] as usize]);
    }
}

#[test]
fn welded_vertices_are_all_distinct() {
    let p = bits([2.0, 3.0, 4.0]);
    let q = bits([2.0, 3.0, 5.0]);
    let mut m = CombinedMesh { vertices: vec![p, q, p, p, q], normals: vec![p; 5], indices: vec![4, 3, 2, 1, 0, 3] };
    let (unique, remap) = weld_vertices(&mut m).unwrap();
    assert_eq!(unique, 2);
    assert_ne!(m.vertices[0], m.vertices[1]);
    assert_eq!(remap[0], remap[2]);
    assert_eq!(remap[1], remap[4]);
}
