use pixy_terrain::marching_squares::{
    calculate_cell_material_pair, color_index, corner_indices, corner_slots, match_case,
    rotate_cell, select_case, texture_index_to_channels, BlendMode, CellCase, ColorChannel,
    CornerRelations, MergeMode, TextureIndex,
};

#[test]
fn test_texture_index_round_trip() {
    for idx in 0..16u8 {
        let (c0, c1) = TextureIndex(idx).channels();
        let result = TextureIndex::from_channels(c0, c1).0;
        assert_eq!(result, idx, "Round-trip failed for index {}", idx);
    }
}

#[test]
fn test_rotation() {
    let heights: [f32; 4] = [1.0, 2.0, 3.0, 4.0]; // A, B, D, C
    let mut rotation = 0;
    let s = corner_slots(rotation);
    assert_eq!(heights[s[0]], 1.0);
    assert_eq!(heights[s[1]], 2.0);
    assert_eq!(heights[s[2]], 3.0);
    assert_eq!(heights[s[3]], 4.0);

    rotation = rotate_cell(rotation, 1);
    let s = corner_slots(rotation);
    assert_eq!(heights[s[0]], 2.0);
    assert_eq!(heights[s[1]], 3.0);
    assert_eq!(heights[s[2]], 4.0);
    assert_eq!(heights[s[3]], 1.0);
}

#[test]
fn merge_mode_indices() {
    for i in 0..5 {
        assert_eq!(MergeMode::from_index(i).to_index(), i);
    }
    assert_eq!(MergeMode::from_index(17), MergeMode::Polyhedron);
    assert_eq!(MergeMode::from_index(-1), MergeMode::Polyhedron);
    assert!(MergeMode::SemiRound.is_round());
    assert!(MergeMode::Spherical.is_round());
    assert!(!MergeMode::Cubic.is_round());
    assert_eq!(BlendMode::default(), BlendMode::Interpolated);
}

#[test]
fn channel_indices_and_texture_encoding() {
    assert_eq!(ColorChannel::from_index(2), ColorChannel::Blue);
    assert_eq!(ColorChannel::from_index(9), ColorChannel::Red);
    assert_eq!(ColorChannel::Alpha.index(), 3);
    assert_eq!(TextureIndex::from_channels(ColorChannel::Blue, ColorChannel::Green).0, 9);
    assert_eq!(texture_index_to_channels(9), (ColorChannel::Blue, ColorChannel::Green));
    // Only the low byte counts; 256 + 6 is texture 6.
    assert_eq!(texture_index_to_channels(262), (ColorChannel::Green, ColorChannel::Blue));
    assert_eq!(TextureIndex::default().0, 0);
}

#[test]
fn rotation_wraps_both_ways() {
    assert_eq!(rotate_cell(3, 1), 0);
    assert_eq!(rotate_cell(0, -1), 3);
    assert_eq!(rotate_cell(1, 2), 3);
    assert_eq!(rotate_cell(2, -4), 2);
}

#[test]
fn corner_indices_row_major() {
    assert_eq!(color_index(2, 3, 10), 32);
    assert_eq!(corner_indices(2, 3, 10), [32, 33, 42, 43]);
}

#[test]
fn material_pair_ranks_by_count_then_index() {
    let t = |a, b, c, d| [TextureIndex(a), TextureIndex(b), TextureIndex(c), TextureIndex(d)];
    let m = calculate_cell_material_pair(t(5, 5, 5, 5));
    assert_eq!((m.material_a.0, m.material_b.0, m.material_c.0), (5, 5, 5));
    let m = calculate_cell_material_pair(t(7, 3, 7, 1));
    assert_eq!((m.material_a.0, m.material_b.0, m.material_c.0), (7, 1, 3));
    let m = calculate_cell_material_pair(t(9, 2, 2, 9));
    assert_eq!((m.material_a.0, m.material_b.0, m.material_c.0), (2, 9, 9));
    let m = calculate_cell_material_pair(t(15, 0, 8, 4));
    assert_eq!((m.material_a.0, m.material_b.0, m.material_c.0), (0, 4, 8));
}

/// Relations of four corner heights (A, B, D, C) under a merge threshold,
/// measured the way a cell measures them.
fn relations(h: [f32; 4], t: f32) -> CornerRelations {
    let mut r = CornerRelations {
        higher: [[false; 4]; 4],
        lower: [[false; 4]; 4],
        merged: [[false; 4]; 4],
        edges: [false; 4],
    };
    for i in 0..4 {
        for j in 0..4 {
            r.higher[i][j] = h[i] - h[j] > t;
            r.lower[i][j] = h[i] - h[j] < -t;
            r.merged[i][j] = (h[i] - h[j]).abs() < t;
        }
    }
    r.edges = [
        (h[0] - h[1]).abs() < t,
        (h[1] - h[2]).abs() < t,
        (h[3] - h[2]).abs() < t,
        (h[0] - h[3]).abs() < t,
    ];
    r
}

#[test]
fn flat_cell_is_full_floor() {
    assert_eq!(select_case(&relations([0.0, 0.0, 0.0, 0.0], 1.3)), (0, CellCase::FullFloor));
}

#[test]
fn single_raised_corner_is_outer_corner() {
    // A raised above B, D, C.
    let r = relations([5.0, 0.0, 0.0, 0.0], 1.3);
    assert_eq!(match_case(&r, 0), Some(CellCase::OuterCorner));
    assert_eq!(select_case(&r), (0, CellCase::OuterCorner));
    // B raised: found one quarter turn later.
    let r = relations([0.0, 5.0, 0.0, 0.0], 1.3);
    assert_eq!(select_case(&r), (1, CellCase::OuterCorner));
}

#[test]
fn single_lowered_corner_is_inner_corner() {
    let r = relations([0.0, 5.0, 5.0, 5.0], 1.3);
    assert_eq!(select_case(&r), (0, CellCase::InnerCorner));
}

#[test]
fn raised_edge_and_staircase() {
    // A and B raised over D and C.
    let r = relations([5.0, 5.0, 0.0, 0.0], 1.3);
    assert_eq!(select_case(&r), (0, CellCase::Edge));
    // A < B < C < D, each step a wall.
    let r = relations([0.0, 3.0, 9.0, 6.0], 1.3);
    assert_eq!(match_case(&r, 0), Some(CellCase::StaircaseAbcd));
}
