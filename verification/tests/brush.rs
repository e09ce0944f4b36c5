use pixy_terrain::brush::{
    begin_phase, end_stroke_transition, is_active_phase, BrushAction, BrushFootprint, BrushMode,
    BrushPhase, BrushShape, CellXZ, FlattenDirection,
};
use pixy_terrain::voxel_grid::ChunkCoord;

#[test]
fn test_footprint_affected_chunks() {
    let mut footprint = BrushFootprint::new();
    // base_y = 16 with no height change and one voxel of padding spans
    // world Y 15..17, which is chunk layer 0 for 32-cell chunks.
    let (min_chunk_y, max_chunk_y) = (0, 0);

    // Add cells that span chunk boundaries
    footprint.add_cell(CellXZ::new(30, 30));
    footprint.add_cell(CellXZ::new(33, 33)); // Next chunk at resolution 32

    let chunks = footprint.affected_chunks_for_y_range(32, min_chunk_y, max_chunk_y);
    assert!(chunks.len() >= 2, "Should affect multiple chunks");
}

#[test]
fn test_footprint_affected_chunks_for_y_range() {
    let mut footprint = BrushFootprint::new();
    footprint.add_cell(CellXZ::new(5, 5));

    // Y range -10 to 50 with chunk_size 32: chunk layers -1 ..= 1
    let chunks = footprint.affected_chunks_for_y_range(32, -1, 1);
    assert!(!chunks.is_empty(), "Should have affected chunks");
    // Y range -10 to 50 with chunk_size 32: chunks at Y=-1, 0, 1 (plus padding)
    assert!(chunks.len() >= 3, "Should span multiple Y chunks");
}

#[test]
fn test_xz_bounds_clamp_at_boundary() {
    let mut footprint = BrushFootprint::new();
    // Stroke at world (9.5, 9.5) with voxel size 1 and size 1: center cell (9, 9), radius 1
    footprint.add_square_cells(9, 9, 1, 10, 10);
    for cell in footprint.iter() {
        assert!(cell.x >= 0 && cell.x < 10, "Cell x={} should be in [0, 10)", cell.x);
        assert!(cell.z >= 0 && cell.z < 10, "Cell z={} should be in [0, 10)", cell.z);
    }
}

#[test]
fn test_xz_bounds_clamp_negative() {
    let mut footprint = BrushFootprint::new();
    // Stroke at world (0.5, 0.5) with size 2: center cell (0, 0), radius 2
    footprint.add_square_cells(0, 0, 2, 10, 10);
    for cell in footprint.iter() {
        assert!(cell.x >= 0, "Cell x={} should be >= 0", cell.x);
        assert!(cell.z >= 0, "Cell z={} should be >= 0", cell.z);
    }
}

#[test]
fn test_xz_bounds_fully_outside_produces_empty_footprint() {
    let mut footprint = BrushFootprint::new();
    // Stroke at world (20, 20) with size 1: center cell (20, 20), radius 1
    footprint.add_square_cells(20, 20, 1, 10, 10);
    assert!(
        footprint.is_empty(),
        "Footprint should be empty when painting outside bounds, got {} cells",
        footprint.len()
    );
}

#[test]
fn test_flatten_direction_default_is_both() {
    assert_eq!(FlattenDirection::default(), FlattenDirection::Both);
}

#[test]
fn brush_enum_defaults() {
    assert_eq!(BrushMode::default(), BrushMode::Elevation);
    assert_eq!(BrushShape::default(), BrushShape::Square);
    assert_eq!(BrushPhase::default(), BrushPhase::Idle);
    assert!(!is_active_phase(BrushPhase::Idle));
    assert!(is_active_phase(BrushPhase::Painting));
}

#[test]
fn elevation_stroke_walks_three_phases() {
    let p = begin_phase(BrushMode::Elevation);
    assert_eq!(p, BrushPhase::PaintingArea);
    let (p, a) = end_stroke_transition(p, BrushMode::Elevation);
    assert_eq!((p, a), (BrushPhase::AdjustingHeight, BrushAction::BeginHeightAdjust));
    let (p, a) = end_stroke_transition(p, BrushMode::Elevation);
    assert_eq!((p, a), (BrushPhase::AdjustingCurvature, BrushAction::BeginCurvatureAdjust));
    let (p, a) = end_stroke_transition(p, BrushMode::Elevation);
    assert_eq!((p, a), (BrushPhase::Idle, BrushAction::CommitGeometry));
}

#[test]
fn single_phase_modes_commit_on_release() {
    for (mode, action) in [
        (BrushMode::Texture, BrushAction::CommitTexture),
        (BrushMode::Flatten, BrushAction::CommitFlatten),
        (BrushMode::Plateau, BrushAction::CommitPlateau),
        (BrushMode::Smooth, BrushAction::CommitSmooth),
    ] {
        let p = begin_phase(mode);
        assert_eq!(p, BrushPhase::Painting);
        assert_eq!(end_stroke_transition(p, mode), (BrushPhase::Idle, action));
    }
    assert_eq!(
        end_stroke_transition(BrushPhase::Idle, BrushMode::Texture),
        (BrushPhase::Idle, BrushAction::NoAction)
    );
}

#[test]
fn footprint_tracks_exact_bounds() {
    let mut f = BrushFootprint::new();
    assert_eq!((f.min_x(), f.max_x(), f.min_z(), f.max_z()), (i32::MAX, i32::MIN, i32::MAX, i32::MIN));
    f.add_cell(CellXZ::new(3, -4));
    f.add_cell(CellXZ::new(-2, 7));
    f.add_cell(CellXZ::new(3, -4));
    assert_eq!(f.len(), 2);
    assert!(f.contains(&CellXZ::new(-2, 7)));
    assert!(!f.contains(&CellXZ::new(0, 0)));
    assert_eq!((f.min_x(), f.max_x(), f.min_z(), f.max_z()), (-2, 3, -4, 7));
    f.clear();
    assert!(f.is_empty());
    assert_eq!((f.min_x(), f.max_x()), (i32::MAX, i32::MIN));
}

#[test]
fn square_stamp_covers_full_square_inside_terrain() {
    let mut f = BrushFootprint::new();
    f.add_square_cells(5, 5, 1, 100, 100);
    assert_eq!(f.len(), 9);
    assert!(f.contains(&CellXZ::new(4, 6)));
    assert!(f.add_cell_in_bounds(CellXZ::new(99, 0), 100, 100));
    assert!(!f.add_cell_in_bounds(CellXZ::new(100, 0), 100, 100));
    assert_eq!(f.len(), 10);
}

#[test]
fn affected_chunks_are_exact_and_floor_divided() {
    let mut f = BrushFootprint::new();
    assert!(f.affected_chunks_for_y_range(32, 0, 0).is_empty());
    f.add_cell(CellXZ::new(-1, 31));
    f.add_cell(CellXZ::new(-32, 0));
    let mut chunks = f.affected_chunks_for_y_range(32, 2, 2);
    chunks.sort_by_key(|c| (c.x, c.y, c.z));
    let expect: Vec<ChunkCoord> = (1..=3).map(|y| ChunkCoord::new(-1, y, 0)).collect();
    assert_eq!(chunks, expect);
}
