use pixy_terrain::mesh_builder::{neighbor_offset, visible_faces, CUBE_FACES};
use pixy_terrain::tile_data::{TileData, TileGrid};

#[test]
fn empty_grid_has_no_faces() {
    let grid = TileGrid::new();
    assert!(visible_faces(&grid).is_empty());
}

#[test]
fn single_tile_shows_all_six_faces() {
    let mut grid = TileGrid::new();
    grid.set_tile(3, -2, 7, TileData::new(5));
    let faces = visible_faces(&grid);
    assert_eq!(faces.len(), 6);
    for (i, (pos, tile, face)) in faces.iter().enumerate() {
        assert_eq!(*pos, (3, -2, 7));
        assert_eq!(tile.tile_id, 5);
        assert_eq!(*face as usize, i);
    }
}

#[test]
fn shared_face_is_culled() {
    let mut grid = TileGrid::new();
    grid.set_tile(0, 0, 0, TileData::new(1));
    grid.set_tile(1, 0, 0, TileData::new(2));
    let faces = visible_faces(&grid);
    assert_eq!(faces.len(), 10);
    assert!(!faces.iter().any(|(p, _, f)| *p == (0, 0, 0) && *f == 0));
    assert!(!faces.iter().any(|(p, _, f)| *p == (1, 0, 0) && *f == 1));
    assert!(faces.iter().any(|(p, _, f)| *p == (1, 0, 0) && *f == 0));
}

#[test]
fn enclosed_tile_has_no_faces() {
    let mut grid = TileGrid::new();
    grid.set_tile(0, 0, 0, TileData::new(1));
    for face in 0..CUBE_FACES {
        let (dx, dy, dz) = neighbor_offset(face);
        grid.set_tile(dx, dy, dz, TileData::new(1));
    }
    let faces = visible_faces(&grid);
    assert!(!faces.iter().any(|(p, _, _)| *p == (0, 0, 0)));
    assert_eq!(faces.len(), 6 * 5);
}

#[test]
fn faces_at_the_coordinate_limit_are_visible() {
    let mut grid = TileGrid::new();
    grid.set_tile(i32::MAX, i32::MIN, 0, TileData::new(9));
    assert_eq!(visible_faces(&grid).len(), 6);
}

#[test]
fn neighbor_offsets_in_face_order() {
    assert_eq!(neighbor_offset(0), (1, 0, 0));
    assert_eq!(neighbor_offset(1), (-1, 0, 0));
    assert_eq!(neighbor_offset(2), (0, 1, 0));
    assert_eq!(neighbor_offset(3), (0, -1, 0));
    assert_eq!(neighbor_offset(4), (0, 0, 1));
    assert_eq!(neighbor_offset(5), (0, 0, -1));
}
