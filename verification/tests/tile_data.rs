use pixy_terrain::tile_data::{TileData, TileGrid};

#[test]
fn test_tile_data_empty() {
    let tile = TileData::default();
    assert!(tile.is_empty());

    let tile = TileData::new(1);
    assert!(!tile.is_empty());
}

#[test]
fn test_tile_data_rotation() {
    let tile = TileData::new(1).with_rotation(5); // 5 % 4 = 1
    assert_eq!(tile.rotation, 1);
}

#[test]
fn test_tile_data_flip() {
    let tile = TileData::new(1).with_flip(TileData::FLIP_X | TileData::FLIP_Z);
    assert!(tile.flip_x());
    assert!(!tile.flip_y());
    assert!(tile.flip_z());
}

#[test]
fn test_grid_set_get() {
    let mut grid = TileGrid::new();
    let tile = TileData::new(42);

    grid.set_tile(1, 2, 3, tile);
    assert_eq!(grid.get_tile(1, 2, 3), Some(&tile));
    assert_eq!(grid.get_tile(0, 0, 0), None);
}

#[test]
fn test_grid_remove_on_empty() {
    let mut grid = TileGrid::new();
    grid.set_tile(1, 2, 3, TileData::new(42));
    assert_eq!(grid.tile_count(), 1);

    // Setting to empty tile removes it
    grid.set_tile(1, 2, 3, TileData::default());
    assert_eq!(grid.tile_count(), 0);
}

#[test]
fn test_grid_bounds() {
    let mut grid = TileGrid::new();
    assert!(grid.bounds().is_none());

    grid.set_tile(-5, 0, 10, TileData::new(1));
    grid.set_tile(3, 7, -2, TileData::new(2));

    let (min, max) = grid.bounds().unwrap();
    assert_eq!(min, (-5, 0, -2));
    assert_eq!(max, (3, 7, 10));
}

#[test]
fn rotation_wraps_and_flips_are_masked() {
    let tile = TileData::new(7).with_rotation(255).with_flip(0xFF);
    assert_eq!(tile.rotation, 3);
    assert_eq!(tile.flip_flags, 0b111);
    assert_eq!(tile.tile_id, 7);
}

#[test]
fn remove_returns_stored_tile_and_forgets_it() {
    let mut grid = TileGrid::new();
    grid.set_tile(0, -1, 2, TileData::new(9));
    assert!(grid.has_tile(0, -1, 2));
    assert_eq!(grid.remove_tile(0, -1, 2), Some(TileData::new(9)));
    assert!(!grid.has_tile(0, -1, 2));
    assert_eq!(grid.remove_tile(0, -1, 2), None);
}

#[test]
fn iter_lists_each_tile_once() {
    let mut grid = TileGrid::new();
    grid.set_tile(1, 1, 1, TileData::new(1));
    grid.set_tile(i32::MIN, i32::MAX, 0, TileData::new(2));
    grid.set_tile(1, 1, 1, TileData::new(3));
    let mut items = grid.iter();
    items.sort_by_key(|(p, _)| *p);
    assert_eq!(
        items,
        vec![((i32::MIN, i32::MAX, 0), TileData::new(2)), ((1, 1, 1), TileData::new(3))]
    );
    grid.clear();
    assert_eq!(grid.tile_count(), 0);
    assert!(grid.iter().is_empty());
}

#[test]
fn bounds_of_single_tile_is_that_tile() {
    let mut grid = TileGrid::default();
    grid.set_tile(4, -3, 8, TileData::new(5));
    assert_eq!(grid.bounds(), Some(((4, -3, 8), (4, -3, 8))));
}
