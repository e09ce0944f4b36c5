use pixy_terrain::cell_updates::CellUpdateGrid;

fn built(dim_x: i32, dim_z: i32) -> CellUpdateGrid<u32> {
    let mut g: CellUpdateGrid<u32> = CellUpdateGrid::new(dim_x, dim_z);
    for z in 0..dim_z - 1 {
        for x in 0..dim_x - 1 {
            assert!(g.needs_regeneration(x, z));
            g.store_cell(x, z, (z * 100 + x) as u32);
        }
    }
    g
}

fn dirty_cells(g: &CellUpdateGrid<u32>, dim_x: i32, dim_z: i32) -> Vec<(i32, i32)> {
    let mut v = Vec::new();
    for z in 0..dim_z - 1 {
        for x in 0..dim_x - 1 {
            if g.needs_regeneration(x, z) {
                v.push((x, z));
            }
        }
    }
    v
}

#[test]
fn new_grid_needs_every_cell() {
    let g: CellUpdateGrid<u32> = CellUpdateGrid::new(4, 3);
    assert_eq!(dirty_cells(&g, 4, 3).len(), 3 * 2);
    assert_eq!(g.cached_cell(0, 0), None);
}

#[test]
fn stored_cells_are_reused() {
    let g = built(5, 5);
    assert!(dirty_cells(&g, 5, 5).is_empty());
    assert_eq!(g.cached_cell(2, 3), Some(&302));
    assert_eq!(g.cached_cell(4, 0), None);
    assert_eq!(g.cached_cell(-1, 0), None);
}

#[test]
fn point_bounds() {
    let g: CellUpdateGrid<u32> = CellUpdateGrid::new(4, 3);
    assert!(g.is_in_bounds(0, 0));
    assert!(g.is_in_bounds(3, 2));
    assert!(!g.is_in_bounds(4, 0));
    assert!(!g.is_in_bounds(0, 3));
    assert!(!g.is_in_bounds(-1, 1));
}

#[test]
fn marking_a_cell_dirties_its_block() {
    let mut g = built(6, 6);
    g.mark_cell_needs_update(2, 2);
    let dirty = dirty_cells(&g, 6, 6);
    assert_eq!(dirty.len(), 9);
    for z in 1..=3 {
        for x in 1..=3 {
            assert!(dirty.contains(&(x, z)));
            assert_eq!(g.cached_cell(x, z), None);
        }
    }
    assert_eq!(g.cached_cell(0, 0), Some(&0));
}

#[test]
fn marking_at_the_edge_is_clipped() {
    let mut g = built(6, 6);
    g.notify_needs_update(0, 0);
    assert_eq!(dirty_cells(&g, 6, 6), vec![(0, 0), (1, 0), (0, 1), (1, 1)]);
}

#[test]
fn editing_a_point_dirties_the_cells_around_it() {
    let mut g = built(8, 8);
    g.notify_neighbors(3, 3);
    let dirty = dirty_cells(&g, 8, 8);
    assert_eq!(dirty.len(), 16);
    for z in 1..=4 {
        for x in 1..=4 {
            assert!(dirty.contains(&(x, z)));
        }
    }
    g.store_cell(2, 2, 7);
    assert!(!g.needs_regeneration(2, 2));
    assert_eq!(g.cached_cell(2, 2), Some(&7));
}

#[test]
fn marking_all_keeps_geometry() {
    let mut g = built(3, 3);
    g.mark_all_cells();
    assert_eq!(dirty_cells(&g, 3, 3).len(), 4);
    assert_eq!(g.cached_cell(1, 1), Some(&101));
}

#[test]
fn degenerate_chunks_have_no_cells() {
    let g: CellUpdateGrid<u32> = CellUpdateGrid::new(1, 1);
    assert!(g.is_in_bounds(0, 0));
    assert_eq!(g.cached_cell(0, 0), None);
    let mut h: CellUpdateGrid<u32> = CellUpdateGrid::new(5, 0);
    h.mark_cell_needs_update(1, 0);
    assert_eq!(h.cached_cell(1, 0), None);
}
