use pixy_terrain::terrain_stability::{
    build_scan_region, compute_drop_distance, find_floating_components, flood_fill_grounded,
    plan_component_drop, select_drops, ScanRegion, SolidGrid,
};

fn region(sx: i32, sy: i32, sz: i32) -> ScanRegion {
    ScanRegion { min_x: 0, max_x: sx - 1, min_y: 0, max_y: sy - 1, min_z: 0, max_z: sz - 1 }
}

/// A 4 x 10 x 4 grid with a solid floor row at y = 0.
fn floor_grid() -> (ScanRegion, SolidGrid) {
    let r = region(4, 10, 4);
    let mut g = SolidGrid::new(&r);
    for x in 0..4 {
        for z in 0..4 {
            g.set(x, 0, z, true);
        }
    }
    (r, g)
}

#[test]
fn region_sizes_are_inclusive() {
    let r = ScanRegion { min_x: -2, max_x: 2, min_y: 5, max_y: 4, min_z: 0, max_z: 0 };
    assert_eq!(r.size_x(), 5);
    assert_eq!(r.size_y(), 0);
    assert_eq!(r.size_z(), 1);
}

#[test]
fn grounded_floor_and_floating_block() {
    let (r, mut g) = floor_grid();
    g.set(1, 7, 1, true);
    g.set(1, 8, 1, true);
    let grounded = flood_fill_grounded(&g, &r);
    assert!(grounded.get(0, 0, 0));
    assert!(!grounded.get(1, 7, 1));
    let comps = find_floating_components(&g, &grounded);
    assert_eq!(comps.len(), 1);
    let mut c = comps[0].clone();
    c.sort();
    assert_eq!(c, vec![(1, 7, 1), (1, 8, 1)]);
    // Lowest voxel at 7, highest grounded solid below it at 0: six free rows.
    assert_eq!(compute_drop_distance(&comps[0], &g, &grounded, &r), 6);
}

#[test]
fn pillar_keeps_overhang_grounded() {
    let (r, mut g) = floor_grid();
    for y in 1..6 {
        g.set(2, y, 2, true);
    }
    g.set(1, 5, 2, true);
    g.set(0, 5, 2, true);
    let grounded = flood_fill_grounded(&g, &r);
    assert!(grounded.get(0, 5, 2));
    assert!(find_floating_components(&g, &grounded).is_empty());
}

#[test]
fn two_blocks_are_separate_components_in_scan_order() {
    let (r, mut g) = floor_grid();
    g.set(3, 6, 3, true);
    g.set(0, 8, 0, true);
    g.set(0, 8, 1, true);
    let grounded = flood_fill_grounded(&g, &r);
    let comps = find_floating_components(&g, &grounded);
    assert_eq!(comps.len(), 2);
    assert_eq!(comps[0][0], (0, 8, 0));
    assert_eq!(comps[1], vec![(3, 6, 3)]);
}

#[test]
fn drop_limited_by_shortest_column() {
    let (r, mut g) = floor_grid();
    // A two-column bridge; under one column a grounded pillar reaches y = 4.
    g.set(0, 8, 0, true);
    g.set(1, 8, 0, true);
    for y in 1..5 {
        g.set(1, y, 0, true);
    }
    let grounded = flood_fill_grounded(&g, &r);
    let comps = find_floating_components(&g, &grounded);
    assert_eq!(comps.len(), 1);
    assert_eq!(compute_drop_distance(&comps[0], &g, &grounded, &r), 3);
}

#[test]
fn drops_skip_unedited_and_resting_components() {
    let (r, mut g) = floor_grid();
    g.set(0, 6, 0, true);
    g.set(3, 1, 3, false);
    g.set(3, 5, 3, true);
    let grounded = flood_fill_grounded(&g, &r);
    let comps = find_floating_components(&g, &grounded);
    assert_eq!(comps.len(), 2);
    assert_eq!(select_drops(&comps, &vec![true, true], &g, &grounded, &r), vec![(0, 5), (1, 4)]);
    assert_eq!(select_drops(&comps, &vec![false, true], &g, &grounded, &r), vec![(1, 4)]);
}

#[test]
fn overlapping_drop_keeps_destination_cells() {
    let (r, mut g) = floor_grid();
    for y in 3..7 {
        g.set(2, y, 2, false);
    }
    let comp = vec![(2, 5, 2), (2, 6, 2), (2, 7, 2)];
    let (dest, erase) = plan_component_drop(&comp, 1, &g);
    assert_eq!(dest, vec![Some((2, 4, 2)), Some((2, 5, 2)), Some((2, 6, 2))]);
    assert_eq!(erase, vec![false, false, true]);
    let _ = r;
}

#[test]
fn drop_below_grid_has_no_destination() {
    let (_r, g) = floor_grid();
    let comp = vec![(1, 2, 1)];
    let (dest, erase) = plan_component_drop(&comp, 5, &g);
    assert_eq!(dest, vec![None]);
    assert_eq!(erase, vec![true]);
}

#[test]
fn scan_region_margin_and_clipping() {
    // Footprint 10..=12 x 20..=21: extent 2, margin max(4, 8) = 8.
    let r = build_scan_region(10, 12, 20, 21, -1, 40, 100, 25);
    assert_eq!((r.min_x, r.max_x), (2, 20));
    assert_eq!((r.min_z, r.max_z), (12, 24));
    assert_eq!((r.min_y, r.max_y), (-1, 40));
    // A wide footprint caps the margin at 32 and clips at zero.
    let r = build_scan_region(0, 50, 0, 0, 0, 10, 1000, 1000);
    assert_eq!((r.min_x, r.max_x, r.min_z, r.max_z), (0, 82, 0, 32));
}

#[test]
fn dropped_component_rests_on_grounded_solid() {
    let (r, mut g) = floor_grid();
    // An L-shaped floating piece over a grounded pillar of height 3 at (2, _, 2).
    g.set(2, 7, 2, true);
    g.set(3, 7, 2, true);
    g.set(3, 8, 2, true);
    for y in 1..4 {
        g.set(2, y, 2, true);
    }
    let grounded = flood_fill_grounded(&g, &r);
    let comps = find_floating_components(&g, &grounded);
    assert_eq!(comps.len(), 1);
    let d = compute_drop_distance(&comps[0], &g, &grounded, &r);
    assert_eq!(d, 3);
    let (dest, _) = plan_component_drop(&comps[0], d, &g);
    // Every voxel lands in a cell that is not grounded solid, and the voxel
    // over the pillar ends directly on top of it.
    for cell in dest.iter() {
        let (x, y, z) = cell.expect("stays in the grid");
        assert!(!(g.get(x, y, z) && grounded.get(x, y, z)));
    }
    assert!(dest.contains(&Some((2, 4, 2))));
    assert!(g.get(2, 3, 2) && grounded.get(2, 3, 2));
}
