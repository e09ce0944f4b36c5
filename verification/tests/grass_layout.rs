use pixy_terrain::grass_layout::{cell_instance_range, instance_count, texture_has_grass};

#[test]
fn instance_count_covers_every_cell() {
    // 33 x 33 grid points: 32 x 32 cells, 3 x 3 blades each.
    assert_eq!(instance_count(33, 33, 3), 32 * 32 * 9);
    assert_eq!(instance_count(1, 5, 4), 0);
    assert_eq!(instance_count(4, 4, 0), 0);
}

#[test]
fn cell_blocks_are_consecutive_and_disjoint() {
    assert_eq!(cell_instance_range(0, 0, 5, 5, 2), (0, 4));
    assert_eq!(cell_instance_range(1, 0, 5, 5, 2), (4, 8));
    assert_eq!(cell_instance_range(0, 1, 5, 5, 2), (16, 20));
    assert_eq!(cell_instance_range(3, 3, 5, 5, 2), (60, 64));
    let mut seen = vec![false; instance_count(5, 5, 2) as usize];
    for z in 0..4 {
        for x in 0..4 {
            let (a, b) = cell_instance_range(x, z, 5, 5, 2);
            for i in a..b {
                assert!(!seen[i as usize]);
                seen[i as usize] = true;
            }
        }
    }
    assert!(seen.iter().all(|s| *s));
}

#[test]
fn grass_follows_texture_flags_and_mask() {
    let flags = [true, false, true, false, false];
    assert!(texture_has_grass(1, false, &flags));
    assert!(texture_has_grass(2, false, &flags));
    assert!(!texture_has_grass(3, false, &flags));
    assert!(texture_has_grass(4, false, &flags));
    assert!(!texture_has_grass(6, false, &flags));
    assert!(!texture_has_grass(7, false, &flags));
    assert!(!texture_has_grass(16, false, &flags));
    assert!(texture_has_grass(16, true, &flags));
}
