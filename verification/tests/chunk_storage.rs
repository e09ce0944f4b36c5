use pixy_terrain::chunk_storage::{pack_rows, unpack_or_default, unpack_rows};

#[test]
fn rows_pack_row_major() {
    let rows: Vec<Vec<f32>> = vec![vec![1.0, 2.0, 3.0], vec![4.0, 5.0, 6.0]];
    let flat = pack_rows(&rows, 3, 2).expect("shaped");
    assert_eq!(flat, vec![1.0, 2.0, 3.0, 4.0, 5.0, 6.0]);
}

#[test]
fn misshaped_rows_are_not_packed() {
    let rows: Vec<Vec<i32>> = vec![vec![1, 2, 3], vec![4, 5]];
    assert_eq!(pack_rows(&rows, 3, 2), None);
    assert_eq!(pack_rows(&rows, 3, 3), None);
}

#[test]
fn restore_gives_back_saved_rows() {
    let rows: Vec<Vec<f32>> = (0..4).map(|z| (0..5).map(|x| (z * 10 + x) as f32 * 0.5).collect()).collect();
    let flat = pack_rows(&rows, 5, 4).expect("shaped");
    assert_eq!(unpack_rows(&flat, 5, 4), Some(rows));
}

#[test]
fn restore_refuses_wrong_size() {
    let flat = vec![0u8; 11];
    assert_eq!(unpack_rows(&flat, 3, 4), None);
    assert_eq!(unpack_rows(&vec![0u8; 12], 3, 4).map(|r| r.len()), Some(4));
}

#[test]
fn unpack_or_default_falls_back() {
    let flat = vec![[0.5f32, 0.5, 0.0, 0.0]; 3];
    assert_eq!(unpack_or_default(&flat, 3, [1.0, 0.0, 0.0, 0.0]), flat);
    assert_eq!(unpack_or_default(&flat, 2, [1.0, 0.0, 0.0, 0.0]), vec![[1.0, 0.0, 0.0, 0.0]; 2]);
}
