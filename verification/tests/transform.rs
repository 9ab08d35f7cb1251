use lib::transform::{position, rotation_matrix};

fn sample() -> [[i32; 4]; 4] {
    [[1, 2, 3, 4], [5, 6, 7, 8], [9, 10, 11, 12], [13, 14, 15, 16]]
}

#[test]
fn position_is_last_column() {
    assert_eq!(position(&sample()), (4, 8, 12));
}

#[test]
fn rotation_is_upper_left_block() {
    assert_eq!(rotation_matrix(&sample()), [[1, 2, 3], [5, 6, 7], [9, 10, 11]]);
}

#[test]
fn parts_of_a_float_transform() {
    let t = [[0.0, -1.0, 0.0, 2.5], [1.0, 0.0, 0.0, -1.0], [0.0, 0.0, 1.0, 0.5], [0.0, 0.0, 0.0, 1.0]];
    assert_eq!(position(&t), (2.5, -1.0, 0.5));
    assert_eq!(rotation_matrix(&t)[1], [1.0, 0.0, 0.0]);
}
