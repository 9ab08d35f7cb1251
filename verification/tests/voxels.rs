use lib::voxels::distinct_voxel_count;

#[test]
fn repeated_voxels_count_once() {
    assert_eq!(distinct_voxel_count(&[(0, 0, 0), (0, 0, 0), (1, 0, 0)]), 2);
}

#[test]
fn no_points_no_voxels() {
    assert_eq!(distinct_voxel_count(&[]), 0);
}

#[test]
fn voxels_differing_in_one_axis_are_distinct() {
    let v = [(-1, 2, 3), (-1, 2, -3), (-1, -2, 3), (1, 2, 3), (-1, 2, 3), (1, 2, 3)];
    assert_eq!(distinct_voxel_count(&v), 4);
}

#[test]
fn extreme_coordinates() {
    let v = [(i64::MIN, i64::MAX, 0), (i64::MAX, i64::MIN, 0), (i64::MIN, i64::MAX, 0)];
    assert_eq!(distinct_voxel_count(&v), 2);
}

#[test]
fn many_points_few_voxels() {
    let v: Vec<(i64, i64, i64)> = (0..10_000).map(|k| (k % 7, (k / 7) % 3, k % 2)).collect();
    assert_eq!(distinct_voxel_count(&v), 42);
}
