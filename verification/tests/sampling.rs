use lib::sampling::{index_combinations, sample_divisor};

#[test]
fn combinations_of_two_joints_three_samples() {
    let c = index_combinations(2, 3);
    let expected: Vec<Vec<usize>> = vec![
        vec![0, 0], vec![0, 1], vec![0, 2],
        vec![1, 0], vec![1, 1], vec![1, 2],
        vec![2, 0], vec![2, 1], vec![2, 2],
    ];
    assert_eq!(c, expected);
}

#[test]
fn combinations_count_is_samples_to_the_joints() {
    assert_eq!(index_combinations(3, 2).len(), 8);
    assert_eq!(index_combinations(2, 20).len(), 400);
    assert_eq!(index_combinations(1, 7).len(), 7);
}

#[test]
fn combinations_without_joints_is_one_empty_choice() {
    assert_eq!(index_combinations(0, 5), vec![Vec::<usize>::new()]);
    assert_eq!(index_combinations(0, 0), vec![Vec::<usize>::new()]);
}

#[test]
fn combinations_without_samples_is_empty() {
    assert!(index_combinations(3, 0).is_empty());
}

#[test]
fn combination_at_position_is_its_base_digits() {
    let c = index_combinations(3, 4);
    for (j, t) in c.iter().enumerate() {
        assert_eq!(t.len(), 3);
        assert_eq!(t[0] * 16 + t[1] * 4 + t[2], j);
    }
}

#[test]
fn every_choice_appears_once() {
    let c = index_combinations(2, 4);
    for a in 0..4 {
        for b in 0..4 {
            assert_eq!(c.iter().filter(|t| **t == vec![a, b]).count(), 1);
        }
    }
}

#[test]
fn sample_divisor_values() {
    assert_eq!(sample_divisor(0), 1);
    assert_eq!(sample_divisor(1), 1);
    assert_eq!(sample_divisor(2), 1);
    assert_eq!(sample_divisor(20), 19);
}
