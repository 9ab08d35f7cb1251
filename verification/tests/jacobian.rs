use lib::jacobian::{active_rows, manipulability_case, Jacobian, ManipulabilityCase};

#[test]
fn from_vec_takes_width_of_first_row() {
    let j = Jacobian::from_vec(vec![vec![1.0, 2.0], vec![3.0, 4.0], vec![0.0, 0.0]]);
    assert_eq!(j.n_joints, 2);
    assert_eq!(j.data.len(), 3);
}

#[test]
fn from_vec_of_nothing_has_no_joints() {
    let j: Jacobian<f64> = Jacobian::from_vec(vec![]);
    assert_eq!(j.n_joints, 0);
}

#[test]
fn active_rows_in_order() {
    assert_eq!(active_rows(&[true, false, true, true]), vec![0, 2, 3]);
    assert_eq!(active_rows(&[false, false]), Vec::<usize>::new());
    assert_eq!(active_rows(&[]), Vec::<usize>::new());
}

fn rows_of(case: ManipulabilityCase) -> Option<Vec<usize>> {
    match case {
        ManipulabilityCase::Zero => None,
        ManipulabilityCase::Rows(r) => Some(r),
    }
}

#[test]
fn manipulability_case_zero_for_empty_matrix() {
    assert_eq!(rows_of(manipulability_case(0, 2, &[])), None);
    assert_eq!(rows_of(manipulability_case(3, 0, &[true, true, true])), None);
}

#[test]
fn manipulability_case_zero_without_active_rows() {
    assert_eq!(rows_of(manipulability_case(3, 2, &[false, false, false])), None);
}

#[test]
fn manipulability_case_takes_every_active_row() {
    assert_eq!(rows_of(manipulability_case(4, 4, &[true, true, true, true])), Some(vec![0, 1, 2, 3]));
    assert_eq!(
        rows_of(manipulability_case(6, 3, &[true, true, false, true, true, true])),
        Some(vec![0, 1, 3, 4, 5])
    );
}

#[test]
fn manipulability_case_uses_active_rows() {
    assert_eq!(rows_of(manipulability_case(3, 2, &[true, true, false])), Some(vec![0, 1]));
    assert_eq!(rows_of(manipulability_case(6, 2, &[false, false, true, false, true, true])), Some(vec![2, 4, 5]));
}
