use lib::chain::{DhParam, DhParams};

#[test]
fn test_params_set_get_angles() {
    let mut params = DhParams::new(vec![
        DhParam::revolute(0.0, 1.0, 0.0, 0.0),
        DhParam::revolute(0.0, 1.0, 0.0, 0.0),
    ]);
    params.set_angles(&[0.5, 1.0]);
    let angles: Vec<f64> = params.get_angles();
    assert!((angles[0] - 0.5).abs() < 1e-9);
    assert!((angles[1] - 1.0).abs() < 1e-9);
}

#[test]
fn new_and_revolute_place_the_joint_angle() {
    let p = DhParam::new(1, 2, 3, 4);
    assert_eq!((p.theta, p.d, p.a, p.alpha), (1, 2, 3, 4));
    let r = DhParam::revolute(2, 3, 4, 1);
    assert_eq!((r.theta, r.d, r.a, r.alpha), (1, 2, 3, 4));
}

#[test]
fn n_joints_counts_links() {
    let empty: DhParams<i32> = DhParams::new(vec![]);
    assert_eq!(empty.n_joints(), 0);
    let three = DhParams::new(vec![DhParam::new(0, 0, 1, 0); 3]);
    assert_eq!(three.n_joints(), 3);
}

#[test]
fn set_angles_with_fewer_angles_keeps_the_rest() {
    let mut params = DhParams::new(vec![
        DhParam::new(10, 1, 2, 3),
        DhParam::new(20, 4, 5, 6),
        DhParam::new(30, 7, 8, 9),
    ]);
    params.set_angles(&[-1]);
    assert_eq!(params.get_angles(), vec![-1, 20, 30]);
    assert_eq!(params.n_joints(), 3);
    assert_eq!((params.params[0].d, params.params[0].a, params.params[0].alpha), (1, 2, 3));
}

#[test]
fn set_angles_ignores_extra_angles() {
    let mut params = DhParams::new(vec![DhParam::new(10, 1, 2, 3), DhParam::new(20, 4, 5, 6)]);
    params.set_angles(&[7, 8, 9, 10]);
    assert_eq!(params.get_angles(), vec![7, 8]);
    assert_eq!(params.n_joints(), 2);
    assert_eq!((params.params[1].d, params.params[1].a, params.params[1].alpha), (4, 5, 6));
}

#[test]
fn set_current_angles_changes_nothing() {
    let mut params = DhParams::new(vec![DhParam::new(1.5, 0.0, 2.0, 0.25), DhParam::new(-0.5, 1.0, 1.0, 0.0)]);
    let angles = params.get_angles();
    params.set_angles(&angles);
    assert_eq!(params.get_angles(), vec![1.5, -0.5]);
    assert_eq!(params.params[0].alpha, 0.25);
}

#[test]
fn later_setting_overrides_earlier() {
    let mut params = DhParams::new(vec![DhParam::new(0, 0, 1, 0), DhParam::new(0, 0, 1, 0)]);
    params.set_angles(&[5]);
    params.set_angles(&[6, 7]);
    assert_eq!(params.get_angles(), vec![6, 7]);
}
