use lib::workspace::reachable_verdict;

#[test]
fn reachable_needs_band_and_a_near_sample() {
    assert!(reachable_verdict(true, &[false, true, false]));
    assert!(!reachable_verdict(false, &[true, true]));
    assert!(!reachable_verdict(true, &[false, false]));
    assert!(!reachable_verdict(true, &[]));
}
