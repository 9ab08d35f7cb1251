use lib::inverse::{IkError, IkIterations, IkStep};

#[test]
fn start_refuses_mismatched_angles() {
    assert!(matches!(IkIterations::start(2, 3, 100), Err(IkError::AngleCountMismatch)));
    assert!(matches!(IkIterations::start(2, 0, 100), Err(IkError::AngleCountMismatch)));
}

#[test]
fn converging_round_keeps_budget() {
    let mut run = IkIterations::start(2, 2, 1).unwrap();
    assert!(run.has_budget());
    assert_eq!(run.record(true), IkStep::Converged);
    assert!(run.has_budget());
}

#[test]
fn budget_runs_out_after_max_updates() {
    let mut run = IkIterations::start(3, 3, 2).unwrap();
    assert_eq!(run.record(false), IkStep::Update);
    assert!(run.has_budget());
    assert_eq!(run.record(false), IkStep::Update);
    assert!(!run.has_budget());
    assert_eq!(run.conclude(false), Err(IkError::NotConverged));
    assert_eq!(run.conclude(true), Ok(()));
}

#[test]
fn zero_iterations_goes_straight_to_conclusion() {
    let run = IkIterations::start(1, 1, 0).unwrap();
    assert!(!run.has_budget());
    assert_eq!(run.conclude(true), Ok(()));
}

use lib::inverse::{two_link_reach, TwoLinkError};

#[test]
fn two_link_reach_verdicts() {
    assert_eq!(two_link_reach(false, false), Ok(()));
    assert_eq!(two_link_reach(true, false), Err(TwoLinkError::OutOfReach));
    assert_eq!(two_link_reach(false, true), Err(TwoLinkError::TooClose));
    assert_eq!(two_link_reach(true, true), Err(TwoLinkError::OutOfReach));
}
