//! The control of the iterative (damped least-squares) inverse kinematics
//! solver: when it refuses its input, when it stops with a solution, when it
//! takes another step, and how it concludes once its budget is spent.
//!
//! The numeric work of each round (the end-effector error, the Jacobian and
//! the joint update) is done by the caller, which reports whether the error
//! is within tolerance.

use vstd::prelude::*;

verus! {

/// Why inverse kinematics gives no solution.
#[derive(Debug, PartialEq, Eq, Structural, Clone, Copy)]
pub enum IkError {
    /// The initial angles do not match the number of joints.
    AngleCountMismatch,
    /// The iterations ran out and the final error is still too large.
    NotConverged,
}

/// What the solver does after a round's error has been measured.
#[derive(Debug, PartialEq, Eq, Structural, Clone, Copy)]
pub enum IkStep {
    /// The error is within tolerance: the current angles are the answer.
    Converged,
    /// Take a Jacobian step and measure again.
    Update,
}

/// The iteration budget of one inverse kinematics run.
pub struct IkIterations {
    done: usize,
    limit: usize,
}

impl IkIterations {
    /// Number of update steps taken so far.
    pub closed spec fn done(&self) -> nat {
        self.done as nat
    }

    /// Largest number of update steps the run may take.
    pub closed spec fn limit(&self) -> nat {
        self.limit as nat
    }

    #[verifier::type_invariant]
    spec fn within_budget(&self) -> bool {
        self.done <= self.limit
    }

    /// Starts a run for a chain of `n_joints` joints from `n_initial_angles`
    /// initial angles, with at most `max_iterations` update steps; refused
    /// when the number of initial angles is not the number of joints.
    pub fn start(n_joints: usize, n_initial_angles: usize, max_iterations: usize) -> (run: Result<
        IkIterations,
        IkError,
    >)
        ensures
            match run {
                Ok(r) => n_initial_angles == n_joints && r.done() == 0 && r.limit() == max_iterations,
                Err(e) => n_initial_angles != n_joints && e == IkError::AngleCountMismatch,
            },
    {
        if n_initial_angles != n_joints {
            return Err(IkError::AngleCountMismatch);
        }
        Ok(IkIterations { done: 0, limit: max_iterations })
    }

    /// Whether another round may be measured.
    pub fn has_budget(&self) -> (more: bool)
        ensures
            more == (self.done() < self.limit()),
            self.done() <= self.limit(),
    {
        proof {
            use_type_invariant(self);
        }
        self.done < self.limit
    }

    /// Records a round whose error was (or was not) within tolerance and says
    /// what follows; only a step that does not converge uses up budget.
    pub fn record(&mut self, within_tolerance: bool) -> (step: IkStep)
        requires
            old(self).done() < old(self).limit(),
        ensures
            final(self).limit() == old(self).limit(),
            final(self).done() <= final(self).limit(),
            within_tolerance ==> step == IkStep::Converged && final(self).done() == old(self).done(),
            !within_tolerance ==> step == IkStep::Update && final(self).done() == old(self).done() + 1,
    {
        proof {
            use_type_invariant(&*self);
        }
        if within_tolerance {
            IkStep::Converged
        } else {
            self.done = self.done + 1;
            IkStep::Update
        }
    }

    /// The answer once the budget is spent: a solution when the final error
    /// is within the (looser) final tolerance, else no convergence.
    pub fn conclude(&self, within_final_tolerance: bool) -> (verdict: Result<(), IkError>)
        requires
            self.done() == self.limit(),
        ensures
            within_final_tolerance ==> verdict == Ok::<(), IkError>(()),
            !within_final_tolerance ==> verdict == Err::<(), IkError>(IkError::NotConverged),
    {
        if within_final_tolerance {
            Ok(())
        } else {
            Err(IkError::NotConverged)
        }
    }
}

/// Why the analytical two-link solution does not exist.
#[derive(Debug, PartialEq, Eq, Structural, Clone, Copy)]
pub enum TwoLinkError {
    /// The target is farther from the base than the two links together reach.
    OutOfReach,
    /// The target is closer to the base than the difference of the link lengths.
    TooClose,
}

/// The reach check of the analytical two-link solution. `beyond_reach` says
/// whether the target's distance exceeds the sum of the link lengths,
/// `inside_inner_radius` whether it is below their difference; a target
/// beyond reach is reported as such whatever the other test says.
pub fn two_link_reach(beyond_reach: bool, inside_inner_radius: bool) -> (verdict: Result<(), TwoLinkError>)
    ensures
        beyond_reach ==> verdict == Err::<(), TwoLinkError>(TwoLinkError::OutOfReach),
        !beyond_reach && inside_inner_radius ==> verdict == Err::<(), TwoLinkError>(TwoLinkError::TooClose),
        !beyond_reach && !inside_inner_radius ==> verdict == Ok::<(), TwoLinkError>(()),
{
    if beyond_reach {
        return Err(TwoLinkError::OutOfReach);
    }
    if inside_inner_radius {
        return Err(TwoLinkError::TooClose);
    }
    Ok(())
}

} // verus!
