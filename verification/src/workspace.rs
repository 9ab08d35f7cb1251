//! The reachability rule of workspace analysis.

use vstd::prelude::*;

verus! {

/// Whether a target counts as reachable: its distance from the base lies in
/// the sampled reach band (widened by the tolerance), and some sampled
/// end-effector position lies within the tolerance of it.
///
/// `within_reach_band` says whether the target's distance lies in the band;
/// `near_sample[k]` whether sample `k` lies within the tolerance of the target.
pub fn reachable_verdict(within_reach_band: bool, near_sample: &[bool]) -> (reachable: bool)
    ensures
        reachable == (within_reach_band && exists|k: int| 0 <= k < near_sample@.len() && #[trigger] near_sample@[k]),
{
    if !within_reach_band {
        return false;
    }
    let mut k: usize = 0;
    while k < near_sample.len()
        invariant
            within_reach_band,
            k <= near_sample@.len(),
            forall|j: int| 0 <= j < k ==> !#[trigger] near_sample@[j],
        decreases near_sample@.len() - k,
    {
        if near_sample[k] {
            return true;
        }
        k += 1;
    }
    false
}

} // verus!
