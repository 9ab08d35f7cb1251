//! Denavit-Hartenberg parameter sets for a serial kinematic chain.
//!
//! The scalar type `S` is left open: the chain's structure (how many joints it
//! has, which joint variable a new angle replaces) does not depend on it.

use vstd::prelude::*;

verus! {

/// A single DH parameter set (standard convention).
/// Transform: Rot_z(theta) * Trans_z(d) * Trans_x(a) * Rot_x(alpha)
#[derive(Debug, Clone, Copy)]
pub struct DhParam<S> {
    /// Joint angle / variable (theta for revolute)
    pub theta: S,
    /// Link offset along z
    pub d: S,
    /// Link length along x
    pub a: S,
    /// Link twist about x
    pub alpha: S,
}

impl<S: Copy> DhParam<S> {
    /// Build a link from its four parameters, in the order theta, d, a, alpha.
    pub fn new(theta: S, d: S, a: S, alpha: S) -> (p: Self)
        ensures
            p == (DhParam { theta, d, a, alpha }),
    {
        DhParam { theta, d, a, alpha }
    }

    /// Create a revolute joint DH param (theta varies); the joint angle comes last.
    pub fn revolute(d: S, a: S, alpha: S, theta: S) -> (p: Self)
        ensures
            p == (DhParam { theta, d, a, alpha }),
    {
        DhParam { theta, d, a, alpha }
    }
}

/// The parameter set of `p` with its joint variable replaced by `theta`.
pub open spec fn with_theta<S>(p: DhParam<S>, theta: S) -> DhParam<S> {
    DhParam { theta, d: p.d, a: p.a, alpha: p.alpha }
}

/// The joint variables of a chain, base first.
pub open spec fn joint_angles<S>(links: Seq<DhParam<S>>) -> Seq<S> {
    links.map_values(|p: DhParam<S>| p.theta)
}

/// The chain `links` after the first `angles.len()` joint variables (or all
/// of them, when there are fewer joints) have been set from `angles`.
pub open spec fn links_with_angles<S>(links: Seq<DhParam<S>>, angles: Seq<S>) -> Seq<DhParam<S>> {
    Seq::new(
        links.len(),
        |i: int|
            if i < angles.len() {
                with_theta(links[i], angles[i])
            } else {
                links[i]
            },
    )
}

/// A set of DH parameters for a serial kinematic chain, base link first.
#[derive(Debug, Clone)]
pub struct DhParams<S> {
    pub params: Vec<DhParam<S>>,
}

impl<S> View for DhParams<S> {
    type V = Seq<DhParam<S>>;

    open spec fn view(&self) -> Seq<DhParam<S>> {
        self.params@
    }
}

impl<S: Copy> DhParams<S> {
    /// A chain made of `params`, in order from the base.
    pub fn new(params: Vec<DhParam<S>>) -> (chain: Self)
        ensures
            chain@ == params@,
    {
        DhParams { params }
    }

    /// Number of joints.
    pub fn n_joints(&self) -> (n: usize)
        ensures
            n == self@.len(),
    {
        self.params.len()
    }

    /// Set joint angles (modifies theta for revolute joints).
    ///
    /// Joint `i` takes `angles[i]`; angles beyond the last joint are ignored,
    /// and joints beyond the last angle keep theirs.
    pub fn set_angles(&mut self, angles: &[S])
        ensures
            final(self)@ == links_with_angles(old(self)@, angles@),
            final(self)@.len() == old(self)@.len(),
            forall|i: int|
                0 <= i < old(self)@.len() ==> {
                    &&& (#[trigger] final(self)@[i]).theta == (if i < angles@.len() {
                        angles@[i]
                    } else {
                        old(self)@[i].theta
                    })
                    &&& final(self)@[i].d == old(self)@[i].d
                    &&& final(self)@[i].a == old(self)@[i].a
                    &&& final(self)@[i].alpha == old(self)@[i].alpha
                },
    {
        let n = self.params.len();
        let mut i: usize = 0;
        while i < angles.len()
            invariant
                n == old(self)@.len(),
                self@.len() == n,
                i <= angles@.len(),
                forall|j: int|
                    0 <= j < n ==> #[trigger] self@[j] == (if j < i {
                        links_with_angles(old(self)@, angles@)[j]
                    } else {
                        old(self)@[j]
                    }),
            decreases angles@.len() - i,
        {
            if i < n {
                self.params[i].theta = angles[i];
            }
            i += 1;
        }
        assert(self@ =~= links_with_angles(old(self)@, angles@));
    }

    /// Get current joint angles.
    pub fn get_angles(&self) -> (angles: Vec<S>)
        ensures
            angles@ == joint_angles(self@),
            angles@.len() == self@.len(),
            forall|i: int| 0 <= i < self@.len() ==> #[trigger] angles@[i] == self@[i].theta,
    {
        let mut angles: Vec<S> = Vec::new();
        let mut i: usize = 0;
        while i < self.params.len()
            invariant
                i <= self@.len(),
                angles@ =~= joint_angles(self@).take(i as int),
            decreases self@.len() - i,
        {
            angles.push(self.params[i].theta);
            i += 1;
        }
        angles
    }
}

/// Setting the joint angles changes nothing but joint variables: the chain
/// keeps its length and every link keeps its offset, length and twist.
pub proof fn lemma_set_angles_keeps_geometry<S>(links: Seq<DhParam<S>>, angles: Seq<S>)
    ensures
        links_with_angles(links, angles).len() == links.len(),
        forall|i: int|
            0 <= i < links.len() ==> {
                let p = #[trigger] links_with_angles(links, angles)[i];
                &&& p.d == links[i].d
                &&& p.a == links[i].a
                &&& p.alpha == links[i].alpha
            },
{
}

/// Reading the joint angles back after setting them gives the angles that
/// were set, for every joint that received one, and the old angle elsewhere;
/// with one angle per joint, exactly the angles that were set.
pub proof fn lemma_get_after_set<S>(links: Seq<DhParam<S>>, angles: Seq<S>)
    ensures
        joint_angles(links_with_angles(links, angles)).len() == links.len(),
        forall|i: int|
            0 <= i < links.len() ==> #[trigger] joint_angles(links_with_angles(links, angles))[i] == (if i
                < angles.len() {
                angles[i]
            } else {
                links[i].theta
            }),
        angles.len() == links.len() ==> joint_angles(links_with_angles(links, angles)) == angles,
{
    if angles.len() == links.len() {
        assert(joint_angles(links_with_angles(links, angles)) =~= angles);
    }
}

/// Setting a chain's joint angles to the ones it already has leaves it as it is.
pub proof fn lemma_set_current_angles<S>(links: Seq<DhParam<S>>)
    ensures
        links_with_angles(links, joint_angles(links)) == links,
{
    assert(links_with_angles(links, joint_angles(links)) =~= links);
}

/// A later setting that covers at least the joints of an earlier one wins:
/// the earlier setting leaves no trace.
pub proof fn lemma_set_angles_overrides<S>(links: Seq<DhParam<S>>, first: Seq<S>, second: Seq<S>)
    requires
        second.len() >= first.len() || second.len() >= links.len(),
    ensures
        links_with_angles(links_with_angles(links, first), second) == links_with_angles(links, second),
{
    assert(links_with_angles(links_with_angles(links, first), second) =~= links_with_angles(
        links,
        second,
    ));
}

} // verus!
