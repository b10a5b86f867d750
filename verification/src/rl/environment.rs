//! What a learner needs of the world it acts in, and of whoever acts in it.
use crate::num::{self, Scalar};
use vstd::prelude::*;

verus! {

/// What a decision led to.
#[derive(Clone, Copy, Debug)]
pub struct StepResult<S> {
    pub reward: S,
    pub terminated: bool,
    pub truncated: bool,
    pub success: bool,
}

impl<S: Scalar> Default for StepResult<S> {
    /// Nothing earned, and the episode goes on.
    fn default() -> (r: Self)
        ensures
            !r.terminated && !r.truncated && !r.success,
            num::repeatable::<S>() ==> r.reward == num::zero::<S>(),
    {
        StepResult {
            reward: S::from_count(0),
            terminated: false,
            truncated: false,
            success: false,
        }
    }
}

impl<S> StepResult<S> {
    /// Whether the episode is over.
    pub open spec fn done(self) -> bool {
        self.terminated || self.truncated
    }
}

/// The length of the observations of an environment that does not say what it is: a fixed number of
/// which nothing is known.
pub closed spec fn unstated_width<E>(env: E) -> nat {
    arbitrary()
}

/// An environment in which episodes take place. What it shows, where a decision leads and how an
/// episode starts are relations: an environment need not be deterministic. One that says nothing of
/// them can always be used, has observations of one length, and may otherwise do anything.
pub trait Environment<S: Scalar>: Send + Sized {
    /// Whether the environment can be used.
    open spec fn ready(&self) -> bool {
        true
    }

    /// The length of an observation. An environment that does not give it has a fixed one that is
    /// not known.
    open spec fn width(&self) -> nat {
        unstated_width(self)
    }

    /// Whether the environment can look like `obs`.
    open spec fn shows(&self, obs: Seq<S>) -> bool {
        true
    }

    /// Whether `action` can lead from `self` to `after`, with the given result.
    open spec fn steps(&self, action: [S; 2], after: &Self, result: StepResult<S>) -> bool {
        true
    }

    /// Whether an episode that starts after `self` can start in `after`.
    open spec fn resets(&self, after: &Self) -> bool {
        true
    }

    /// The length of an observation.
    fn obs_dim(&self) -> (r: usize)
        requires
            self.ready(),
        ensures
            r == self.width(),
    ;

    /// Writes an observation to `out`.
    fn observe(&self, out: &mut [S])
        requires
            self.ready(),
            old(out)@.len() == self.width(),
        ensures
            final(out)@.len() == old(out)@.len(),
            self.shows(final(out)@),
    ;

    /// Takes one decision.
    fn step_env(&mut self, action: [S; 2]) -> (r: StepResult<S>)
        requires
            old(self).ready(),
        ensures
            final(self).ready(),
            final(self).width() == old(self).width(),
            old(self).steps(action, final(self), r),
    ;

    /// Starts the next episode.
    fn reset_env(&mut self)
        requires
            old(self).ready(),
        ensures
            final(self).ready(),
            final(self).width() == old(self).width(),
            old(self).resets(final(self)),
    ;
}

/// Someone who acts on observations.
pub trait Agent<S: Scalar>: Sized {
    /// Whether the agent can act on observations of the length `n`.
    open spec fn acts_on(&self, n: nat) -> bool {
        true
    }

    /// Whether the agent can choose `action` for `obs` and be `after` from then on.
    open spec fn chooses(&self, obs: Seq<S>, action: [S; 2], after: &Self) -> bool {
        true
    }

    /// Chooses an action.
    fn action(&mut self, obs: &[S]) -> (r: [S; 2])
        requires
            old(self).acts_on(obs@.len()),
        ensures
            final(self).acts_on(obs@.len()),
            old(self).chooses(obs@, r, final(self)),
    ;
}

} // verus!
