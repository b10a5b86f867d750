//! The simulator and learned dynamics as environments.
//!
//! [`WorldEnv`] uses the simulator only for observation encoding and analytic reward logic; its
//! state transitions come exclusively from the predictions of a model.
use crate::env::observation::{self, ObsLayout};
use crate::env::reward::{self, evaluate_transition, EnvConfig};
use crate::env::simulator::{self, Env};
use crate::env::state::{self, decode_state, encode_state, FullState, STATE_DIM};
use crate::num::{self, Meaning, Scalar};
use crate::rl::environment::{Environment, StepResult};
use crate::world::model::{Dynamics, PredictionWorkspace, WorldModel};
use vstd::prelude::*;

verus! {

/// The simulator, seen through a layout.
#[derive(Debug)]
pub struct RealEnv<S> {
    pub env: Env<S>,
    pub layout: ObsLayout,
}

/// Learned dynamics with analytic rewards.
#[derive(Debug)]
pub struct WorldEnv<S> {
    pub model: WorldModel<S>,
    pub workspace: PredictionWorkspace<S>,
    pub state: Vec<S>,
    pub starts: Vec<Vec<S>>,
    pub cursor: usize,
    pub shadow: Env<S>,
    pub uncertainty_limit: S,
    pub uncertainty_penalty: S,
    /// Maximum number of imagined steps before a receding-horizon reset. A truncated model rollout
    /// is bootstrapped by the learner's value function.
    pub rollout_horizon: usize,
    pub steps_since_reset: usize,
    pub last_uncertainty: S,
    pub last_uncertainty_guarded: bool,
    pub last_horizon_truncated: bool,
    pub layout: ObsLayout,
}

/// The value of a [`WorldEnv`].
#[verifier::ext_equal]
pub struct Dream<S> {
    pub model: Dynamics<S>,
    pub state: Seq<S>,
    pub starts: Seq<Seq<S>>,
    pub cursor: nat,
    pub limit: S,
    pub penalty: S,
    pub horizon: usize,
    pub steps: usize,
    pub uncertainty: S,
    pub guarded: bool,
    pub cut: bool,
    pub keys: Seq<observation::ObservationKey>,
    pub seconds: S,
}

/// What a decision in the simulator led to, for a learner.
pub open spec fn reported<S>(r: reward::StepResult<S>) -> StepResult<S> {
    StepResult {
        reward: r.reward,
        terminated: r.terminated,
        truncated: r.truncated,
        success: r.success,
    }
}

impl<S: Scalar> RealEnv<S> {
    /// The first episode that `seed` leads to.
    pub fn new(seed: u64, config: EnvConfig, layout: ObsLayout) -> (r: Self)
        requires
            config.max_decisions > 0,
            layout.wf(),
        ensures
            r.ready(),
            r.layout == layout,
            r.env.config == config,
            num::repeatable::<S>() ==> r.env == simulator::first_episode::<S>(seed, config),
    {
        RealEnv { env: Env::with_config(seed, config), layout }
    }
}

impl<S: Scalar> Environment<S> for RealEnv<S> {
    open spec fn ready(&self) -> bool {
        self.layout.wf()
    }

    open spec fn width(&self) -> nat {
        self.layout.dim as nat
    }

    open spec fn shows(&self, obs: Seq<S>) -> bool {
        &&& obs.len() == self.layout.dim
        &&& num::repeatable::<S>() ==> obs == self.env.seen(self.layout.keys@)
    }

    open spec fn steps(&self, action: [S; 2], after: &Self, result: StepResult<S>) -> bool {
        &&& after.layout == self.layout
        &&& after.env.config == self.env.config
        &&& !(result.terminated && result.truncated)
        &&& result.success ==> result.terminated
        &&& num::repeatable::<S>() ==> after.env == self.env.decided(action)
        &&& num::repeatable::<S>() ==> result == reported(self.env.outcome(action))
    }

    open spec fn resets(&self, after: &Self) -> bool {
        &&& after.layout == self.layout
        &&& after.env.config == self.env.config
        &&& num::repeatable::<S>() ==> after.env == self.env.restarted()
    }

    fn obs_dim(&self) -> (r: usize) {
        self.layout.dim
    }

    fn observe(&self, out: &mut [S]) {
        self.env.observe_layout(&self.layout, out)
    }

    fn step_env(&mut self, action: [S; 2]) -> (r: StepResult<S>) {
        let r: reward::StepResult<S> = self.env.step_result(action);
        StepResult {
            reward: r.reward,
            terminated: r.terminated,
            truncated: r.truncated,
            success: r.success,
        }
    }

    fn reset_env(&mut self) {
        self.env.reset()
    }
}

/// The encoded state as an array.
pub fn state_array<S: Scalar>(state: &[S]) -> (r: [S; STATE_DIM])
    requires
        state@.len() == STATE_DIM,
    ensures
        r@ == state@,
{
    let r: [S; STATE_DIM] = [
        state[0],
        state[1],
        state[2],
        state[3],
        state[4],
        state[5],
        state[6],
        state[7],
        state[8],
        state[9],
        state[10],
        state[11],
        state[12],
        state[13],
        state[14],
        state[15],
        state[16],
        state[17],
    ];
    assert(r@ =~= state@);
    r
}

/// The values of a list of states.
pub open spec fn states_of<S>(list: Seq<Vec<S>>) -> Seq<Seq<S>> {
    Seq::new(list.len(), |i: int| list[i]@)
}

/// Whether every state has the length of an encoded one.
pub open spec fn all_states<S>(list: Seq<Seq<S>>) -> bool {
    forall|i: int| 0 <= i < list.len() ==> (#[trigger] list[i]).len() == STATE_DIM
}

impl<S: Scalar> Dream<S> {
    /// The state that the model predicts, with the clock of success moved by what it implies.
    pub open spec fn imagined(self, action: [S; 2]) -> FullState<S> {
        let prev = state::decoded(self.state);
        let next = state::decoded(self.model.next(self.state, action@, None));
        FullState {
            success_hold_seconds: if next.block.distance(next.goal).is_at_most(
                S::fraction(7, 100),
            ) {
                prev.success_hold_seconds.sum(S::fraction(1, 15))
            } else {
                num::zero()
            },
            ..next
        }
    }

    /// How far the members of the model are apart.
    pub open spec fn doubt(self, action: [S; 2]) -> S {
        self.model.uncertainty(self.state, action@)
    }

    /// Whether one more step uses up the horizon.
    pub open spec fn at_horizon(self) -> bool {
        self.horizon > 0 && self.steps.wrapping_add(1) >= self.horizon
    }

    /// What follows after a decision.
    pub open spec fn stepped(self, action: [S; 2]) -> Self {
        Dream {
            state: state::encoded(self.imagined(action)),
            steps: self.steps.wrapping_add(1),
            uncertainty: self.doubt(action),
            guarded: self.limit.is_less(self.doubt(action)),
            cut: self.at_horizon(),
            ..self
        }
    }

    /// What a decision leads to. Uncertainty costs reward, and beyond its limit it ends the
    /// rollout, as the horizon does.
    pub open spec fn outcome(self, action: [S; 2]) -> StepResult<S> {
        let r = reward::verdict(
            state::decoded(self.state),
            self.imagined(action),
            action,
            reward::default_config(),
        );
        StepResult {
            reward: r.reward.difference(self.penalty.product(self.doubt(action))),
            terminated: r.terminated,
            truncated: r.truncated || self.at_horizon() || self.limit.is_less(self.doubt(action)),
            success: r.success,
        }
    }

    /// The next rollout.
    pub open spec fn restarted(self) -> Self {
        let cursor = (self.cursor + 1) % self.starts.len();
        Dream {
            cursor,
            state: self.starts[cursor as int],
            steps: 0,
            uncertainty: num::zero(),
            guarded: false,
            cut: false,
            ..self
        }
    }

    /// What a policy sees.
    pub open spec fn seen(self) -> Seq<S> {
        state::observed(state::decoded(self.state), self.keys, self.seconds, self.keys.len())
    }
}

impl<S: Scalar> View for WorldEnv<S> {
    type V = Dream<S>;

    open spec fn view(&self) -> Dream<S> {
        Dream {
            model: self.model@,
            state: self.state@,
            starts: states_of(self.starts@),
            cursor: self.cursor as nat,
            limit: self.uncertainty_limit,
            penalty: self.uncertainty_penalty,
            horizon: self.rollout_horizon,
            steps: self.steps_since_reset,
            uncertainty: self.last_uncertainty,
            guarded: self.last_uncertainty_guarded,
            cut: self.last_horizon_truncated,
            keys: self.layout.keys@,
            seconds: reward::episode_seconds(self.shadow.config),
        }
    }
}

/// The state that an encoded state is observed as, through a layout.
pub fn observe_encoded<S: Scalar>(shadow: &Env<S>, state: &[S], layout: &ObsLayout, out: &mut [S])
    requires
        state@.len() == STATE_DIM,
        layout.wf(),
        old(out)@.len() == layout.dim,
    ensures
        final(out)@.len() == old(out)@.len(),
        num::repeatable::<S>() ==> final(out)@ == state::observed(
            state::decoded(state@),
            layout.keys@,
            reward::episode_seconds(shadow.config),
            layout.keys@.len(),
        ),
{
    let mut copy: Env<S> = *shadow;
    copy.set_state(decode_state(state_array(state)));
    copy.observe_layout(layout, out);
}

impl<S: Scalar> WorldEnv<S> {
    /// An environment that starts at the first of `starts`.
    pub fn new(
        model: WorldModel<S>,
        starts: Vec<Vec<S>>,
        layout: ObsLayout,
        rollout_horizon: usize,
        uncertainty_limit: S,
    ) -> (r: Self)
        requires
            model@.wf(),
            model@.state_dim <= STATE_DIM,
            starts@.len() > 0,
            all_states(states_of(starts@)),
            layout.wf(),
        ensures
            r.ready(),
            num::repeatable::<S>() ==> r@ == begun(
                model@,
                states_of(starts@),
                layout.keys@,
                rollout_horizon,
                uncertainty_limit,
                num::zero(),
            ),
            r.layout == layout,
            r.rollout_horizon == rollout_horizon,
            r.steps_since_reset == 0,
            r@.model == model@,
            r@.starts == states_of(starts@),
            r@.state == starts@[0]@,
    {
        Self::with_penalty(
            model,
            starts,
            layout,
            rollout_horizon,
            uncertainty_limit,
            S::from_count(0),
        )
    }

    /// As [`WorldEnv::new`], with a price on uncertainty.
    pub fn with_penalty(
        model: WorldModel<S>,
        starts: Vec<Vec<S>>,
        layout: ObsLayout,
        rollout_horizon: usize,
        uncertainty_limit: S,
        uncertainty_penalty: S,
    ) -> (r: Self)
        requires
            model@.wf(),
            model@.state_dim <= STATE_DIM,
            starts@.len() > 0,
            all_states(states_of(starts@)),
            layout.wf(),
        ensures
            r.ready(),
            num::repeatable::<S>() ==> r@ == begun(
                model@,
                states_of(starts@),
                layout.keys@,
                rollout_horizon,
                uncertainty_limit,
                uncertainty_penalty,
            ),
            r.layout == layout,
            r.rollout_horizon == rollout_horizon,
            r.steps_since_reset == 0,
            r@.model == model@,
            r@.starts == states_of(starts@),
            r@.state == starts@[0]@,
    {
        let mut shadow: Env<S> = Env::with_config(1, EnvConfig::default());
        assert(states_of(starts@)[0].len() == STATE_DIM);
        shadow.set_state(decode_state(state_array(starts[0].as_slice())));
        let workspace: PredictionWorkspace<S> = model.workspace();
        WorldEnv {
            model,
            workspace,
            state: vstd::slice::slice_to_vec(starts[0].as_slice()),
            starts,
            cursor: 0,
            shadow,
            uncertainty_limit,
            uncertainty_penalty,
            rollout_horizon,
            steps_since_reset: 0,
            last_uncertainty: S::from_count(0),
            last_uncertainty_guarded: false,
            last_horizon_truncated: false,
            layout,
        }
    }
}

/// The value of an environment that starts at the first of `starts`.
pub open spec fn begun<S: Scalar>(
    model: Dynamics<S>,
    starts: Seq<Seq<S>>,
    keys: Seq<observation::ObservationKey>,
    horizon: usize,
    limit: S,
    penalty: S,
) -> Dream<S> {
    Dream {
        model,
        state: starts[0],
        starts,
        cursor: 0,
        limit,
        penalty,
        horizon,
        steps: 0,
        uncertainty: num::zero(),
        guarded: false,
        cut: false,
        keys,
        seconds: reward::episode_seconds(reward::default_config()),
    }
}

impl<S: Scalar> Environment<S> for WorldEnv<S> {
    open spec fn ready(&self) -> bool {
        &&& self.model@.wf()
        &&& self.model@.state_dim <= STATE_DIM
        &&& self.workspace.fits(self.model@)
        &&& self.state@.len() == STATE_DIM
        &&& self.starts@.len() > 0
        &&& all_states(states_of(self.starts@))
        &&& self.cursor < self.starts@.len()
        &&& self.layout.wf()
        &&& self.shadow.config == reward::default_config()
    }

    open spec fn width(&self) -> nat {
        self.layout.dim as nat
    }

    open spec fn shows(&self, obs: Seq<S>) -> bool {
        &&& obs.len() == self.layout.dim
        &&& num::repeatable::<S>() ==> obs == self@.seen()
    }

    open spec fn steps(&self, action: [S; 2], after: &Self, result: StepResult<S>) -> bool {
        &&& after.layout == self.layout
        &&& after.model == self.model
        &&& after.starts == self.starts
        &&& after.cursor == self.cursor
        &&& after.rollout_horizon == self.rollout_horizon
        &&& after.steps_since_reset == self.steps_since_reset.wrapping_add(1)
        &&& after.last_horizon_truncated == self@.at_horizon()
        &&& after.last_horizon_truncated || after.last_uncertainty_guarded ==> result.truncated
        &&& result.success ==> result.terminated
        &&& num::repeatable::<S>() ==> after@ == self@.stepped(action)
        &&& num::repeatable::<S>() ==> result == self@.outcome(action)
    }

    open spec fn resets(&self, after: &Self) -> bool {
        &&& after.layout == self.layout
        &&& after.model == self.model
        &&& after.starts == self.starts
        &&& after.rollout_horizon == self.rollout_horizon
        &&& after.steps_since_reset == 0
        &&& after@.cursor == self@.restarted().cursor
        &&& after@.state == self@.restarted().state
        &&& num::repeatable::<S>() ==> after@ == self@.restarted()
    }

    fn obs_dim(&self) -> (r: usize) {
        self.layout.dim
    }

    fn observe(&self, out: &mut [S]) {
        observe_encoded(&self.shadow, self.state.as_slice(), &self.layout, out);
    }

    fn step_env(&mut self, action: [S; 2]) -> (r: StepResult<S>) {
        let ghost d = self@;
        let prev: FullState<S> = decode_state(state_array(self.state.as_slice()));
        let mut next: Vec<S> = num::repeat(S::from_count(0), STATE_DIM);
        let uncertainty: S = self.model.predict(
            self.state.as_slice(),
            action,
            next.as_mut_slice(),
            None,
            &mut self.workspace,
        );
        let mut ns: FullState<S> = decode_state(state_array(next.as_slice()));
        let distance: S = ns.block.dist(ns.goal);
        ns.success_hold_seconds = if distance.at_most(S::from_ratio(7, 100)) {
            prev.success_hold_seconds.plus(S::from_ratio(1, 15))
        } else {
            S::from_count(0)
        };
        let encoded: [S; STATE_DIM] = encode_state(&ns);
        self.state = vstd::slice::slice_to_vec(encoded.as_slice());
        self.steps_since_reset = self.steps_since_reset.wrapping_add(1);
        let config: EnvConfig = EnvConfig::default();
        let result: reward::StepResult<S> = evaluate_transition(&prev, &ns, action, &config);
        let horizon_truncated: bool = self.rollout_horizon > 0 && self.steps_since_reset
            >= self.rollout_horizon;
        let guarded: bool = self.uncertainty_limit.less(uncertainty);
        self.last_uncertainty = uncertainty;
        self.last_uncertainty_guarded = guarded;
        self.last_horizon_truncated = horizon_truncated;
        StepResult {
            reward: result.reward.minus(self.uncertainty_penalty.times(uncertainty)),
            terminated: result.terminated,
            truncated: result.truncated || horizon_truncated || guarded,
            success: result.success,
        }
    }

    fn reset_env(&mut self) {
        let n: usize = self.starts.len();
        proof {
            let c = self.cursor as nat;
            if c + 1 < n {
                assert((c + 1) % (n as nat) == c + 1) by (nonlinear_arith)
                    requires
                        c + 1 < n,
                ;
            } else {
                assert((c + 1) % (n as nat) == 0) by (nonlinear_arith)
                    requires
                        c + 1 == n,
                        n > 0,
                ;
            }
        }
        self.cursor = if self.cursor + 1 < n {
            self.cursor + 1
        } else {
            0
        };
        assert(states_of(self.starts@)[self.cursor as int].len() == STATE_DIM);
        self.state = vstd::slice::slice_to_vec(self.starts[self.cursor].as_slice());
        self.steps_since_reset = 0;
        self.last_uncertainty = S::from_count(0);
        self.last_uncertainty_guarded = false;
        self.last_horizon_truncated = false;
    }
}

/// The state transitions come from the model alone: every field but the clock of success is what
/// the model predicts.
pub proof fn lemma_model_moves_the_state<S: Scalar>(d: Dream<S>, action: [S; 2])
    requires
        d.model.wf(),
        d.model.state_dim <= STATE_DIM,
        d.state.len() == STATE_DIM,
    ensures
        d.stepped(action).state.len() == STATE_DIM,
        forall|i: int|
            0 <= i < STATE_DIM - 1 ==> d.stepped(action).state[i] == d.model.next(
                d.state,
                action@,
                None,
            )[i],
{
    let next = d.model.next(d.state, action@, None);
    crate::world::model::lemma_next(d.model, d.state, action@, None);
    state::lemma_encode_of_decode(next);
    assert forall|i: int| 0 <= i < STATE_DIM - 1 implies d.stepped(action).state[i] == next[i] by {
        assert(state::encoded(state::decoded(next))[i] == next[i]);
        assert(d.stepped(action).state[i] == state::encoded(state::decoded(next))[i]);
    }
}

} // verus!
