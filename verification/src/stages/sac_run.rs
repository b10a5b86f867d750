//! Training a soft actor-critic in the simulator, lane by lane.
use crate::env::observation::{self, ObsLayout};
use crate::env::reward::{EnvConfig, StepResult};
use crate::env::simulator::{self, Env};
use crate::num::{self, Meaning, Scalar};
use crate::rl::replay::{self, Slot};
use crate::rl::sac::{self, Sac, SacConfig, Trainer};
use crate::stages::adapters;
use vstd::prelude::*;

verus! {

/// The value of a run: the trainer, the environments and what they look like, and what has been
/// earned and completed in this round.
#[verifier::ext_equal]
pub struct SacRun<S> {
    pub trainer: Trainer<S>,
    pub envs: Seq<Env<S>>,
    pub obs: Seq<Seq<S>>,
    pub earned: S,
    pub completed: usize,
}

/// The settings of a run with `lanes` environments.
pub fn sac_settings<S: Scalar>(obs_dim: usize, lanes: usize) -> (r: SacConfig<S>)
    ensures
        r.obs_dim == obs_dim,
        r.hidden == 32,
        r.batch_size == 64,
        r.replay_capacity == 100_000,
        r.warmup_steps == lanes.wrapping_mul(64) as u64,
        num::repeatable::<S>() ==> r == (SacConfig {
            obs_dim,
            warmup_steps: lanes.wrapping_mul(64) as u64,
            ..sac::default_settings::<S>()
        }),
{
    let mut r: SacConfig<S> = SacConfig::default();
    r.obs_dim = obs_dim;
    r.batch_size = 64;
    r.replay_capacity = 100_000;
    r.warmup_steps = lanes.wrapping_mul(64) as u64;
    r
}

impl<S: Scalar> SacRun<S> {
    /// The transition that one lane makes.
    #[verifier::opaque]
    pub open spec fn slot(
        self,
        keys: Seq<observation::ObservationKey>,
        lane: int,
    ) -> Slot<S> {
        let action = self.trainer.chosen(self.obs[lane], false);
        let result = self.envs[lane].outcome(action);
        Slot {
            observation: self.obs[lane],
            action,
            reward: result.reward,
            next_observation: self.envs[lane].decided(action).seen(keys),
            terminated: result.terminated,
            truncated: result.truncated,
        }
    }

    /// The run after one lane has made a step, which the trainer stores and learns from.
    #[verifier::opaque]
    pub open spec fn after_lane(
        self,
        keys: Seq<observation::ObservationKey>,
        lane: int,
    ) -> Self {
        let slot = self.slot(keys, lane);
        let done = slot.terminated || slot.truncated;
        let moved = self.envs[lane].decided(slot.action);
        let env = if done {
            moved.restarted()
        } else {
            moved
        };
        let stored = self.trainer.after_choice(false).after_transition(slot);
        SacRun {
            trainer: if stored.warm() {
                stored.updated().0
            } else {
                stored
            },
            envs: self.envs.update(lane, env),
            obs: self.obs.update(lane, env.seen(keys)),
            earned: self.earned.sum(slot.reward),
            completed: if done {
                self.completed.wrapping_add(1)
            } else {
                self.completed
            },
        }
    }

    /// The run after the first `n` lanes have made a step, unless one of these is not finite.
    pub open spec fn after_lanes(
        self,
        keys: Seq<observation::ObservationKey>,
        n: nat,
    ) -> Option<Self>
        decreases n,
    {
        if n == 0 {
            Some(self)
        } else {
            match self.after_lanes(keys, (n - 1) as nat) {
                None => None,
                Some(run) => if run.slot(keys, n - 1).sound() {
                    Some(run.after_lane(keys, n - 1))
                } else {
                    None
                },
            }
        }
    }

    /// The run after all lanes have made `n` steps, unless one of these is not finite.
    pub open spec fn after_steps(
        self,
        keys: Seq<observation::ObservationKey>,
        n: nat,
    ) -> Option<Self>
        decreases n,
    {
        if n == 0 {
            Some(self)
        } else {
            match self.after_steps(keys, (n - 1) as nat) {
                None => None,
                Some(run) => run.after_lanes(keys, self.envs.len()),
            }
        }
    }
}

/// A step that is not finite is not made up for by the following lanes.
proof fn lemma_lanes_fail<S: Scalar>(
    run: SacRun<S>,
    keys: Seq<observation::ObservationKey>,
    m: nat,
    n: nat,
)
    requires
        m <= n,
        run.after_lanes(keys, m) is None,
    ensures
        run.after_lanes(keys, n) is None,
    decreases n,
{
    if m < n {
        lemma_lanes_fail(run, keys, m, (n - 1) as nat);
    }
}

/// A step that is not finite is not made up for by the following ones.
proof fn lemma_steps_fail<S: Scalar>(
    run: SacRun<S>,
    keys: Seq<observation::ObservationKey>,
    m: nat,
    n: nat,
)
    requires
        m <= n,
        run.after_steps(keys, m) is None,
    ensures
        run.after_steps(keys, n) is None,
    decreases n,
{
    if m < n {
        lemma_steps_fail(run, keys, m, (n - 1) as nat);
    }
}

/// The environments of a run, one for each lane, and what they look like.
pub fn open_lanes<S: Scalar>(lanes: usize, env_config: EnvConfig, layout: &ObsLayout) -> (r: (
    Vec<Env<S>>,
    Vec<Vec<S>>,
))
    requires
        layout.wf(),
        env_config.max_decisions > 0,
    ensures
        r.0@.len() == lanes,
        r.1@.len() == lanes,
        forall|k: int| 0 <= k < lanes ==> (#[trigger] r.1@[k])@.len() == layout.dim,
        num::repeatable::<S>() ==> forall|k: int|
            0 <= k < lanes ==> #[trigger] r.0@[k] == simulator::first_episode::<S>(
                k as u64,
                env_config,
            ),
        num::repeatable::<S>() ==> forall|k: int|
            0 <= k < lanes ==> (#[trigger] r.1@[k])@ == r.0@[k].seen(layout.keys@),
{
    let mut envs: Vec<Env<S>> = Vec::with_capacity(lanes);
    let mut obs: Vec<Vec<S>> = Vec::with_capacity(lanes);
    for k in 0..lanes
        invariant
            layout.wf(),
            env_config.max_decisions > 0,
            envs@.len() == k,
            obs@.len() == k,
            forall|i: int| 0 <= i < k ==> (#[trigger] obs@[i])@.len() == layout.dim,
            num::repeatable::<S>() ==> forall|i: int|
                0 <= i < k ==> #[trigger] envs@[i] == simulator::first_episode::<S>(
                    i as u64,
                    env_config,
                ),
            num::repeatable::<S>() ==> forall|i: int|
                0 <= i < k ==> (#[trigger] obs@[i])@ == envs@[i].seen(layout.keys@),
    {
        let env: Env<S> = Env::with_config(k as u64, env_config);
        let mut seen: Vec<S> = num::repeat(S::from_count(0), layout.dim);
        env.observe_layout(layout, seen.as_mut_slice());
        envs.push(env);
        obs.push(seen);
    }
    (envs, obs)
}

/// The value of a run.
pub open spec fn run_of<S: Scalar>(
    sac: Sac<S>,
    envs: Seq<Env<S>>,
    obs: Seq<Vec<S>>,
    earned: S,
    completed: usize,
) -> SacRun<S> {
    SacRun { trainer: sac@, envs, obs: adapters::states_of(obs), earned, completed }
}

/// Whether the observations have the length `width`.
pub open spec fn all_wide<S>(obs: Seq<Vec<S>>, width: nat) -> bool {
    forall|k: int| 0 <= k < obs.len() ==> (#[trigger] obs[k])@.len() == width
}

/// Lets one lane make a step, and the trainer learn from it. Returns the reward and whether the
/// episode was over, or nothing where the transition is not finite.
fn advance_lane<S: Scalar>(
    sac: &mut Sac<S>,
    envs: &mut Vec<Env<S>>,
    obs: &mut Vec<Vec<S>>,
    layout: &ObsLayout,
    lane: usize,
) -> (r: Option<(S, bool)>)
    requires
        old(sac).wf(),
        old(sac)@.config.obs_dim == layout.dim,
        num::repeatable::<S>() ==> num::within(old(sac)@.config.tau, num::zero(), num::one()),
        layout.wf(),
        old(obs)@.len() == old(envs)@.len(),
        lane < old(envs)@.len(),
        all_wide(old(obs)@, layout.dim as nat),
    ensures
        final(sac).wf(),
        final(sac)@.config == old(sac)@.config,
        final(envs)@.len() == old(envs)@.len(),
        final(obs)@.len() == old(obs)@.len(),
        all_wide(final(obs)@, layout.dim as nat),
        num::repeatable::<S>() ==> forall|earned: S, completed: usize|
            {
                let run = #[trigger] run_of(*old(sac), old(envs)@, old(obs)@, earned, completed);
                let slot = run.slot(layout.keys@, lane as int);
                match r {
                    None => !slot.sound(),
                    Some((reward, done)) => {
                        &&& slot.sound()
                        &&& reward == slot.reward
                        &&& done == (slot.terminated || slot.truncated)
                        &&& run_of(
                            *final(sac),
                            final(envs)@,
                            final(obs)@,
                            earned.sum(reward),
                            if done {
                                completed.wrapping_add(1)
                            } else {
                                completed
                            },
                        ) == run.after_lane(layout.keys@, lane as int)
                    },
                }
            },
{
    reveal(SacRun::slot);
    reveal(SacRun::after_lane);
    let ghost start = *sac;
    let ghost envs0 = envs@;
    let ghost obs0 = obs@;
    let ghost keys = layout.keys@;
    assert(obs@[lane as int]@.len() == layout.dim);
    let action: [S; 2] = sac.action(obs[lane].as_slice(), false);
    let mut env: Env<S> = envs[lane];
    let result: StepResult<S> = env.step_result(action);
    let mut next: Vec<S> = num::repeat(S::from_count(0), layout.dim);
    env.observe_layout(layout, next.as_mut_slice());
    let ghost moved = env;
    let ghost seen = next@;
    proof {
        if num::repeatable::<S>() {
            assert(adapters::states_of(obs0)[lane as int] == obs0[lane as int]@);
        }
    }
    if !sac.replay.accepts(obs[lane].as_slice(), action, result.reward, next.as_slice()) {
        proof {
            if num::repeatable::<S>() {
                let slot = run_of(start, envs0, obs0, num::zero(), 0).slot(keys, lane as int);
                assert(slot.observation == obs0[lane as int]@);
                assert(!slot.sound());
            }
        }
        return None;
    }
    let ghost slot = Slot {
        observation: obs0[lane as int]@,
        action,
        reward: result.reward,
        next_observation: next@,
        terminated: result.terminated,
        truncated: result.truncated,
    };
    sac.observe(
        obs[lane].as_slice(),
        action,
        result.reward,
        next.as_slice(),
        result.terminated,
        result.truncated,
    );
    let done: bool = result.terminated || result.truncated;
    if done {
        env.reset();
        env.observe_layout(layout, next.as_mut_slice());
    }
    envs[lane] = env;
    obs[lane] = next;
    sac.update();
    proof {
        if num::repeatable::<S>() {
            assert forall|earned: S, completed: usize| {
                let run = #[trigger] run_of(start, envs0, obs0, earned, completed);
                let own = run.slot(keys, lane as int);
                &&& own.sound()
                &&& result.reward == own.reward
                &&& done == (own.terminated || own.truncated)
                &&& run_of(
                    *sac,
                    envs@,
                    obs@,
                    earned.sum(result.reward),
                    if done {
                        completed.wrapping_add(1)
                    } else {
                        completed
                    },
                ) == run.after_lane(keys, lane as int)
            } by {
                let run = run_of(start, envs0, obs0, earned, completed);
                assert(run.slot(keys, lane as int) == slot);
                let after = run.after_lane(keys, lane as int);
                assert(adapters::states_of(obs@) =~= after.obs);
                assert(envs@ =~= after.envs);
            }
        }
    }
    Some((result.reward, done))
}

/// Lets every lane make 256 steps, and the trainer learn from each. Returns what was earned and how
/// many episodes were completed, or nothing as soon as a transition is not finite.
pub fn sac_round<S: Scalar>(
    sac: &mut Sac<S>,
    envs: &mut Vec<Env<S>>,
    obs: &mut Vec<Vec<S>>,
    layout: &ObsLayout,
) -> (r: Option<(S, usize)>)
    requires
        old(sac).wf(),
        old(sac)@.config.obs_dim == layout.dim,
        num::repeatable::<S>() ==> num::within(old(sac)@.config.tau, num::zero(), num::one()),
        layout.wf(),
        old(obs)@.len() == old(envs)@.len(),
        all_wide(old(obs)@, layout.dim as nat),
    ensures
        final(sac).wf(),
        final(sac)@.config == old(sac)@.config,
        final(envs)@.len() == old(envs)@.len(),
        final(obs)@.len() == old(obs)@.len(),
        all_wide(final(obs)@, layout.dim as nat),
        num::repeatable::<S>() ==> ({
            let run = run_of(*old(sac), old(envs)@, old(obs)@, num::zero(), 0);
            match r {
                None => run.after_steps(layout.keys@, 256) is None,
                Some((earned, completed)) => run.after_steps(layout.keys@, 256) == Some(
                    run_of(*final(sac), final(envs)@, final(obs)@, earned, completed),
                ),
            }
        }),
{
    let n: usize = envs.len();
    let ghost keys = layout.keys@;
    let mut earned: S = S::from_count(0);
    let mut completed: usize = 0;
    let ghost start = run_of(*sac, envs@, obs@, num::zero(), 0);
    for step in 0..256usize
        invariant
            n == envs@.len() == obs@.len() == start.envs.len(),
            n == old(envs)@.len() == old(obs)@.len(),
            keys == layout.keys@,
            sac.wf(),
            sac@.config == old(sac)@.config,
            sac@.config.obs_dim == layout.dim,
            num::repeatable::<S>() ==> num::within(sac@.config.tau, num::zero(), num::one()),
            layout.wf(),
            all_wide(obs@, layout.dim as nat),
            start == run_of(*old(sac), old(envs)@, old(obs)@, num::zero(), 0),
            num::repeatable::<S>() ==> start.after_steps(keys, step as nat) == Some(
                run_of(*sac, envs@, obs@, earned, completed),
            ),
    {
        let ghost here = run_of(*sac, envs@, obs@, earned, completed);
        for lane in 0..n
            invariant
                n == envs@.len() == obs@.len() == start.envs.len(),
                n == old(envs)@.len() == old(obs)@.len(),
                keys == layout.keys@,
                step < 256,
                sac.wf(),
                sac@.config == old(sac)@.config,
                sac@.config.obs_dim == layout.dim,
                num::repeatable::<S>() ==> num::within(sac@.config.tau, num::zero(), num::one()),
                layout.wf(),
                all_wide(obs@, layout.dim as nat),
                start == run_of(*old(sac), old(envs)@, old(obs)@, num::zero(), 0),
                num::repeatable::<S>() ==> start.after_steps(keys, step as nat) == Some(here),
                num::repeatable::<S>() ==> here.after_lanes(keys, lane as nat) == Some(
                    run_of(*sac, envs@, obs@, earned, completed),
                ),
        {
            let ghost run = run_of(*sac, envs@, obs@, earned, completed);
            match advance_lane(sac, envs, obs, layout, lane) {
                None => {
                    proof {
                        if num::repeatable::<S>() {
                            assert(!run.slot(keys, lane as int).sound());
                            lemma_lanes_fail(here, keys, (lane + 1) as nat, n as nat);
                            lemma_steps_fail(start, keys, (step + 1) as nat, 256);
                        }
                    }
                    return None;
                },
                Some((reward, done)) => {
                    earned = earned.plus(reward);
                    if done {
                        completed = completed.wrapping_add(1);
                    }
                },
            }
        }
    }
    Some((earned, completed))
}

} // verus!
