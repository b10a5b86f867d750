//! Rollouts: what a policy does in an environment, and how much better than expected it went.
use crate::num::{self, Meaning, Scalar};
use crate::rl::environment::{Environment, StepResult};
use crate::rl::neural::{Mlp, Net, Workspace};
use crate::rl::rng::Rng;
use rayon::iter::{
    IndexedParallelIterator, IntoParallelRefIterator, IntoParallelRefMutIterator, ParallelIterator,
};
use vstd::prelude::*;

verus! {

/// The decisions of a rollout, and what followed from them.
#[derive(Debug)]
pub struct Trajectory<S> {
    pub obs: Vec<Vec<S>>,
    pub actions: Vec<[S; 2]>,
    pub old_logp: Vec<S>,
    pub old_values: Vec<S>,
    pub rewards: Vec<S>,
    pub next_values: Vec<S>,
    pub dones: Vec<bool>,
    pub advantages: Vec<S>,
    pub value_targets: Vec<S>,
    pub episodes: usize,
    pub successes: usize,
    pub reward_sum: S,
}

/// The value of a trajectory.
#[verifier::ext_equal]
pub struct Track<S> {
    pub obs: Seq<Seq<S>>,
    pub actions: Seq<[S; 2]>,
    pub old_logp: Seq<S>,
    pub old_values: Seq<S>,
    pub rewards: Seq<S>,
    pub next_values: Seq<S>,
    pub dones: Seq<bool>,
    pub advantages: Seq<S>,
    pub value_targets: Seq<S>,
    pub episodes: nat,
    pub successes: nat,
    pub reward_sum: S,
}

impl<S: Scalar> View for Trajectory<S> {
    type V = Track<S>;

    open spec fn view(&self) -> Track<S> {
        Track {
            obs: Seq::new(self.obs@.len(), |i: int| self.obs@[i]@),
            actions: self.actions@,
            old_logp: self.old_logp@,
            old_values: self.old_values@,
            rewards: self.rewards@,
            next_values: self.next_values@,
            dones: self.dones@,
            advantages: self.advantages@,
            value_targets: self.value_targets@,
            episodes: self.episodes as nat,
            successes: self.successes as nat,
            reward_sum: self.reward_sum,
        }
    }
}

impl<S: Scalar> Track<S> {
    /// Whether the track has `n` decisions on observations of the length `width`.
    pub open spec fn sized(self, n: nat, width: nat) -> bool {
        &&& self.obs.len() == n
        &&& forall|i: int| 0 <= i < n ==> (#[trigger] self.obs[i]).len() == width
        &&& self.actions.len() == n
        &&& self.old_logp.len() == n
        &&& self.old_values.len() == n
        &&& self.rewards.len() == n
        &&& self.next_values.len() == n
        &&& self.dones.len() == n
        &&& self.advantages.len() == n
        &&& self.value_targets.len() == n
        &&& self.episodes <= n
        &&& self.successes <= n
    }
}

/// The bound on actions whose probability is computed.
pub open spec fn action_bound<S: Scalar>() -> S {
    S::fraction(999999, 1000000)
}

/// The logarithm of a standard deviation that a network's output stands for.
pub open spec fn log_std<S: Scalar>(raw: S) -> S {
    num::clamped(raw, S::counted(5).negated(), S::counted(2))
}

/// The distance of an action, before tanh, from the mean, in standard deviations.
pub open spec fn standing<S: Scalar>(mean: S, logstd: S, action: S) -> S {
    let one = num::one::<S>();
    let a = num::clamped(action, action_bound::<S>().negated(), action_bound());
    let u = S::fraction(1, 2).product(one.sum(a).quotient(one.difference(a)).logarithm());
    u.difference(mean).quotient(log_std(logstd).exponential())
}

/// The log-probability of one component of an action.
pub open spec fn component_logp<S: Scalar>(mean: S, logstd: S, action: S) -> S {
    let half = S::fraction(1, 2);
    let a = num::clamped(action, action_bound::<S>().negated(), action_bound());
    let z = standing(mean, logstd, action);
    half.negated().product(z).product(z).difference(logstd).difference(
        half.product(S::counted(2).product(num::half_turn()).logarithm()),
    ).sum(
        num::one::<S>().difference(a.product(a)).larger(S::fraction(1, 10000000)).logarithm(),
    )
}

/// The log-probability of an action.
pub open spec fn logp<S: Scalar>(mean: [S; 2], logstd: [S; 2], action: [S; 2]) -> S {
    num::zero::<S>().sum(component_logp(mean@[0], logstd@[0], action@[0])).sum(
        component_logp(mean@[1], logstd@[1], action@[1]),
    )
}

/// The derivative of the log-probability with respect to the mean.
pub open spec fn mean_slope<S: Scalar>(mean: S, logstd: S, action: S) -> S {
    standing(mean, logstd, action).quotient(log_std(logstd).exponential())
}

/// The derivative of the log-probability with respect to the logarithm of the deviation.
pub open spec fn std_slope<S: Scalar>(mean: S, logstd: S, action: S) -> S {
    let z = standing(mean, logstd, action);
    z.product(z).difference(num::one())
}

/// The means that a network's outputs stand for.
pub open spec fn means<S: Scalar>(output: Seq<S>) -> [S; 2] {
    [output[0], output[1]]
}

/// The logarithms of the deviations that a network's outputs stand for.
pub open spec fn log_stds<S: Scalar>(output: Seq<S>) -> [S; 2] {
    [log_std(output[2]), log_std(output[3])]
}

/// The action that a network's outputs and two normal numbers lead to.
pub open spec fn acted<S: Scalar>(output: Seq<S>, n: [S; 2]) -> [S; 2] {
    [
        output[0].sum(log_std(output[2]).exponential().product(n@[0])).hyperbolic_tangent(),
        output[1].sum(log_std(output[3]).exponential().product(n@[1])).hyperbolic_tangent(),
    ]
}

/// The stream after `n` pairs of normal numbers.
pub open spec fn after_pairs<S: Scalar>(rng: Rng<S>, n: nat) -> Rng<S>
    decreases n,
{
    if n == 0 {
        rng
    } else {
        after_pairs(rng, (n - 1) as nat).after_pair()
    }
}

/// What happened in a rollout: the environment and what it looked like before each decision, and
/// what each decision led to.
pub struct Log<S, E> {
    pub envs: Seq<E>,
    pub obs: Seq<Seq<S>>,
    pub actions: Seq<[S; 2]>,
    pub moved: Seq<E>,
    pub results: Seq<StepResult<S>>,
    pub after: Seq<Seq<S>>,
}

impl<S: Scalar, E: Environment<S>> Log<S, E> {
    /// Whether the decision with the number `i` led where it says. A finished episode is followed
    /// by a new one.
    pub open spec fn links(self, i: int) -> bool {
        &&& self.envs[i].shows(self.obs[i])
        &&& self.envs[i].steps(self.actions[i], &self.moved[i], self.results[i])
        &&& self.moved[i].shows(self.after[i])
        &&& if self.results[i].done() {
            self.moved[i].resets(&self.envs[i + 1])
        } else {
            self.envs[i + 1] == self.moved[i] && self.obs[i + 1] == self.after[i]
        }
    }

    /// Whether this is what can happen in `n` decisions from `before` to `after`.
    pub open spec fn tells(self, before: E, after: E, n: nat) -> bool {
        &&& self.envs.len() == n + 1
        &&& self.obs.len() == n + 1
        &&& self.actions.len() == n
        &&& self.moved.len() == n
        &&& self.results.len() == n
        &&& self.after.len() == n
        &&& self.envs[0] == before
        &&& self.envs[n as int] == after
        &&& self.envs[n as int].shows(self.obs[n as int])
        &&& forall|i: int| 0 <= i < n ==> #[trigger] self.links(i)
    }

    /// The actions that a policy chooses.
    pub open spec fn acts(self, actor: Net<S>, rng: Rng<S>) -> bool {
        forall|i: int|
            0 <= i < self.actions.len() ==> #[trigger] self.actions[i] == acted(
                actor.value(self.obs[i]),
                after_pairs(rng, i as nat).pair(),
            )
    }

    /// The reward that counts: one that is not finite counts as none.
    pub open spec fn reward(self, i: int) -> S {
        if self.results[i].reward.finite() {
            self.results[i].reward
        } else {
            num::zero()
        }
    }

    /// What was expected after the decision with the number `i`.
    pub open spec fn next_value(self, critic: Net<S>, i: int) -> S {
        if self.results[i].terminated {
            num::zero()
        } else {
            critic.value(self.after[i])[0]
        }
    }

    /// The number of episodes that ended within the first `n` decisions.
    pub open spec fn ended(self, n: nat) -> nat
        decreases n,
    {
        if n == 0 {
            0
        } else {
            self.ended((n - 1) as nat) + if self.results[n - 1].done() {
                1nat
            } else {
                0nat
            }
        }
    }

    /// The number of episodes that ended in success within the first `n` decisions.
    pub open spec fn succeeded(self, n: nat) -> nat
        decreases n,
    {
        if n == 0 {
            0
        } else {
            self.succeeded((n - 1) as nat) + if self.results[n - 1].done()
                && self.results[n - 1].success {
                1nat
            } else {
                0nat
            }
        }
    }

    /// The rewards of the first `n` decisions, added up.
    pub open spec fn earned(self, n: nat) -> S
        decreases n,
    {
        if n == 0 {
            num::zero()
        } else {
            self.earned((n - 1) as nat).sum(self.reward(n - 1))
        }
    }

    /// The rewards that count.
    pub open spec fn rewards(self) -> Seq<S> {
        Seq::new(self.results.len(), |i: int| self.reward(i))
    }

    /// What was expected after each decision.
    pub open spec fn next_values(self, critic: Net<S>) -> Seq<S> {
        Seq::new(self.results.len(), |i: int| self.next_value(critic, i))
    }

    /// What was expected before each decision.
    pub open spec fn values(self, critic: Net<S>) -> Seq<S> {
        Seq::new(self.results.len(), |i: int| critic.value(self.obs[i])[0])
    }

    /// Whether each decision ended its episode.
    pub open spec fn dones(self) -> Seq<bool> {
        Seq::new(self.results.len(), |i: int| self.results[i].done())
    }

    /// The log-probabilities of the actions.
    pub open spec fn logps(self, actor: Net<S>) -> Seq<S> {
        Seq::new(
            self.results.len(),
            |i: int|
                logp(
                    means(actor.value(self.obs[i])),
                    log_stds(actor.value(self.obs[i])),
                    self.actions[i],
                ),
        )
    }

    /// The trajectory of this rollout.
    pub open spec fn track(self, actor: Net<S>, critic: Net<S>, gamma: S, lambda: S) -> Track<S> {
        let n = self.results.len();
        let advantages = Seq::new(
            n,
            |i: int|
                advantage(
                    self.rewards(),
                    self.next_values(critic),
                    self.values(critic),
                    self.dones(),
                    gamma,
                    lambda,
                    i,
                ),
        );
        Track {
            obs: self.obs.take(n as int),
            actions: self.actions,
            old_logp: self.logps(actor),
            old_values: self.values(critic),
            rewards: self.rewards(),
            next_values: self.next_values(critic),
            dones: self.dones(),
            advantages,
            value_targets: Seq::new(n, |i: int| self.values(critic)[i].sum(advantages[i])),
            episodes: self.ended(n),
            successes: self.succeeded(n),
            reward_sum: self.earned(n),
        }
    }
}

/// How much better than expected a decision went.
pub open spec fn surprise<S: Scalar>(reward: S, next_value: S, value: S, gamma: S) -> S {
    reward.sum(
        if next_value.finite() {
            gamma.product(next_value)
        } else {
            num::zero()
        },
    ).difference(value)
}

/// How much better than expected it went from the decision with the number `i` on: a sum of
/// surprises that count less the later they come, up to the end of the episode.
pub open spec fn advantage<S: Scalar>(
    rewards: Seq<S>,
    next_values: Seq<S>,
    values: Seq<S>,
    dones: Seq<bool>,
    gamma: S,
    lambda: S,
    i: int,
) -> S
    decreases rewards.len() - i,
{
    if i >= rewards.len() {
        num::zero()
    } else {
        surprise(rewards[i], next_values[i], values[i], gamma).sum(
            if dones[i] {
                num::zero()
            } else {
                gamma.product(lambda).product(
                    advantage(rewards, next_values, values, dones, gamma, lambda, i + 1),
                )
            },
        )
    }
}

/// Whether a policy that starts from `seed` can make this track in `n` decisions from `before` to
/// `after`.
pub open spec fn collected<S: Scalar, E: Environment<S>>(
    before: E,
    after: E,
    actor: Net<S>,
    critic: Net<S>,
    n: nat,
    seed: u64,
    gamma: S,
    lambda: S,
    track: Track<S>,
) -> bool {
    &&& after.ready()
    &&& after.width() == before.width()
    &&& track.sized(n, before.width())
    &&& exists|log: Log<S, E>|
        {
            &&& #[trigger] log.tells(before, after, n)
            &&& log.actions == track.actions
            &&& log.obs.take(n as int) == track.obs
            &&& num::repeatable::<S>() ==> log.acts(actor, Rng { state: seed, spare: None })
                && track == log.track(actor, critic, gamma, lambda)
        }
}

/// The log-probability of an action, and its derivatives with respect to the means and to the
/// logarithms of the deviations.
pub fn logp_and_grads<S: Scalar>(mean: [S; 2], logstd: [S; 2], action: [S; 2]) -> (r: (
    S,
    [S; 2],
    [S; 2],
))
    ensures
        num::repeatable::<S>() ==> r.0 == logp(mean, logstd, action),
        num::repeatable::<S>() ==> r.1 == [
            mean_slope(mean@[0], logstd@[0], action@[0]),
            mean_slope(mean@[1], logstd@[1], action@[1]),
        ],
        num::repeatable::<S>() ==> r.2 == [
            std_slope(mean@[0], logstd@[0], action@[0]),
            std_slope(mean@[1], logstd@[1], action@[1]),
        ],
{
    let (p0, m0, s0) = component_logp_and_grads(mean[0], logstd[0], action[0]);
    let (p1, m1, s1) = component_logp_and_grads(mean[1], logstd[1], action[1]);
    (S::from_count(0).plus(p0).plus(p1), [m0, m1], [s0, s1])
}

/// As [`logp_and_grads`], for one component.
fn component_logp_and_grads<S: Scalar>(mean: S, logstd: S, action: S) -> (r: (S, S, S))
    ensures
        num::repeatable::<S>() ==> r.0 == component_logp(mean, logstd, action),
        num::repeatable::<S>() ==> r.1 == mean_slope(mean, logstd, action),
        num::repeatable::<S>() ==> r.2 == std_slope(mean, logstd, action),
{
    let one: S = S::from_count(1);
    let half: S = S::from_ratio(1, 2);
    let bound: S = S::from_ratio(999999, 1000000);
    let a: S = num::clamp(action, bound.neg(), bound);
    let u: S = half.times(one.plus(a).over(one.minus(a)).ln());
    let s: S = num::clamp(logstd, S::from_count(5).neg(), S::from_count(2)).exp();
    let z: S = u.minus(mean).over(s);
    let lp: S = half.neg().times(z).times(z).minus(logstd).minus(
        half.times(S::from_count(2).times(num::pi()).ln()),
    ).plus(one.minus(a.times(a)).max(S::from_ratio(1, 10000000)).ln());
    (lp, z.over(s), z.times(z).minus(one))
}

/// The logarithm of a standard deviation that a network's output stands for.
pub fn bounded_log_std<S: Scalar>(raw: S) -> (r: S)
    ensures
        num::repeatable::<S>() ==> r == log_std(raw),
{
    num::clamp(raw, S::from_count(5).neg(), S::from_count(2))
}

/// The action that a network's outputs and two normal numbers lead to.
pub fn act<S: Scalar>(output: &[S], n: [S; 2]) -> (r: [S; 2])
    requires
        output@.len() >= 4,
    ensures
        num::repeatable::<S>() ==> r == acted(output@, n),
{
    [
        output[0].plus(bounded_log_std(output[2]).exp().times(n[0])).tanh(),
        output[1].plus(bounded_log_std(output[3]).exp().times(n[1])).tanh(),
    ]
}

/// The advantages and the values to learn of a rollout.
fn weigh<S: Scalar>(
    rewards: &Vec<S>,
    next_values: &Vec<S>,
    values: &Vec<S>,
    dones: &Vec<bool>,
    gamma: S,
    lambda: S,
) -> (r: (Vec<S>, Vec<S>))
    requires
        next_values@.len() == rewards@.len(),
        values@.len() == rewards@.len(),
        dones@.len() == rewards@.len(),
    ensures
        r.0@.len() == rewards@.len(),
        r.1@.len() == rewards@.len(),
        num::repeatable::<S>() ==> forall|i: int|
            0 <= i < rewards@.len() ==> #[trigger] r.0@[i] == advantage(
                rewards@,
                next_values@,
                values@,
                dones@,
                gamma,
                lambda,
                i,
            ),
        num::repeatable::<S>() ==> forall|i: int|
            0 <= i < rewards@.len() ==> #[trigger] r.1@[i] == values@[i].sum(r.0@[i]),
{
    let n: usize = rewards.len();
    let zero: S = S::from_count(0);
    let mut advantages: Vec<S> = num::repeat(zero, n);
    let mut value_targets: Vec<S> = num::repeat(zero, n);
    let mut gae: S = zero;
    let mut i: usize = n;
    while i > 0
        invariant
            i <= n == rewards@.len(),
            next_values@.len() == n,
            values@.len() == n,
            dones@.len() == n,
            advantages@.len() == n,
            value_targets@.len() == n,
            num::repeatable::<S>() ==> zero == num::zero::<S>(),
            num::repeatable::<S>() ==> gae == advantage(
                rewards@,
                next_values@,
                values@,
                dones@,
                gamma,
                lambda,
                i as int,
            ),
            num::repeatable::<S>() ==> forall|k: int|
                i <= k < n ==> #[trigger] advantages@[k] == advantage(
                    rewards@,
                    next_values@,
                    values@,
                    dones@,
                    gamma,
                    lambda,
                    k,
                ),
            num::repeatable::<S>() ==> forall|k: int|
                i <= k < n ==> #[trigger] value_targets@[k] == values@[k].sum(advantages@[k]),
        decreases i,
    {
        i = i - 1;
        let bootstrap: S = if next_values[i].is_finite() {
            gamma.times(next_values[i])
        } else {
            zero
        };
        let delta: S = rewards[i].plus(bootstrap).minus(values[i]);
        let rest: S = if dones[i] {
            zero
        } else {
            gamma.times(lambda).times(gae)
        };
        gae = delta.plus(rest);
        advantages[i] = gae;
        value_targets[i] = values[i].plus(gae);
    }
    (advantages, value_targets)
}

/// Lets a policy that starts from `seed` make `steps` decisions in an environment.
pub fn collect<S: Scalar, E: Environment<S>>(
    env: &mut E,
    actor: &Mlp<S>,
    critic: &Mlp<S>,
    steps: usize,
    seed: u64,
    gamma: S,
    lambda: S,
) -> (r: Trajectory<S>)
    requires
        old(env).ready(),
        actor@.wf(),
        actor@.input == old(env).width(),
        actor@.output == 4,
        critic@.wf(),
        critic@.input == old(env).width(),
        critic@.output == 1,
    ensures
        collected(
            *old(env),
            *final(env),
            actor@,
            critic@,
            steps as nat,
            seed,
            gamma,
            lambda,
            r@,
        ),
{
    let mut rng: Rng<S> = Rng::new(seed);
    let ghost stream = rng;
    let dim: usize = env.obs_dim();
    let mut obs: Vec<S> = num::repeat(S::from_count(0), dim);
    env.observe(obs.as_mut_slice());
    let mut rows: Vec<Vec<S>> = Vec::with_capacity(steps);
    let mut actions: Vec<[S; 2]> = Vec::with_capacity(steps);
    let mut old_logp: Vec<S> = Vec::with_capacity(steps);
    let mut old_values: Vec<S> = Vec::with_capacity(steps);
    let mut rewards: Vec<S> = Vec::with_capacity(steps);
    let mut next_values: Vec<S> = Vec::with_capacity(steps);
    let mut dones: Vec<bool> = Vec::with_capacity(steps);
    let mut episodes: usize = 0;
    let mut successes: usize = 0;
    let mut reward_sum: S = S::from_count(0);
    let mut aws: Workspace<S> = actor.workspace();
    let mut cws: Workspace<S> = critic.workspace();
    let ghost mut log: Log<S, E> = Log {
        envs: seq![*env],
        obs: seq![obs@],
        actions: Seq::empty(),
        moved: Seq::empty(),
        results: Seq::empty(),
        after: Seq::empty(),
    };
    for i in 0..steps
        invariant
            env.ready(),
            env.width() == old(env).width() == dim,
            actor@.wf(),
            actor@.input == dim,
            actor@.output == 4,
            critic@.wf(),
            critic@.input == dim,
            critic@.output == 1,
            aws.fits(actor@),
            cws.fits(critic@),
            obs@.len() == dim,
            log.tells(*old(env), *env, i as nat),
            log.obs[i as int] == obs@,
            rows@.len() == i,
            actions@ == log.actions,
            old_logp@.len() == i,
            old_values@.len() == i,
            rewards@.len() == i,
            next_values@.len() == i,
            dones@.len() == i,
            episodes <= i,
            successes <= i,
            forall|k: int| 0 <= k < i ==> (#[trigger] rows@[k])@ == log.obs[k],
            forall|k: int| 0 <= k < i ==> (#[trigger] log.obs[k]).len() == dim,
            num::repeatable::<S>() ==> {
                &&& rng == after_pairs(stream, i as nat)
                &&& log.acts(actor@, stream)
                &&& old_logp@ == log.logps(actor@)
                &&& old_values@ == log.values(critic@)
                &&& rewards@ == log.rewards()
                &&& next_values@ == log.next_values(critic@)
                &&& dones@ == log.dones()
                &&& episodes == log.ended(i as nat)
                &&& successes == log.succeeded(i as nat)
                &&& reward_sum == log.earned(i as nat)
            },
    {
        let ghost before = log;
        let ghost here = *env;
        rows.push(vstd::slice::slice_to_vec(obs.as_slice()));
        let ao: &[S] = actor.forward(obs.as_slice(), &mut aws);
        let noise: [S; 2] = rng.normal_pair();
        let action: [S; 2] = act(ao, noise);
        let mean: [S; 2] = [ao[0], ao[1]];
        let ls: [S; 2] = [bounded_log_std(ao[2]), bounded_log_std(ao[3])];
        let (lp, gm, gs) = logp_and_grads(mean, ls, action);
        let value: S = critic.forward(obs.as_slice(), &mut cws)[0];
        actions.push(action);
        old_logp.push(lp);
        old_values.push(value);
        let sr: StepResult<S> = env.step_env(action);
        let ghost moved = *env;
        let reward: S = if sr.reward.is_finite() {
            sr.reward
        } else {
            S::from_count(0)
        };
        rewards.push(reward);
        reward_sum = reward_sum.plus(reward);
        let done: bool = sr.terminated || sr.truncated;
        dones.push(done);
        env.observe(obs.as_mut_slice());
        let ghost seen = obs@;
        let next_v: S = if sr.terminated {
            S::from_count(0)
        } else {
            critic.forward(obs.as_slice(), &mut cws)[0]
        };
        next_values.push(next_v);
        if done {
            episodes = episodes + 1;
            if sr.success {
                successes = successes + 1;
            }
            env.reset_env();
            env.observe(obs.as_mut_slice());
        }
        proof {
            log = Log {
                envs: before.envs.push(*env),
                obs: before.obs.push(obs@),
                actions: before.actions.push(action),
                moved: before.moved.push(moved),
                results: before.results.push(sr),
                after: before.after.push(seen),
            };
            lemma_extended(before, log, i as nat);
            assert(log.links(i as int));
            assert forall|k: int| 0 <= k < i + 1 implies #[trigger] log.links(k) by {
                if k < i {
                    assert(before.links(k));
                    assert(log.links(k) == before.links(k));
                }
            }
            if num::repeatable::<S>() {
                assert(log.acts(actor@, stream)) by {
                    assert forall|k: int| 0 <= k < log.actions.len() implies #[trigger] log.actions[k]
                        == acted(actor@.value(log.obs[k]), after_pairs(stream, k as nat).pair()) by {
                        if k < i {
                            assert(before.actions[k] == log.actions[k]);
                        }
                    }
                }
                assert(old_logp@ =~= log.logps(actor@));
                assert(old_values@ =~= log.values(critic@));
                assert(rewards@ =~= log.rewards());
                assert(next_values@ =~= log.next_values(critic@));
                assert(dones@ =~= log.dones());
            }
        }
    }
    let (advantages, value_targets) = weigh(&rewards, &next_values, &old_values, &dones, gamma, lambda);
    let r: Trajectory<S> = Trajectory {
        obs: rows,
        actions,
        old_logp,
        old_values,
        rewards,
        next_values,
        dones,
        advantages,
        value_targets,
        episodes,
        successes,
        reward_sum,
    };
    proof {
        assert(r@.obs =~= log.obs.take(steps as int));
        assert(r@.sized(steps as nat, dim as nat));
        if num::repeatable::<S>() {
            assert(r@ =~= log.track(actor@, critic@, gamma, lambda));
        }
        assert(log.tells(*old(env), *env, steps as nat));
    }
    r
}

/// Whether a policy can roll out in each of these environments.
pub open spec fn all_ready<S: Scalar, E: Environment<S>>(
    envs: Seq<E>,
    actor: Net<S>,
    critic: Net<S>,
) -> bool {
    &&& actor.wf()
    &&& actor.output == 4
    &&& critic.wf()
    &&& critic.input == actor.input
    &&& critic.output == 1
    &&& forall|k: int|
        0 <= k < envs.len() ==> (#[trigger] envs[k]).ready() && envs[k].width() == actor.input
}

/// Whether each environment has gone from `before` to `after` on the track with the same number.
pub open spec fn all_collected<S: Scalar, E: Environment<S>>(
    before: Seq<E>,
    after: Seq<E>,
    actor: Net<S>,
    critic: Net<S>,
    n: nat,
    seeds: Seq<u64>,
    gamma: S,
    lambda: S,
    tracks: Seq<Track<S>>,
) -> bool {
    &&& after.len() == before.len()
    &&& tracks.len() == before.len()
    &&& forall|k: int|
        #![trigger tracks[k]]
        0 <= k < before.len() ==> collected(
            before[k],
            after[k],
            actor,
            critic,
            n,
            seeds[k],
            gamma,
            lambda,
            tracks[k],
        )
}

/// The values of a list of trajectories.
pub open spec fn tracks_of<S: Scalar>(list: Seq<Trajectory<S>>) -> Seq<Track<S>> {
    Seq::new(list.len(), |k: int| list[k]@)
}

/// Lets a policy roll out in one environment after the other.
pub fn collect_in_turn<S: Scalar, E: Environment<S>>(
    envs: &mut [E],
    actor: &Mlp<S>,
    critic: &Mlp<S>,
    steps: usize,
    seeds: &Vec<u64>,
    gamma: S,
    lambda: S,
) -> (r: Vec<Trajectory<S>>)
    requires
        seeds@.len() == old(envs)@.len(),
        all_ready(old(envs)@, actor@, critic@),
    ensures
        all_collected(
            old(envs)@,
            final(envs)@,
            actor@,
            critic@,
            steps as nat,
            seeds@,
            gamma,
            lambda,
            tracks_of(r@),
        ),
{
    let n: usize = envs.len();
    let mut r: Vec<Trajectory<S>> = Vec::with_capacity(n);
    for k in 0..n
        invariant
            n == envs@.len() == old(envs)@.len() == seeds@.len(),
            all_ready(old(envs)@, actor@, critic@),
            r@.len() == k,
            forall|i: int| k <= i < n ==> envs@[i] == old(envs)@[i],
            forall|i: int|
                #![trigger r@[i]]
                0 <= i < k ==> collected(
                    old(envs)@[i],
                    envs@[i],
                    actor@,
                    critic@,
                    steps as nat,
                    seeds@[i],
                    gamma,
                    lambda,
                    r@[i]@,
                ),
    {
        assert(old(envs)@[k as int].ready());
        let t: Trajectory<S> = collect(
            &mut envs[k],
            actor,
            critic,
            steps,
            seeds[k],
            gamma,
            lambda,
        );
        r.push(t);
    }
    r
}

/// Lets a policy roll out in all environments at once.
///
/// The work is handed to `rayon`: `par_iter_mut` visits every environment once and on its own,
/// `zip` pairs it with the seed that has the same number, `map` calls [`collect`] on the pair, and
/// `collect` puts the results into a vector in the order of the environments. What is claimed is
/// what [`collect`] proves of each call, at the place that the call's environment has.
#[verifier::external_body]
fn collect_in_parallel<S: Scalar, E: Environment<S>>(
    envs: &mut [E],
    actor: &Mlp<S>,
    critic: &Mlp<S>,
    steps: usize,
    seeds: &Vec<u64>,
    gamma: S,
    lambda: S,
) -> (r: Vec<Trajectory<S>>)
    requires
        seeds@.len() == old(envs)@.len(),
        all_ready(old(envs)@, actor@, critic@),
    ensures
        all_collected(
            old(envs)@,
            final(envs)@,
            actor@,
            critic@,
            steps as nat,
            seeds@,
            gamma,
            lambda,
            tracks_of(r@),
        ),
{
    envs.par_iter_mut()
        .zip(seeds.par_iter())
        .map(|(e, s)| collect(e, actor, critic, steps, *s, gamma, lambda))
        .collect()
}

/// Lets a policy roll out in every environment, at once or one after the other.
pub fn collect_all<S: Scalar, E: Environment<S>>(
    envs: &mut [E],
    actor: &Mlp<S>,
    critic: &Mlp<S>,
    steps: usize,
    seeds: &Vec<u64>,
    gamma: S,
    lambda: S,
    parallel: bool,
) -> (r: Vec<Trajectory<S>>)
    requires
        seeds@.len() == old(envs)@.len(),
        all_ready(old(envs)@, actor@, critic@),
    ensures
        all_collected(
            old(envs)@,
            final(envs)@,
            actor@,
            critic@,
            steps as nat,
            seeds@,
            gamma,
            lambda,
            tracks_of(r@),
        ),
{
    if parallel {
        collect_in_parallel(envs, actor, critic, steps, seeds, gamma, lambda)
    } else {
        collect_in_turn(envs, actor, critic, steps, seeds, gamma, lambda)
    }
}

/// What a log says of its first decisions is not changed by a further one.
proof fn lemma_extended<S: Scalar, E: Environment<S>>(a: Log<S, E>, b: Log<S, E>, n: nat)
    requires
        n <= a.results.len(),
        n <= b.results.len(),
        forall|k: int| 0 <= k < n ==> a.results[k] == b.results[k],
    ensures
        a.ended(n) == b.ended(n),
        a.succeeded(n) == b.succeeded(n),
        a.earned(n) == b.earned(n),
    decreases n,
{
    if n > 0 {
        lemma_extended(a, b, (n - 1) as nat);
    }
}

/// Truncation bootstraps, termination does not: after a decision that terminated its episode
/// nothing is expected, and after any other one it is what the critic makes of the observation
/// before the reset.
pub proof fn lemma_termination_does_not_bootstrap<S: Scalar, E: Environment<S>>(
    log: Log<S, E>,
    actor: Net<S>,
    critic: Net<S>,
    gamma: S,
    lambda: S,
    i: int,
)
    requires
        0 <= i < log.results.len(),
    ensures
        log.track(actor, critic, gamma, lambda).next_values[i] == (if log.results[i].terminated {
            num::zero()
        } else {
            critic.value(log.after[i])[0]
        }),
{
}

/// Episodes do not mix: the advantage of a decision depends on nothing that comes after the end of
/// its episode.
pub proof fn lemma_episodes_do_not_mix<S: Scalar>(
    a: Track<S>,
    b: Track<S>,
    gamma: S,
    lambda: S,
    i: int,
    end: int,
)
    requires
        0 <= i <= end,
        end < a.rewards.len(),
        end < b.rewards.len(),
        a.dones[end],
        forall|k: int|
            i <= k <= end ==> {
                &&& #[trigger] a.rewards[k] == b.rewards[k]
                &&& a.next_values[k] == b.next_values[k]
                &&& a.old_values[k] == b.old_values[k]
                &&& a.dones[k] == b.dones[k]
            },
    ensures
        advantage(a.rewards, a.next_values, a.old_values, a.dones, gamma, lambda, i)
            == advantage(b.rewards, b.next_values, b.old_values, b.dones, gamma, lambda, i),
    decreases end - i,
{
    assert(a.rewards[i] == b.rewards[i]);
    if i < end {
        lemma_episodes_do_not_mix(a, b, gamma, lambda, i + 1, end);
    }
}

} // verus!
