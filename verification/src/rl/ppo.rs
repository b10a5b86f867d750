//! Proximal policy optimization: the settings, the learner, and what a round of learning is.
use crate::num::{self, Meaning, Scalar};
use crate::rl::adam::{self, Adam, Moments};
use crate::rl::environment::Agent;
use crate::rl::neural::{self, Mlp, Net, Workspace};
use crate::rl::rng::{self, Rng};
use crate::rl::rollout::{self, act, Track};
use vstd::prelude::*;

verus! {

/// The settings of a learner.
#[derive(Clone, Copy, Debug)]
pub struct PpoConfig<S> {
    pub hidden: usize,
    pub learning_rate: S,
    pub gamma: S,
    pub gae_lambda: S,
    pub clip_ratio: S,
    pub value_clip: S,
    pub entropy_coef: S,
    pub value_coef: S,
    pub max_grad_norm: S,
    pub epochs: usize,
    pub minibatch_size: usize,
    pub parallel: bool,
}

/// What a round of learning did.
#[derive(Clone, Copy, Debug)]
pub struct TrainStats<S> {
    pub steps: usize,
    pub episodes: usize,
    pub successes: usize,
    pub reward_sum: S,
    pub policy_loss: S,
    pub value_loss: S,
    pub entropy: S,
    pub approx_kl: S,
    pub updates: usize,
    pub rejected_updates: usize,
}

/// A learner: a policy, what it expects, and their optimizers.
#[derive(Debug)]
pub struct Ppo<S> {
    pub actor: Mlp<S>,
    pub critic: Mlp<S>,
    pub actor_optimizer: Adam<S>,
    pub critic_optimizer: Adam<S>,
    pub rng: Rng<S>,
    pub config: PpoConfig<S>,
    pub actor_workspace: Option<Workspace<S>>,
    pub critic_workspace: Option<Workspace<S>>,
}

/// The value of a learner. The workspaces are no part of it.
#[verifier::ext_equal]
pub struct Learner<S> {
    pub actor: Net<S>,
    pub critic: Net<S>,
    pub actor_moments: Moments<S>,
    pub critic_moments: Moments<S>,
    pub rng: Rng<S>,
    pub config: PpoConfig<S>,
}

/// The decisions of a round, from all its trajectories.
#[verifier::ext_equal]
pub struct Lot<S> {
    pub obs: Seq<Seq<S>>,
    pub acts: Seq<[S; 2]>,
    pub oldlp: Seq<S>,
    pub oldv: Seq<S>,
    pub adv: Seq<S>,
    pub ret: Seq<S>,
}

/// What a minibatch adds up to.
#[verifier::ext_equal]
pub struct Sums<S> {
    pub pg: Seq<S>,
    pub vg: Seq<S>,
    pub pl: S,
    pub vl: S,
}

/// The default settings.
pub open spec fn default_settings<S: Scalar>() -> PpoConfig<S> {
    PpoConfig {
        hidden: 32,
        learning_rate: S::fraction(3, 10000),
        gamma: S::fraction(99, 100),
        gae_lambda: S::fraction(95, 100),
        clip_ratio: S::fraction(2, 10),
        value_clip: S::fraction(2, 10),
        entropy_coef: num::zero(),
        value_coef: S::fraction(1, 2),
        max_grad_norm: S::fraction(1, 2),
        epochs: 4,
        minibatch_size: 256,
        parallel: true,
    }
}

impl<S: Scalar> Default for PpoConfig<S> {
    fn default() -> (r: Self)
        ensures
            r.hidden == 32,
            r.epochs == 4,
            r.minibatch_size == 256,
            r.parallel,
            num::repeatable::<S>() ==> r == default_settings::<S>(),
    {
        PpoConfig {
            hidden: 32,
            learning_rate: S::from_ratio(3, 10000),
            gamma: S::from_ratio(99, 100),
            gae_lambda: S::from_ratio(95, 100),
            clip_ratio: S::from_ratio(2, 10),
            value_clip: S::from_ratio(2, 10),
            entropy_coef: S::from_count(0),
            value_coef: S::from_ratio(1, 2),
            max_grad_norm: S::from_ratio(1, 2),
            epochs: 4,
            minibatch_size: 256,
            parallel: true,
        }
    }
}

/// The stats of a round that has done nothing.
pub open spec fn blank<S: Scalar>() -> TrainStats<S> {
    TrainStats {
        steps: 0,
        episodes: 0,
        successes: 0,
        reward_sum: num::zero(),
        policy_loss: num::zero(),
        value_loss: num::zero(),
        entropy: num::zero(),
        approx_kl: num::zero(),
        updates: 0,
        rejected_updates: 0,
    }
}

impl<S: Scalar> Default for TrainStats<S> {
    fn default() -> (r: Self)
        ensures
            r.steps == 0,
            r.episodes == 0,
            r.successes == 0,
            r.updates == 0,
            r.rejected_updates == 0,
            num::repeatable::<S>() ==> r == blank::<S>(),
    {
        let zero: S = S::from_count(0);
        TrainStats {
            steps: 0,
            episodes: 0,
            successes: 0,
            reward_sum: zero,
            policy_loss: zero,
            value_loss: zero,
            entropy: zero,
            approx_kl: zero,
            updates: 0,
            rejected_updates: 0,
        }
    }
}

/// `n`, or one where it is zero.
pub open spec fn at_least_one(n: nat) -> nat {
    if n == 0 {
        1
    } else {
        n
    }
}

/// The mean of the numbers, zero where there are none.
pub open spec fn mean_of<S: Scalar>(values: Seq<S>) -> S {
    num::total(values, values.len()).quotient(S::counted(at_least_one(values.len()) as u64))
}

/// The products of the distances from `center` with themselves.
pub open spec fn squared_around<S: Scalar>(values: Seq<S>, center: S) -> Seq<S> {
    Seq::new(
        values.len(),
        |i: int| values[i].difference(center).product(values[i].difference(center)),
    )
}

/// The standard deviation of the numbers, but at least a millionth.
pub open spec fn deviation_of<S: Scalar>(values: Seq<S>) -> S {
    mean_of(squared_around(values, mean_of(values))).root().larger(S::fraction(1, 1000000))
}

/// The numbers, shifted and scaled to the mean zero and the deviation one.
pub open spec fn standardized<S: Scalar>(values: Seq<S>) -> Seq<S> {
    Seq::new(
        values.len(),
        |i: int| values[i].difference(mean_of(values)).quotient(deviation_of(values)),
    )
}

/// The decisions of the first `n` tracks. Advantages are standardized track by track.
pub open spec fn lot_of<S: Scalar>(tracks: Seq<Track<S>>, n: nat) -> Lot<S>
    decreases n,
{
    if n == 0 {
        Lot {
            obs: Seq::empty(),
            acts: Seq::empty(),
            oldlp: Seq::empty(),
            oldv: Seq::empty(),
            adv: Seq::empty(),
            ret: Seq::empty(),
        }
    } else {
        lot_of(tracks, (n - 1) as nat).with(tracks[n - 1])
    }
}

impl<S: Scalar> Lot<S> {
    /// The decisions with those of one more track.
    pub open spec fn with(self, t: Track<S>) -> Self {
        Lot {
            obs: self.obs + t.obs,
            acts: self.acts + t.actions,
            oldlp: self.oldlp + t.old_logp,
            oldv: self.oldv + t.old_values,
            adv: self.adv + standardized(t.advantages),
            ret: self.ret + Seq::new(
                t.old_values.len(),
                |i: int| t.old_values[i].sum(t.advantages[i]),
            ),
        }
    }

    /// Whether there are `n` decisions on observations of the length `width`.
    pub open spec fn sized(self, n: nat, width: nat) -> bool {
        &&& self.obs.len() == n
        &&& forall|i: int| 0 <= i < n ==> (#[trigger] self.obs[i]).len() == width
        &&& self.acts.len() == n
        &&& self.oldlp.len() == n
        &&& self.oldv.len() == n
        &&& self.adv.len() == n
        &&& self.ret.len() == n
    }
}

/// What the first `n` tracks add up to.
pub open spec fn tallied<S: Scalar>(tracks: Seq<Track<S>>, n: nat) -> TrainStats<S>
    decreases n,
{
    if n == 0 {
        blank()
    } else {
        let s = tallied(tracks, (n - 1) as nat);
        let t = tracks[n - 1];
        TrainStats {
            steps: (s.steps + t.rewards.len()) as usize,
            episodes: (s.episodes + t.episodes) as usize,
            successes: (s.successes + t.successes) as usize,
            reward_sum: s.reward_sum.sum(t.reward_sum),
            ..s
        }
    }
}

/// A gradient, shortened to `limit` where there is a limit and the gradient is longer.
pub open spec fn shortened<S: Scalar>(g: Seq<S>, limit: S) -> Seq<S> {
    if num::zero::<S>().is_less(limit) && limit.is_less(neural::norm_of(g)) {
        neural::scaled(g, limit.quotient(neural::norm_of(g)))
    } else {
        g
    }
}

impl<S: Scalar> PpoConfig<S> {
    /// How much likelier the policy has made an action, but not by more than the settings allow.
    pub open spec fn clipped_ratio(self, ratio: S) -> S {
        let one = num::one::<S>();
        num::clamped(ratio, one.difference(self.clip_ratio), one.sum(self.clip_ratio))
    }

    /// Whether the bounds that the settings give are in order.
    pub fn has_ordered_bounds(&self) -> (r: bool)
        ensures
            num::repeatable::<S>() ==> r == self.bounds_ordered(),
    {
        let one: S = S::from_count(1);
        one.minus(self.clip_ratio).at_most(one.plus(self.clip_ratio)) && self.value_clip.neg().at_most(
            self.value_clip,
        )
    }

    /// Whether the bounds that the settings give are in order.
    pub open spec fn bounds_ordered(self) -> bool {
        let one = num::one::<S>();
        &&& one.difference(self.clip_ratio).is_at_most(one.sum(self.clip_ratio))
        &&& self.value_clip.negated().is_at_most(self.value_clip)
    }
}

impl<S: Scalar> Learner<S> {
    /// Whether the networks are a policy for two actions and its critic.
    pub open spec fn wf(self) -> bool {
        &&& self.actor.wf()
        &&& self.actor.output == 4
        &&& self.critic.wf()
        &&& self.critic.input == self.actor.input
        &&& self.critic.output == 1
    }

    /// How much likelier the policy has made the decision with the number `i`.
    pub open spec fn ratio(self, lot: Lot<S>, i: int) -> S {
        let out = self.actor.value(lot.obs[i]);
        rollout::logp(rollout::means(out), rollout::log_stds(out), lot.acts[i]).difference(
            lot.oldlp[i],
        ).exponential()
    }

    /// Whether the policy is still free to move along the decision with the number `i`.
    pub open spec fn free(self, lot: Lot<S>, i: int) -> bool {
        let ratio = self.ratio(lot, i);
        if num::zero::<S>().is_at_most(lot.adv[i]) {
            ratio.is_at_most(self.config.clipped_ratio(ratio))
        } else {
            self.config.clipped_ratio(ratio).is_at_most(ratio)
        }
    }

    /// The weight of the decision with the number `i`, of which the minibatch holds `scale`.
    pub open spec fn coefficient(self, lot: Lot<S>, scale: S, i: int) -> S {
        if self.free(lot, i) {
            lot.adv[i].negated().product(self.ratio(lot, i)).product(scale)
        } else {
            num::zero()
        }
    }

    /// What the entropy adds to the derivative with respect to one deviation.
    pub open spec fn entropy_slope(self, action: S, mean: S) -> S {
        let d = action.inverse_tanh().difference(mean);
        self.config.entropy_coef.negated().product(
            num::one::<S>().difference(
                S::counted(2).product(d.hyperbolic_tangent().product(d)),
            ),
        )
    }

    /// The derivatives with respect to the actor's outputs.
    pub open spec fn actor_errors(self, lot: Lot<S>, scale: S, i: int) -> Seq<S> {
        let out = self.actor.value(lot.obs[i]);
        let m = rollout::means(out);
        let ls = rollout::log_stds(out);
        let a = lot.acts[i];
        let c = self.coefficient(lot, scale, i);
        seq![
            c.product(rollout::mean_slope(m@[0], ls@[0], a@[0])),
            c.product(rollout::mean_slope(m@[1], ls@[1], a@[1])),
            c.product(rollout::std_slope(m@[0], ls@[0], a@[0])).sum(
                self.entropy_slope(a@[0], m@[0]),
            ),
            c.product(rollout::std_slope(m@[1], ls@[1], a@[1])).sum(
                self.entropy_slope(a@[1], m@[1]),
            ),
        ]
    }

    /// The policy's loss at the decision with the number `i`.
    pub open spec fn policy_loss(self, lot: Lot<S>, i: int) -> S {
        let ratio = self.ratio(lot, i);
        lot.adv[i].negated().product(
            if self.free(lot, i) {
                ratio.logarithm()
            } else {
                self.config.clipped_ratio(ratio).logarithm()
            },
        )
    }

    /// How far off the critic is at the decision with the number `i`, or zero where it is no
    /// longer free to move.
    pub open spec fn critic_error(self, lot: Lot<S>, i: int) -> S {
        let v = self.critic.value(lot.obs[i])[0];
        let clip = self.config.value_clip;
        let limited = lot.oldv[i].sum(
            num::clamped(v.difference(lot.oldv[i]), clip.negated(), clip),
        );
        if v.difference(lot.ret[i]).magnitude().is_at_most(
            limited.difference(lot.ret[i]).magnitude(),
        ) {
            v.difference(lot.ret[i])
        } else {
            num::zero()
        }
    }

    /// What the first `n` decisions of a minibatch add up to.
    pub open spec fn summed(self, lot: Lot<S>, chunk: Seq<usize>, scale: S, n: nat) -> Sums<S>
        decreases n,
    {
        if n == 0 {
            Sums {
                pg: num::copies(num::zero(), self.actor.p.len()),
                vg: num::copies(num::zero(), self.critic.p.len()),
                pl: num::zero(),
                vl: num::zero(),
            }
        } else {
            let s = self.summed(lot, chunk, scale, (n - 1) as nat);
            let i = chunk[n - 1] as int;
            let e = self.critic_error(lot, i);
            Sums {
                pg: self.actor.gradient(s.pg, lot.obs[i], self.actor_errors(lot, scale, i)),
                vg: self.critic.gradient(
                    s.vg,
                    lot.obs[i],
                    seq![self.config.value_coef.product(e).product(scale)],
                ),
                pl: s.pl.sum(self.policy_loss(lot, i)),
                vl: s.vl.sum(S::fraction(1, 2).product(e).product(e)),
            }
        }
    }

    /// The learner and the stats after one minibatch.
    pub open spec fn after_chunk(
        self,
        lot: Lot<S>,
        chunk: Seq<usize>,
        stats: TrainStats<S>,
    ) -> (Self, TrainStats<S>) {
        let count = S::counted(chunk.len() as u64);
        let s = self.summed(lot, chunk, num::one::<S>().quotient(count), chunk.len());
        let pg = shortened(s.pg, self.config.max_grad_norm);
        let vg = shortened(s.vg, self.config.max_grad_norm);
        let missed: usize = if self.actor_moments.admits(self.actor.p, pg) {
            0
        } else {
            1
        };
        let missed_too: usize = if self.critic_moments.admits(self.critic.p, vg) {
            0
        } else {
            1
        };
        (
            Learner {
                actor: self.actor.with(self.actor_moments.applied(self.actor.p, pg)),
                critic: self.critic.with(self.critic_moments.applied(self.critic.p, vg)),
                actor_moments: self.actor_moments.after(self.actor.p, pg),
                critic_moments: self.critic_moments.after(self.critic.p, vg),
                ..self
            },
            TrainStats {
                rejected_updates: stats.rejected_updates.wrapping_add(missed).wrapping_add(
                    missed_too,
                ),
                policy_loss: stats.policy_loss.sum(s.pl.quotient(count)),
                value_loss: stats.value_loss.sum(s.vl.quotient(count)),
                updates: stats.updates.wrapping_add(1),
                ..stats
            },
        )
    }

    /// The learner and the stats after the minibatches of `order` from the place `from` on.
    pub open spec fn after_chunks(
        self,
        lot: Lot<S>,
        order: Seq<usize>,
        size: nat,
        from: nat,
        stats: TrainStats<S>,
    ) -> (Self, TrainStats<S>)
        decreases order.len() - from,
    {
        if from >= order.len() || size == 0 {
            (self, stats)
        } else {
            let end = if from + size < order.len() {
                from + size
            } else {
                order.len()
            };
            let (next, s) = self.after_chunk(
                lot,
                order.subrange(from as int, end as int),
                stats,
            );
            next.after_chunks(lot, order, size, end, s)
        }
    }

    /// The learner, the order of the decisions and the stats after `n` epochs.
    pub open spec fn after_epochs(
        self,
        lot: Lot<S>,
        order: Seq<usize>,
        stats: TrainStats<S>,
        n: nat,
    ) -> (Self, Seq<usize>, TrainStats<S>)
        decreases n,
    {
        if n == 0 {
            (self, order, stats)
        } else {
            let (l, o, s) = self.after_epochs(lot, order, stats, (n - 1) as nat);
            let (state, mixed) = rng::shuffle_all(l.rng.state, o);
            let size = at_least_one(self.config.minibatch_size as nat);
            let (next, t) = (Learner { rng: Rng { state, spare: l.rng.spare }, ..l }).after_chunks(
                lot,
                mixed,
                size,
                0,
                s,
            );
            (next, mixed, t)
        }
    }

    /// The learner and the stats after a round on these tracks.
    pub open spec fn after_round(self, tracks: Seq<Track<S>>) -> (Self, TrainStats<S>) {
        let lot = lot_of(tracks, tracks.len());
        let (next, _, s) = self.after_epochs(
            lot,
            num::counting(lot.obs.len()),
            tallied(tracks, tracks.len()),
            self.config.epochs as nat,
        );
        let count = S::counted(at_least_one(s.updates as nat) as u64);
        (
            next,
            TrainStats {
                policy_loss: s.policy_loss.quotient(count),
                value_loss: s.value_loss.quotient(count),
                ..s
            },
        )
    }

    /// The learner after it has drawn `n` seeds.
    pub open spec fn seeded(self, n: nat) -> Self {
        Learner {
            rng: Rng { state: rng::advanced(self.rng.state, n), spare: self.rng.spare },
            ..self
        }
    }

    /// The seeds that the learner draws for `n` environments.
    pub open spec fn seeds(self, n: nat) -> Seq<u64> {
        Seq::new(n, |k: int| rng::scramble(rng::advanced(self.rng.state, (k + 1) as nat)))
    }

    /// The action that the policy prefers.
    pub open spec fn preferred(self, obs: Seq<S>) -> [S; 2] {
        let out = self.actor.value(obs);
        [out[0].hyperbolic_tangent(), out[1].hyperbolic_tangent()]
    }

    /// The action that the policy draws.
    pub open spec fn drawn(self, obs: Seq<S>) -> [S; 2] {
        rollout::acted(self.actor.value(obs), self.rng.pair())
    }

    /// The learner after it has drawn an action.
    pub open spec fn after_draw(self) -> Self {
        Learner { rng: self.rng.after_pair(), ..self }
    }
}

impl<S: Scalar> View for Ppo<S> {
    type V = Learner<S>;

    open spec fn view(&self) -> Learner<S> {
        Learner {
            actor: self.actor@,
            critic: self.critic@,
            actor_moments: self.actor_optimizer@,
            critic_moments: self.critic_optimizer@,
            rng: self.rng,
            config: self.config,
        }
    }
}

/// The learner that starts from `seed`.
pub open spec fn initial<S: Scalar>(
    obs_dim: nat,
    config: PpoConfig<S>,
    seed: u64,
) -> Learner<S> {
    let h = config.hidden as nat;
    let s1 = rng::advanced(seed, neural::weight_count(obs_dim, h, 4));
    let s2 = rng::advanced(s1, neural::weight_count(obs_dim, h, 1));
    let actor = neural::initial_net::<S>(seed, obs_dim, h, 4);
    let critic = neural::initial_net::<S>(s1, obs_dim, h, 1);
    Learner {
        actor,
        critic,
        actor_moments: adam::fresh(actor.p.len(), config.learning_rate),
        critic_moments: adam::fresh(critic.p.len(), config.learning_rate),
        rng: Rng { state: s2, spare: None },
        config,
    }
}

impl<S: Scalar> Ppo<S> {
    /// Whether the parts of the learner fit together.
    pub open spec fn wf(&self) -> bool {
        &&& self@.wf()
        &&& self.actor_workspace matches Some(w) ==> w.fits(self@.actor)
        &&& self.critic_workspace matches Some(w) ==> w.fits(self@.critic)
    }

    /// Whether the networks are a policy for two actions and its critic.
    pub fn is_consistent(&self) -> (r: bool)
        ensures
            r == self@.wf(),
    {
        self.actor.is_shaped() && self.actor.output_dim() == 4 && self.critic.is_shaped()
            && self.critic.input_dim() == self.actor.input_dim() && self.critic.output_dim() == 1
    }

    /// A learner that starts from `seed`, for observations of the length `obs_dim`.
    pub fn new(obs_dim: usize, config: PpoConfig<S>, seed: u64) -> (r: Self)
        requires
            obs_dim > 0,
            config.hidden > 0,
            neural::parameter_count(obs_dim as nat, config.hidden as nat, 4) <= usize::MAX,
            num::repeatable::<S>() ==> num::positive(config.learning_rate),
        ensures
            r.wf(),
            r@.actor.input == obs_dim,
            r@.config == config,
            r.actor_workspace is None,
            r.critic_workspace is None,
            num::repeatable::<S>() ==> r@ == initial(obs_dim as nat, config, seed),
    {
        Self::build(obs_dim, config, seed)
    }

    /// As [`Ppo::new`], for a learning rate that is taken as it is.
    fn build(obs_dim: usize, config: PpoConfig<S>, seed: u64) -> (r: Self)
        requires
            obs_dim > 0,
            config.hidden > 0,
            neural::parameter_count(obs_dim as nat, config.hidden as nat, 4) <= usize::MAX,
        ensures
            r.wf(),
            r@.actor.input == obs_dim,
            r@.config == config,
            r.actor_workspace is None,
            r.critic_workspace is None,
            num::repeatable::<S>() ==> r@ == initial(obs_dim as nat, config, seed),
    {
        let mut rng: Rng<S> = Rng::new(seed);
        proof {
            let h = config.hidden as nat;
            assert(1 * h + 1 <= 4 * h + 4) by (nonlinear_arith);
        }
        let actor: Mlp<S> = Mlp::new(obs_dim, config.hidden, 4, &mut rng);
        let critic: Mlp<S> = Mlp::new(obs_dim, config.hidden, 1, &mut rng);
        let actor_optimizer: Adam<S> = Adam::at_rest(&actor, config.learning_rate);
        let critic_optimizer: Adam<S> = Adam::at_rest(&critic, config.learning_rate);
        Ppo {
            actor,
            critic,
            actor_optimizer,
            critic_optimizer,
            rng,
            config,
            actor_workspace: None,
            critic_workspace: None,
        }
    }

    /// Hands out the actor's workspace, which is built where it is missing.
    fn take_actor_workspace(&mut self) -> (r: Workspace<S>)
        requires
            old(self).wf(),
        ensures
            r.fits(old(self)@.actor),
            final(self).wf(),
            final(self)@ == old(self)@,
    {
        match self.actor_workspace.take() {
            Some(ws) => ws,
            None => self.actor.workspace(),
        }
    }

    /// The action that the policy prefers. No random numbers are drawn.
    pub fn deterministic_action(&mut self, obs: &[S]) -> (r: [S; 2])
        requires
            old(self).wf(),
            obs@.len() == old(self)@.actor.input,
        ensures
            final(self).wf(),
            final(self)@ == old(self)@,
            num::repeatable::<S>() ==> r == old(self)@.preferred(obs@),
    {
        let mut ws: Workspace<S> = self.take_actor_workspace();
        let o: &[S] = self.actor.forward(obs, &mut ws);
        let r: [S; 2] = [o[0].tanh(), o[1].tanh()];
        self.actor_workspace = Some(ws);
        r
    }

    /// Builds the workspaces where they are missing.
    pub(crate) fn ensure_workspaces(&mut self)
        requires
            old(self).wf(),
        ensures
            final(self).wf(),
            final(self)@ == old(self)@,
            final(self).actor_workspace is Some,
            final(self).critic_workspace is Some,
    {
        if self.actor_workspace.is_none() {
            self.actor_workspace = Some(self.actor.workspace());
        }
        if self.critic_workspace.is_none() {
            self.critic_workspace = Some(self.critic.workspace());
        }
    }
}

impl<S: Scalar> Agent<S> for Ppo<S> {
    open spec fn acts_on(&self, n: nat) -> bool {
        self.wf() && self@.actor.input == n
    }

    open spec fn chooses(&self, obs: Seq<S>, action: [S; 2], after: &Self) -> bool {
        &&& after@ == (Learner { rng: after@.rng, ..self@ })
        &&& num::repeatable::<S>() ==> action == self@.drawn(obs) && after@ == self@.after_draw()
    }

    /// Draws an action.
    fn action(&mut self, obs: &[S]) -> (r: [S; 2]) {
        let mut ws: Workspace<S> = self.take_actor_workspace();
        let o: &[S] = self.actor.forward(obs, &mut ws);
        let noise: [S; 2] = self.rng.normal_pair();
        let r: [S; 2] = act(o, noise);
        self.actor_workspace = Some(ws);
        r
    }
}

impl<S: Scalar> Ppo<S> {
    /// Whether a checkpoint of one learner is a checkpoint of the other: all their fields agree but
    /// for the workspaces, which are not stored.
    pub open spec fn stored_alike(&self, other: &Self) -> bool {
        &&& self.actor@ == other.actor@
        &&& self.critic@ == other.critic@
        &&& self.actor_optimizer@ == other.actor_optimizer@
        &&& self.critic_optimizer@ == other.critic_optimizer@
        &&& self.rng == other.rng
        &&& self.config == other.config
    }
}

/// A learner that was read from a checkpoint of another has its value, and so prefers, draws and
/// goes on to draw the same actions.
pub proof fn lemma_checkpoint_keeps_the_policy<S: Scalar>(a: Ppo<S>, b: Ppo<S>, obs: Seq<S>)
    requires
        a.stored_alike(&b),
    ensures
        a@ == b@,
        a@.preferred(obs) == b@.preferred(obs),
        a@.drawn(obs) == b@.drawn(obs),
        a@.after_draw() == b@.after_draw(),
{
}

impl<S: Scalar> Clone for Ppo<S> {
    /// A learner with the same value; workspaces are rebuilt when they are needed.
    fn clone(&self) -> (r: Self)
        ensures
            r@ == self@,
            r.actor_workspace is None,
            r.critic_workspace is None,
    {
        Ppo {
            actor: self.actor.clone(),
            critic: self.critic.clone(),
            actor_optimizer: self.actor_optimizer.clone(),
            critic_optimizer: self.critic_optimizer.clone(),
            rng: self.rng,
            config: self.config,
            actor_workspace: None,
            critic_workspace: None,
        }
    }
}

impl<S: Scalar> Default for Ppo<S> {
    /// A learner for observations of sixteen numbers with the default settings.
    fn default() -> (r: Self)
        ensures
            r.wf(),
            r@.actor.input == 16,
            num::repeatable::<S>() ==> r@ == initial(16, default_settings::<S>(), 0x5eed),
    {
        assert(neural::parameter_count(16, 32, 4) <= 0xffff) by (nonlinear_arith);
        Self::build(16, PpoConfig::default(), 0x5eed)
    }
}

} // verus!
