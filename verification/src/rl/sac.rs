//! Soft actor-critic for two bounded continuous actions.
//!
//! The value of a [`Sac`] is all that its course depends on: networks, target networks, optimizer
//! moments, temperature, random generator and replay ring. Scratch storage is no part of it and is
//! rebuilt where it is missing. Call `observe` with the observation *before resetting* a finished
//! environment; time-limit truncations bootstrap, true terminations do not.
use crate::num::{self, Meaning, Scalar};
use crate::rl::adam::{Adam, Moments};
use crate::rl::neural::{self, Mlp, MlpGrad, Net, Workspace};
use crate::rl::policy::{self, TemperatureAdam};
use crate::rl::replay::{ReplayBuffer, Ring, Slot};
use crate::rl::rng::Rng;
use vstd::prelude::*;

verus! {

/// The settings of a trainer.
#[derive(Clone, Copy, Debug)]
pub struct SacConfig<S> {
    pub obs_dim: usize,
    pub hidden: usize,
    pub replay_capacity: usize,
    pub batch_size: usize,
    /// Initial environment interactions use uniform random actions.
    pub warmup_steps: u64,
    pub gamma: S,
    /// Target interpolation: target <- (1 - tau) target + tau online.
    pub tau: S,
    pub actor_lr: S,
    pub critic_lr: S,
    pub temperature_lr: S,
    pub alpha: S,
    pub auto_temperature: bool,
    /// Differential entropy target; the usual two-action default is -2.
    pub target_entropy: S,
    pub max_grad_norm: S,
}

/// What an update did.
#[derive(Clone, Copy, Debug)]
pub struct SacMetrics<S> {
    pub critic_loss: S,
    pub q1_loss: S,
    pub q2_loss: S,
    pub actor_loss: S,
    pub temperature_loss: S,
    pub alpha: S,
    pub entropy: S,
    pub mean_q: S,
    pub mean_target: S,
    pub actor_grad_norm: S,
    pub critic_grad_norm: S,
    pub updates: u64,
    pub samples: usize,
    /// False means a nonfinite update was rejected by the numerical guard.
    pub applied: bool,
}

/// Storage that updates and actions reuse.
#[derive(Debug)]
pub struct SacScratch<S> {
    pub acting: Workspace<S>,
    pub target_actor: Workspace<S>,
    pub target_q1: Workspace<S>,
    pub target_q2: Workspace<S>,
    pub q1: Workspace<S>,
    pub q2: Workspace<S>,
    pub actor: Workspace<S>,
    pub actor_q1: Workspace<S>,
    pub actor_q2: Workspace<S>,
    pub actor_gradient: MlpGrad<S>,
    pub q1_gradient: MlpGrad<S>,
    pub q2_gradient: MlpGrad<S>,
    pub unused_q1_gradient: MlpGrad<S>,
    pub unused_q2_gradient: MlpGrad<S>,
    pub q_input: Vec<S>,
    pub next_q_input: Vec<S>,
    pub indices: Vec<usize>,
}

/// A complete trainer.
#[derive(Debug)]
pub struct Sac<S> {
    pub config: SacConfig<S>,
    pub actor: Mlp<S>,
    pub q1: Mlp<S>,
    pub q2: Mlp<S>,
    pub target_q1: Mlp<S>,
    pub target_q2: Mlp<S>,
    pub actor_optimizer: Adam<S>,
    pub q1_optimizer: Adam<S>,
    pub q2_optimizer: Adam<S>,
    pub log_alpha: S,
    pub temperature_optimizer: TemperatureAdam<S>,
    pub rng: Rng<S>,
    pub replay: ReplayBuffer<S>,
    pub environment_steps: u64,
    pub updates: u64,
    pub scratch: Option<SacScratch<S>>,
}

/// The value of a trainer.
#[verifier::ext_equal]
pub struct Trainer<S> {
    pub config: SacConfig<S>,
    pub actor: Net<S>,
    pub q1: Net<S>,
    pub q2: Net<S>,
    pub target_q1: Net<S>,
    pub target_q2: Net<S>,
    pub actor_moments: Moments<S>,
    pub q1_moments: Moments<S>,
    pub q2_moments: Moments<S>,
    pub log_alpha: S,
    pub temperature: TemperatureAdam<S>,
    pub rng: Rng<S>,
    pub replay: Ring<S>,
    pub environment_steps: u64,
    pub updates: u64,
}

impl<S: Scalar> SacConfig<S> {
    /// The five numbers that must be positive.
    pub open spec fn rates(self) -> Seq<S> {
        seq![
            self.actor_lr,
            self.critic_lr,
            self.temperature_lr,
            self.alpha,
            self.max_grad_norm,
        ]
    }

    /// Whether the sizes are such that a trainer can be built.
    pub fn is_shaped(&self) -> (r: bool)
        ensures
            r == self.shaped(),
    {
        self.obs_dim > 0 && self.hidden > 0 && self.batch_size > 0 && self.replay_capacity
            >= self.batch_size
    }

    /// Whether the sizes are such that a trainer can be built.
    pub open spec fn shaped(self) -> bool {
        &&& self.obs_dim > 0
        &&& self.hidden > 0
        &&& self.batch_size > 0
        &&& self.replay_capacity >= self.batch_size
    }

    /// What is said of settings that cannot be used.
    pub open spec fn complaint(self) -> Option<Seq<char>> {
        if self.obs_dim == 0 || self.hidden == 0 {
            Some("observation and hidden dimensions must be positive"@)
        } else if self.batch_size == 0 || self.replay_capacity < self.batch_size {
            Some("replay capacity must be at least the positive batch size"@)
        } else if !num::within(self.gamma, num::zero(), num::one()) || !num::within(
            self.tau,
            num::zero(),
            num::one(),
        ) {
            Some("gamma and tau must lie in [0, 1]"@)
        } else if exists|i: int| 0 <= i < 5 && !num::positive(#[trigger] self.rates()[i]) {
            Some("learning rates, alpha, and gradient limit must be positive and finite"@)
        } else if !self.target_entropy.finite() {
            Some("target entropy must be finite"@)
        } else {
            None
        }
    }

    /// Whether the settings can be used, or what is wrong with them.
    pub fn validate(&self) -> (r: Result<(), &'static str>)
        ensures
            r is Ok ==> self.shaped(),
            !self.shaped() ==> (r matches Err(e) && Some(e@) == self.complaint()),
            num::repeatable::<S>() ==> match r {
                Ok(_) => self.complaint() is None,
                Err(e) => self.complaint() == Some(e@),
            },
    {
        let zero: S = S::from_count(0);
        let one: S = S::from_count(1);
        if self.obs_dim == 0 || self.hidden == 0 {
            return Err("observation and hidden dimensions must be positive");
        }
        if self.batch_size == 0 || self.replay_capacity < self.batch_size {
            return Err("replay capacity must be at least the positive batch size");
        }
        if !(zero.at_most(self.gamma) && self.gamma.at_most(one)) || !(zero.at_most(self.tau)
            && self.tau.at_most(one)) {
            return Err("gamma and tau must lie in [0, 1]");
        }
        let rates: [S; 5] = [
            self.actor_lr,
            self.critic_lr,
            self.temperature_lr,
            self.alpha,
            self.max_grad_norm,
        ];
        assert(rates@ =~= self.rates());
        for i in 0..5usize
            invariant
                self.shaped(),
                rates@ == self.rates(),
                num::repeatable::<S>() ==> zero == num::zero::<S>(),
                num::repeatable::<S>() ==> num::within(self.gamma, num::zero(), num::one())
                    && num::within(self.tau, num::zero(), num::one()),
                num::repeatable::<S>() ==> forall|k: int|
                    0 <= k < i ==> num::positive(#[trigger] self.rates()[k]),
        {
            let value: S = rates[i];
            if !value.is_finite() || !zero.less(value) {
                assert(value == self.rates()[i as int]);
                return Err("learning rates, alpha, and gradient limit must be positive and finite");
            }
        }
        if !self.target_entropy.is_finite() {
            return Err("target entropy must be finite");
        }
        Ok(())
    }
}

/// The default settings: sixteen inputs and a fixed temperature.
pub open spec fn default_settings<S: Scalar>() -> SacConfig<S> {
    SacConfig {
        obs_dim: 16,
        hidden: 32,
        replay_capacity: 100_000,
        batch_size: 64,
        warmup_steps: 1_000,
        gamma: S::fraction(99, 100),
        tau: S::fraction(5, 1000),
        actor_lr: S::fraction(3, 10000),
        critic_lr: S::fraction(3, 10000),
        temperature_lr: S::fraction(3, 10000),
        alpha: S::fraction(2, 10),
        auto_temperature: false,
        target_entropy: S::counted(2).negated(),
        max_grad_norm: S::counted(10),
    }
}

impl<S: Scalar> Default for SacConfig<S> {
    /// Sixteen inputs and a fixed temperature.
    fn default() -> (r: Self)
        ensures
            r.obs_dim == 16,
            r.hidden == 32,
            r.replay_capacity == 100_000,
            r.batch_size == 64,
            r.warmup_steps == 1_000,
            !r.auto_temperature,
            num::repeatable::<S>() ==> r == default_settings::<S>(),
    {
        SacConfig {
            obs_dim: 16,
            hidden: 32,
            replay_capacity: 100_000,
            batch_size: 64,
            warmup_steps: 1_000,
            gamma: S::from_ratio(99, 100),
            tau: S::from_ratio(5, 1000),
            actor_lr: S::from_ratio(3, 10000),
            critic_lr: S::from_ratio(3, 10000),
            temperature_lr: S::from_ratio(3, 10000),
            alpha: S::from_ratio(2, 10),
            auto_temperature: false,
            target_entropy: S::from_count(2).neg(),
            max_grad_norm: S::from_count(10),
        }
    }
}

/// The metrics of an update that has done nothing yet.
pub open spec fn blank<S: Scalar>() -> SacMetrics<S> {
    SacMetrics {
        critic_loss: num::zero(),
        q1_loss: num::zero(),
        q2_loss: num::zero(),
        actor_loss: num::zero(),
        temperature_loss: num::zero(),
        alpha: num::zero(),
        entropy: num::zero(),
        mean_q: num::zero(),
        mean_target: num::zero(),
        actor_grad_norm: num::zero(),
        critic_grad_norm: num::zero(),
        updates: 0,
        samples: 0,
        applied: false,
    }
}

impl<S: Scalar> Default for SacMetrics<S> {
    fn default() -> (r: Self)
        ensures
            r.updates == 0,
            r.samples == 0,
            !r.applied,
            num::repeatable::<S>() ==> r == blank::<S>(),
    {
        let zero: S = S::from_count(0);
        SacMetrics {
            critic_loss: zero,
            q1_loss: zero,
            q2_loss: zero,
            actor_loss: zero,
            temperature_loss: zero,
            alpha: zero,
            entropy: zero,
            mean_q: zero,
            mean_target: zero,
            actor_grad_norm: zero,
            critic_grad_norm: zero,
            updates: 0,
            samples: 0,
            applied: false,
        }
    }
}

/// The slots that a stream picks, and the stream after it.
pub open spec fn picked<S: Scalar>(rng: Rng<S>, ring: Ring<S>, n: nat) -> (Rng<S>, Seq<usize>)
    decreases n,
{
    if n == 0 {
        (rng, Seq::empty())
    } else {
        let (r, slots) = picked(rng, ring, (n - 1) as nat);
        (r.after_word(), slots.push(ring.sampled(r)))
    }
}

/// What a minibatch adds up to for the critics.
#[verifier::ext_equal]
pub struct CriticPass<S> {
    pub rng: Rng<S>,
    pub g1: Seq<S>,
    pub g2: Seq<S>,
    pub q1_loss: S,
    pub q2_loss: S,
    pub mean_target: S,
}

/// What a minibatch adds up to for the actor.
#[verifier::ext_equal]
pub struct ActorPass<S> {
    pub rng: Rng<S>,
    pub g: Seq<S>,
    pub loss: S,
    pub entropy: S,
    pub mean_q: S,
    pub temperature_loss: S,
    pub temperature_gradient: S,
}

impl<S: Scalar> Trainer<S> {
    /// Whether the networks and the replay ring have the sizes that the settings call for.
    pub open spec fn wf(self) -> bool {
        &&& self.config.shaped()
        &&& self.config.obs_dim + 2 <= usize::MAX
        &&& self.actor.wf() && self.actor.input == self.config.obs_dim && self.actor.output == 4
        &&& self.q1.wf() && self.q1.input == self.config.obs_dim + 2 && self.q1.output == 1
        &&& self.q2.wf() && self.q2.input == self.config.obs_dim + 2 && self.q2.output == 1
        &&& self.target_q1.wf() && self.target_q1.same_shape(self.q1)
        &&& self.target_q2.wf() && self.target_q2.same_shape(self.q2)
        &&& self.replay.wf()
        &&& self.replay.obs_dim == self.config.obs_dim
    }

    /// The weight of the entropy.
    pub open spec fn alpha(self) -> S {
        if self.config.auto_temperature {
            self.log_alpha.exponential()
        } else {
            self.config.alpha
        }
    }

    /// The share of one transition in a minibatch.
    pub open spec fn share(self) -> S {
        num::one::<S>().quotient(S::counted(self.config.batch_size as u64))
    }

    /// The value that the critics are to learn for a stored transition.
    pub open spec fn target(self, slot: Slot<S>, alpha: S, n: [S; 2]) -> S {
        let next = policy::sampled(self.actor.value(slot.next_observation), n);
        let x = slot.next_observation + next.action@;
        let value = self.target_q1.value(x)[0].smaller(self.target_q2.value(x)[0]);
        policy::backed_up(
            slot.reward,
            slot.terminated,
            self.config.gamma,
            value.difference(alpha.product(next.log_prob)),
        )
    }

    /// What the first `n` picked transitions add up to for the critics.
    pub open spec fn critic_pass(
        self,
        picks: Seq<usize>,
        alpha: S,
        rng: Rng<S>,
        n: nat,
    ) -> CriticPass<S>
        decreases n,
    {
        if n == 0 {
            CriticPass {
                rng,
                g1: num::copies(num::zero(), self.q1.p.len()),
                g2: num::copies(num::zero(), self.q2.p.len()),
                q1_loss: num::zero(),
                q2_loss: num::zero(),
                mean_target: num::zero(),
            }
        } else {
            let c = self.critic_pass(picks, alpha, rng, (n - 1) as nat);
            let slot = self.replay.slots[picks[n - 1] as int];
            let target = self.target(slot, alpha, c.rng.pair());
            let x = slot.observation + slot.action@;
            let e1 = self.q1.value(x)[0].difference(target);
            let e2 = self.q2.value(x)[0].difference(target);
            let share = self.share();
            let two = S::counted(2);
            CriticPass {
                rng: c.rng.after_pair(),
                g1: self.q1.gradient(c.g1, x, seq![two.product(share).product(e1)]),
                g2: self.q2.gradient(c.g2, x, seq![two.product(share).product(e2)]),
                q1_loss: c.q1_loss.sum(share.product(e1).product(e1)),
                q2_loss: c.q2_loss.sum(share.product(e2).product(e2)),
                mean_target: c.mean_target.sum(share.product(target)),
            }
        }
    }

    /// The derivatives of the critic that values `x` less, with respect to its inputs.
    pub open spec fn critic_slope(self, x: Seq<S>) -> Seq<S> {
        if self.q1.value(x)[0].is_at_most(self.q2.value(x)[0]) {
            self.q1.input_gradient(x, seq![num::one()])
        } else {
            self.q2.input_gradient(x, seq![num::one()])
        }
    }

    /// What the first `n` picked transitions add up to for the actor.
    pub open spec fn actor_pass(
        self,
        picks: Seq<usize>,
        alpha: S,
        rng: Rng<S>,
        n: nat,
    ) -> ActorPass<S>
        decreases n,
    {
        if n == 0 {
            ActorPass {
                rng,
                g: num::copies(num::zero(), self.actor.p.len()),
                loss: num::zero(),
                entropy: num::zero(),
                mean_q: num::zero(),
                temperature_loss: num::zero(),
                temperature_gradient: num::zero(),
            }
        } else {
            let a = self.actor_pass(picks, alpha, rng, (n - 1) as nat);
            let slot = self.replay.slots[picks[n - 1] as int];
            let sample = policy::sampled(self.actor.value(slot.observation), a.rng.pair());
            let x = slot.observation + sample.action@;
            let q = self.q1.value(x)[0].smaller(self.q2.value(x)[0]);
            let share = self.share();
            let gradient = sample.output_gradient(
                self.critic_slope(x).skip(self.config.obs_dim as int),
                alpha,
                share,
            );
            let error = sample.log_prob.sum(self.config.target_entropy);
            ActorPass {
                rng: a.rng.after_pair(),
                g: self.actor.gradient(a.g, slot.observation, gradient),
                loss: a.loss.sum(
                    share.product(alpha.product(sample.log_prob).difference(q)),
                ),
                entropy: a.entropy.difference(share.product(sample.log_prob)),
                mean_q: a.mean_q.sum(share.product(q)),
                temperature_loss: a.temperature_loss.difference(
                    share.product(self.log_alpha).product(error),
                ),
                temperature_gradient: a.temperature_gradient.difference(share.product(error)),
            }
        }
    }

    /// The trainer after the first critic was offered the gradient `g`.
    pub open spec fn with_q1_step(self, g: Seq<S>) -> Self {
        Trainer {
            q1: self.q1.with(self.q1_moments.applied(self.q1.p, g)),
            q1_moments: self.q1_moments.after(self.q1.p, g),
            ..self
        }
    }

    /// The trainer after the second critic was offered the gradient `g`.
    pub open spec fn with_q2_step(self, g: Seq<S>) -> Self {
        Trainer {
            q2: self.q2.with(self.q2_moments.applied(self.q2.p, g)),
            q2_moments: self.q2_moments.after(self.q2.p, g),
            ..self
        }
    }

    /// The trainer after the actor was offered the gradient `g`.
    pub open spec fn with_actor_step(self, g: Seq<S>) -> Self {
        Trainer {
            actor: self.actor.with(self.actor_moments.applied(self.actor.p, g)),
            actor_moments: self.actor_moments.after(self.actor.p, g),
            ..self
        }
    }

    /// The trainer after the temperature was offered the derivative `g`.
    pub open spec fn with_temperature_step(self, g: S) -> Self {
        if self.config.auto_temperature && g.finite() {
            let t = self.temperature.stepped(g);
            Trainer {
                temperature: t,
                log_alpha: t.moved(self.log_alpha, self.config.temperature_lr),
                ..self
            }
        } else {
            self
        }
    }

    /// The trainer after the target networks have followed the critics.
    pub open spec fn with_targets(self) -> Self {
        Trainer {
            target_q1: self.target_q1.blended(self.q1, self.config.tau),
            target_q2: self.target_q2.blended(self.q2, self.config.tau),
            updates: self.updates.wrapping_add(1),
            ..self
        }
    }

    /// The second half of an update: the actor, the temperature and the target networks.
    pub open spec fn improved(
        self,
        picks: Seq<usize>,
        alpha: S,
        metrics: SacMetrics<S>,
    ) -> (Self, SacMetrics<S>) {
        let a = self.actor_pass(picks, alpha, self.rng, picks.len());
        let m = SacMetrics {
            actor_loss: a.loss,
            entropy: a.entropy,
            mean_q: a.mean_q,
            temperature_loss: a.temperature_loss,
            actor_grad_norm: neural::norm_of(a.g),
            ..metrics
        };
        let drawn = Trainer { rng: a.rng, ..self };
        let g = policy::clipped(a.g, self.config.max_grad_norm);
        if !m.actor_loss.finite() || !m.actor_grad_norm.finite()
            || !a.temperature_gradient.finite() || !self.actor_moments.admits(self.actor.p, g) {
            (drawn, m)
        } else {
            let next = drawn.with_actor_step(g).with_temperature_step(
                a.temperature_gradient,
            ).with_targets();
            (
                next,
                SacMetrics {
                    alpha: if self.config.auto_temperature {
                        next.log_alpha.exponential()
                    } else {
                        m.alpha
                    },
                    temperature_loss: if self.config.auto_temperature {
                        m.temperature_loss
                    } else {
                        num::zero()
                    },
                    updates: next.updates,
                    applied: true,
                    ..m
                },
            )
        }
    }

    /// Whether there is enough to learn from.
    pub open spec fn warm(self) -> bool {
        self.replay.len >= self.config.batch_size && self.environment_steps
            >= self.config.warmup_steps
    }

    /// The trainer after an update, and what the update did.
    pub open spec fn updated(self) -> (Self, SacMetrics<S>) {
        let alpha = self.alpha();
        let batch = self.config.batch_size as nat;
        let (r, picks) = picked(self.rng, self.replay, batch);
        let c = self.critic_pass(picks, alpha, r, batch);
        let limit = self.config.max_grad_norm;
        let m = SacMetrics {
            alpha,
            samples: self.config.batch_size,
            updates: self.updates,
            q1_loss: c.q1_loss,
            q2_loss: c.q2_loss,
            mean_target: c.mean_target,
            critic_loss: c.q1_loss.sum(c.q2_loss),
            critic_grad_norm: neural::norm_of(c.g1).hypotenuse(neural::norm_of(c.g2)),
            ..blank()
        };
        let drawn = Trainer { rng: c.rng, ..self };
        let g1 = policy::clipped(c.g1, limit);
        let g2 = policy::clipped(c.g2, limit);
        if !m.critic_loss.finite() || !m.critic_grad_norm.finite() || !self.q1_moments.admits(
            self.q1.p,
            g1,
        ) {
            (drawn, m)
        } else if !self.q2_moments.admits(self.q2.p, g2) {
            (drawn.with_q1_step(g1), m)
        } else {
            drawn.with_q1_step(g1).with_q2_step(g2).improved(picks, alpha, m)
        }
    }

    /// Whether actions are still drawn at random.
    pub open spec fn exploring(self) -> bool {
        self.environment_steps < self.config.warmup_steps
    }

    /// A component of a random action.
    pub open spec fn random_component(u: S) -> S {
        S::counted(2).product(u).difference(num::one())
    }

    /// The action that the trainer chooses.
    pub open spec fn chosen(self, observation: Seq<S>, deterministic: bool) -> [S; 2] {
        if !deterministic && self.exploring() {
            [
                Self::random_component(self.rng.unit()),
                Self::random_component(self.rng.after_word().unit()),
            ]
        } else {
            let output = self.actor.value(observation);
            if deterministic {
                [output[0].hyperbolic_tangent(), output[1].hyperbolic_tangent()]
            } else {
                policy::sampled(output, self.rng.pair()).action
            }
        }
    }

    /// The trainer after it has chosen an action.
    pub open spec fn after_choice(self, deterministic: bool) -> Self {
        if deterministic {
            self
        } else if self.exploring() {
            Trainer { rng: self.rng.after_word().after_word(), ..self }
        } else {
            Trainer { rng: self.rng.after_pair(), ..self }
        }
    }

    /// The trainer after it has stored a transition.
    pub open spec fn after_transition(self, slot: Slot<S>) -> Self {
        Trainer {
            replay: self.replay.pushed(slot),
            environment_steps: self.environment_steps.wrapping_add(1),
            ..self
        }
    }
}

impl<S: Scalar> View for Sac<S> {
    type V = Trainer<S>;

    open spec fn view(&self) -> Trainer<S> {
        Trainer {
            config: self.config,
            actor: self.actor@,
            q1: self.q1@,
            q2: self.q2@,
            target_q1: self.target_q1@,
            target_q2: self.target_q2@,
            actor_moments: self.actor_optimizer@,
            q1_moments: self.q1_optimizer@,
            q2_moments: self.q2_optimizer@,
            log_alpha: self.log_alpha,
            temperature: self.temperature_optimizer,
            rng: self.rng,
            replay: self.replay@,
            environment_steps: self.environment_steps,
            updates: self.updates,
        }
    }
}

impl<S: Scalar> SacScratch<S> {
    /// Whether the storage fits a trainer.
    pub open spec fn fits(&self, t: Trainer<S>) -> bool {
        &&& self.acting.fits(t.actor)
        &&& self.target_actor.fits(t.actor)
        &&& self.actor.fits(t.actor)
        &&& self.target_q1.fits(t.q1)
        &&& self.q1.fits(t.q1)
        &&& self.actor_q1.fits(t.q1)
        &&& self.target_q2.fits(t.q2)
        &&& self.q2.fits(t.q2)
        &&& self.actor_q2.fits(t.q2)
        &&& self.actor_gradient.data@.len() == t.actor.p.len()
        &&& self.q1_gradient.data@.len() == t.q1.p.len()
        &&& self.q2_gradient.data@.len() == t.q2.p.len()
        &&& self.unused_q1_gradient.data@.len() == t.q1.p.len()
        &&& self.unused_q2_gradient.data@.len() == t.q2.p.len()
        &&& self.q_input@.len() == t.config.obs_dim + 2
        &&& self.next_q_input@.len() == t.config.obs_dim + 2
        &&& self.indices@.len() == t.config.batch_size
    }

    /// Storage for a trainer.
    pub fn new(sac: &Sac<S>) -> (r: Self)
        requires
            sac@.wf(),
        ensures
            r.fits(sac@),
    {
        SacScratch {
            acting: sac.actor.workspace(),
            target_actor: sac.actor.workspace(),
            target_q1: sac.target_q1.workspace(),
            target_q2: sac.target_q2.workspace(),
            q1: sac.q1.workspace(),
            q2: sac.q2.workspace(),
            actor: sac.actor.workspace(),
            actor_q1: sac.q1.workspace(),
            actor_q2: sac.q2.workspace(),
            actor_gradient: MlpGrad::new(&sac.actor),
            q1_gradient: MlpGrad::new(&sac.q1),
            q2_gradient: MlpGrad::new(&sac.q2),
            unused_q1_gradient: MlpGrad::new(&sac.q1),
            unused_q2_gradient: MlpGrad::new(&sac.q2),
            q_input: num::repeat(S::from_count(0), sac.config.obs_dim + 2),
            next_q_input: num::repeat(S::from_count(0), sac.config.obs_dim + 2),
            indices: num::repeat(0, sac.config.batch_size),
        }
    }
}

} // verus!
