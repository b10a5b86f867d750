//! What a soft actor-critic trainer does: choosing actions, storing transitions and updating.
use crate::num::{self, Meaning, Scalar};
use crate::rl::adam::{self, Adam};
use crate::rl::environment::Agent;
use crate::rl::neural::{self, Mlp};
use crate::rl::policy::{
    self, bellman_target, clip_gradient, policy_output_gradient, sample_policy, PolicySample,
    TemperatureAdam,
};
use crate::rl::replay::{self, ReplayBuffer, ReplayTransition, Ring, Slot};
use crate::rl::rng::{self, Rng};
use crate::rl::sac::{self, Sac, SacConfig, SacMetrics, SacScratch, Trainer};
use vstd::prelude::*;

verus! {

/// The sums over a minibatch that the critics' half of an update reports.
struct CriticSums<S> {
    q1_loss: S,
    q2_loss: S,
    mean_target: S,
}

/// The sums over a minibatch that the actor's half of an update reports.
struct ActorSums<S> {
    loss: S,
    entropy: S,
    mean_q: S,
    temperature_loss: S,
    temperature_gradient: S,
}

impl<S: Scalar> SacConfig<S> {
    /// Whether everything that a trainer builds can be counted.
    pub open spec fn manageable(self) -> bool {
        let d = self.obs_dim as nat;
        let h = self.hidden as nat;
        &&& d + 2 <= usize::MAX
        &&& neural::parameter_count(d, h, 4) <= usize::MAX
        &&& neural::parameter_count(d + 2, h, 1) <= usize::MAX
        &&& self.replay_capacity * self.obs_dim <= usize::MAX
    }
}

/// The trainer that starts from `seed`.
pub open spec fn initial<S: Scalar>(config: SacConfig<S>, seed: u64) -> Trainer<S> {
    let d = config.obs_dim as nat;
    let h = config.hidden as nat;
    let s1 = rng::advanced(seed, neural::weight_count(d, h, 4));
    let s2 = rng::advanced(s1, neural::weight_count(d + 2, h, 1));
    let s3 = rng::advanced(s2, neural::weight_count(d + 2, h, 1));
    let actor = neural::initial_net::<S>(seed, d, h, 4);
    let q1 = neural::initial_net::<S>(s1, d + 2, h, 1);
    let q2 = neural::initial_net::<S>(s2, d + 2, h, 1);
    Trainer {
        config,
        actor,
        q1,
        q2,
        target_q1: q1,
        target_q2: q2,
        actor_moments: adam::fresh(actor.p.len(), config.actor_lr),
        q1_moments: adam::fresh(q1.p.len(), config.critic_lr),
        q2_moments: adam::fresh(q2.p.len(), config.critic_lr),
        log_alpha: config.alpha.logarithm(),
        temperature: TemperatureAdam { moment: num::zero(), variance: num::zero(), step: 0 },
        rng: Rng { state: s3, spare: None },
        replay: Ring {
            obs_dim: d,
            slots: num::copies(replay::empty_slot(d), config.replay_capacity as nat),
            len: 0,
            cursor: 0,
        },
        environment_steps: 0,
        updates: 0,
    }
}

/// Whether a critic takes `input` numbers, gives one, and has a target of its own shape.
fn critic_fits<S: Scalar>(critic: &Mlp<S>, target: &Mlp<S>, input: usize) -> (r: bool)
    ensures
        r == (critic@.wf() && critic@.input == input && critic@.output == 1 && target@.wf()
            && target@.same_shape(critic@)),
{
    critic.is_shaped() && critic.input_dim() == input && critic.output_dim() == 1
        && target.is_shaped() && target.input_dim() == critic.input_dim() && target.hidden_dim()
        == critic.hidden_dim() && target.output_dim() == critic.output_dim()
}

impl<S: Scalar> Sac<S> {
    /// Whether the parts of the trainer fit together.
    pub open spec fn wf(&self) -> bool {
        &&& self@.wf()
        &&& self.replay.wf()
        &&& self.scratch matches Some(s) ==> s.fits(self@)
    }

    /// Whether the networks and the replay ring have the sizes that the settings call for.
    pub fn is_consistent(&self) -> (r: bool)
        ensures
            r == (self@.wf() && self.replay.wf()),
    {
        let d: usize = self.config.obs_dim;
        if d > usize::MAX - 2 {
            return false;
        }
        self.config.is_shaped() && critic_fits(&self.q1, &self.target_q1, d + 2) && critic_fits(
            &self.q2,
            &self.target_q2,
            d + 2,
        ) && self.actor.is_shaped() && self.actor.input_dim() == d && self.actor.output_dim() == 4
            && self.replay.is_consistent() && self.replay.obs_dim == d
    }

    /// A trainer that starts from `seed`.
    pub fn new(config: SacConfig<S>, seed: u64) -> (r: Self)
        requires
            config.shaped(),
            config.manageable(),
            num::repeatable::<S>() ==> config.complaint() is None,
        ensures
            r.wf(),
            r@.config == config,
            r@.replay.len == 0,
            r@.replay.slots.len() == config.replay_capacity,
            r@.environment_steps == 0,
            r@.updates == 0,
            num::repeatable::<S>() ==> r@ == initial(config, seed),
    {
        Self::build(config, seed)
    }

    /// As [`Sac::new`], for rates that are taken as they are.
    fn build(config: SacConfig<S>, seed: u64) -> (r: Self)
        requires
            config.shaped(),
            config.manageable(),
        ensures
            r.wf(),
            r@.config == config,
            r@.replay.len == 0,
            r@.replay.slots.len() == config.replay_capacity,
            r@.environment_steps == 0,
            r@.updates == 0,
            num::repeatable::<S>() ==> r@ == initial(config, seed),
    {
        let mut rng: Rng<S> = Rng::new(seed);
        let d: usize = config.obs_dim;
        let actor: Mlp<S> = Mlp::new(d, config.hidden, 4, &mut rng);
        let q1: Mlp<S> = Mlp::new(d + 2, config.hidden, 1, &mut rng);
        let q2: Mlp<S> = Mlp::new(d + 2, config.hidden, 1, &mut rng);
        let mut sac: Self = Sac {
            config,
            actor_optimizer: Adam::at_rest(&actor, config.actor_lr),
            q1_optimizer: Adam::at_rest(&q1, config.critic_lr),
            q2_optimizer: Adam::at_rest(&q2, config.critic_lr),
            target_q1: q1.clone(),
            target_q2: q2.clone(),
            actor,
            q1,
            q2,
            log_alpha: config.alpha.ln(),
            temperature_optimizer: TemperatureAdam::new(),
            rng,
            replay: ReplayBuffer::new(config.replay_capacity, d),
            environment_steps: 0,
            updates: 0,
            scratch: None,
        };
        sac.scratch = Some(SacScratch::new(&sac));
        proof {
            if num::repeatable::<S>() {
                assert(sac@.replay.slots =~= initial(config, seed).replay.slots);
            }
        }
        sac
    }

    /// Hands out the scratch storage, which is built where it is missing.
    fn take_scratch(&mut self) -> (r: SacScratch<S>)
        requires
            old(self).wf(),
        ensures
            r.fits(old(self)@),
            final(self)@ == old(self)@,
            final(self).wf(),
            final(self).scratch is None,
    {
        match self.scratch.take() {
            Some(scratch) => scratch,
            None => SacScratch::new(self),
        }
    }

    /// The weight of the entropy.
    pub fn alpha(&self) -> (r: S)
        ensures
            !self@.config.auto_temperature ==> r == self@.config.alpha,
            num::repeatable::<S>() ==> r == self@.alpha(),
    {
        if self.config.auto_temperature {
            self.log_alpha.exp()
        } else {
            self.config.alpha
        }
    }

    /// The number of stored transitions.
    pub fn replay_len(&self) -> (r: usize)
        ensures
            r == self@.replay.len,
    {
        self.replay.len()
    }

    /// Draws two normal numbers.
    fn draw_noise(&mut self) -> (r: [S; 2])
        requires
            old(self).wf(),
        ensures
            final(self).wf(),
            final(self).scratch == old(self).scratch,
            final(self).replay == old(self).replay,
            final(self)@ == (Trainer { rng: final(self).rng, ..old(self)@ }),
            num::repeatable::<S>() ==> r == old(self).rng.pair() && final(self).rng
                == old(self).rng.after_pair(),
    {
        self.rng.normal_pair()
    }

    /// Chooses an action. A deterministic one is the squashed mean and draws no random numbers;
    /// others are uniform while the trainer still explores.
    pub fn action(&mut self, observation: &[S], deterministic: bool) -> (r: [S; 2])
        requires
            old(self).wf(),
            observation@.len() == old(self)@.config.obs_dim,
        ensures
            final(self).wf(),
            final(self)@ == (Trainer { rng: final(self).rng, ..old(self)@ }),
            deterministic ==> final(self)@ == old(self)@,
            num::repeatable::<S>() ==> r == old(self)@.chosen(observation@, deterministic),
            num::repeatable::<S>() ==> final(self)@ == old(self)@.after_choice(deterministic),
    {
        if !deterministic && self.environment_steps < self.config.warmup_steps {
            let two: S = S::from_count(2);
            let one: S = S::from_count(1);
            let first: S = two.times(self.rng.uniform()).minus(one);
            let second: S = two.times(self.rng.uniform()).minus(one);
            return [first, second];
        }
        let mut scratch: SacScratch<S> = self.take_scratch();
        let output: &[S] = self.actor.forward(observation, &mut scratch.acting);
        let r: [S; 2] = if deterministic {
            [output[0].tanh(), output[1].tanh()]
        } else {
            let noise: [S; 2] = self.draw_noise();
            sample_policy(output, noise).action
        };
        self.scratch = Some(scratch);
        r
    }

    /// Stores a transition.
    pub fn observe(
        &mut self,
        observation: &[S],
        action: [S; 2],
        reward: S,
        next_observation: &[S],
        terminated: bool,
        truncated: bool,
    )
        requires
            old(self).wf(),
            observation@.len() == old(self)@.config.obs_dim,
            next_observation@.len() == old(self)@.config.obs_dim,
            num::repeatable::<S>() ==> (Slot {
                observation: observation@,
                action,
                reward,
                next_observation: next_observation@,
                terminated,
                truncated,
            }).sound(),
        ensures
            final(self).wf(),
            final(self)@ == old(self)@.after_transition(
                Slot {
                    observation: observation@,
                    action,
                    reward,
                    next_observation: next_observation@,
                    terminated,
                    truncated,
                },
            ),
    {
        proof {
            replay::lemma_push_forgets_oldest(
                self@.replay,
                Slot {
                    observation: observation@,
                    action,
                    reward,
                    next_observation: next_observation@,
                    terminated,
                    truncated,
                },
            );
        }
        self.replay.push(observation, action, reward, next_observation, terminated, truncated);
        self.environment_steps = self.environment_steps.wrapping_add(1);
    }

    /// Picks the slots of a minibatch.
    fn pick_slots(&mut self, scratch: &mut SacScratch<S>)
        requires
            old(self).wf(),
            old(self).scratch is None,
            old(scratch).fits(old(self)@),
            old(self)@.replay.len > 0,
        ensures
            final(self).wf(),
            final(self).scratch is None,
            final(scratch).fits(final(self)@),
            final(self)@ == (Trainer { rng: final(self).rng, ..old(self)@ }),
            *final(scratch) == (SacScratch { indices: final(scratch).indices, ..*old(scratch) }),
            forall|i: int|
                0 <= i < final(scratch).indices@.len() ==> (#[trigger] final(scratch).indices@[i])
                    < old(self)@.replay.len,
            num::repeatable::<S>() ==> (final(self).rng, final(scratch).indices@) == sac::picked(
                old(self).rng,
                old(self)@.replay,
                old(self)@.config.batch_size as nat,
            ),
    {
        let n: usize = self.config.batch_size;
        for i in 0..n
            invariant
                self.wf(),
                self.scratch is None,
                scratch.fits(self@),
                n == self@.config.batch_size,
                self@.replay.len > 0,
                self@ == (Trainer { rng: self.rng, ..old(self)@ }),
                *scratch == (SacScratch { indices: scratch.indices, ..*old(scratch) }),
                forall|k: int|
                    0 <= k < i ==> (#[trigger] scratch.indices@[k]) < old(self)@.replay.len,
                num::repeatable::<S>() ==> (self.rng, scratch.indices@.take(i as int))
                    == sac::picked(old(self).rng, old(self)@.replay, i as nat),
        {
            let ghost before = scratch.indices@;
            let slot: usize = self.replay.sample_index(&mut self.rng);
            scratch.indices[i] = slot;
            assert(scratch.indices@.take(i + 1) =~= before.take(i as int).push(slot));
        }
        assert(scratch.indices@.take(n as int) =~= scratch.indices@);
    }

    /// Adds one transition to the critics' gradients and sums.
    fn critic_item(
        &mut self,
        scratch: &mut SacScratch<S>,
        index: usize,
        alpha: S,
        share: S,
        sums: CriticSums<S>,
    ) -> (r: CriticSums<S>)
        requires
            old(self).wf(),
            old(self).scratch is None,
            old(scratch).fits(old(self)@),
            index < old(self)@.replay.len,
        ensures
            final(self).wf(),
            final(self).scratch is None,
            final(scratch).fits(final(self)@),
            final(self)@ == (Trainer { rng: final(self).rng, ..old(self)@ }),
            final(scratch).indices == old(scratch).indices,
            final(scratch).actor_gradient == old(scratch).actor_gradient,
            num::repeatable::<S>() && share == old(self)@.share() ==> ({
                let t = old(self)@;
                let slot = t.replay.slots[index as int];
                let target = t.target(slot, alpha, t.rng.pair());
                let x = slot.observation + slot.action@;
                let e1 = t.q1.value(x)[0].difference(target);
                let e2 = t.q2.value(x)[0].difference(target);
                let two = S::counted(2);
                &&& final(self).rng == t.rng.after_pair()
                &&& final(scratch).q1_gradient.data@ == t.q1.gradient(
                    old(scratch).q1_gradient.data@,
                    x,
                    seq![two.product(share).product(e1)],
                )
                &&& final(scratch).q2_gradient.data@ == t.q2.gradient(
                    old(scratch).q2_gradient.data@,
                    x,
                    seq![two.product(share).product(e2)],
                )
                &&& r.q1_loss == sums.q1_loss.sum(share.product(e1).product(e1))
                &&& r.q2_loss == sums.q2_loss.sum(share.product(e2).product(e2))
                &&& r.mean_target == sums.mean_target.sum(share.product(target))
            }),
    {
        let obs_dim: usize = self.config.obs_dim;
        let noise: [S; 2] = self.draw_noise();
        let transition: ReplayTransition<'_, S> = self.replay.transition(index);
        let output: &[S] = self.actor.forward(
            transition.next_observation,
            &mut scratch.target_actor,
        );
        let next_sample: PolicySample<S> = sample_policy(output, noise);
        num::overwrite(&mut scratch.next_q_input, 0, transition.next_observation);
        num::overwrite(&mut scratch.next_q_input, obs_dim, next_sample.action.as_slice());
        assert(scratch.next_q_input@ =~= transition.next_observation@ + next_sample.action@);
        let next_q1: S = self.target_q1.forward(
            scratch.next_q_input.as_slice(),
            &mut scratch.target_q1,
        )[0];
        let next_q2: S = self.target_q2.forward(
            scratch.next_q_input.as_slice(),
            &mut scratch.target_q2,
        )[0];
        let target: S = bellman_target(
            transition.reward,
            transition.terminated,
            self.config.gamma,
            next_q1.min(next_q2).minus(alpha.times(next_sample.log_prob)),
        );
        num::overwrite(&mut scratch.q_input, 0, transition.observation);
        num::overwrite(&mut scratch.q_input, obs_dim, transition.action.as_slice());
        assert(scratch.q_input@ =~= transition.observation@ + transition.action@);
        let q1: S = self.q1.forward(scratch.q_input.as_slice(), &mut scratch.q1)[0];
        let q2: S = self.q2.forward(scratch.q_input.as_slice(), &mut scratch.q2)[0];
        let error1: S = q1.minus(target);
        let error2: S = q2.minus(target);
        let two: S = S::from_count(2);
        let d1: [S; 1] = [two.times(share).times(error1)];
        let d2: [S; 1] = [two.times(share).times(error2)];
        self.q1.backward(&mut scratch.q1, d1.as_slice(), &mut scratch.q1_gradient);
        self.q2.backward(&mut scratch.q2, d2.as_slice(), &mut scratch.q2_gradient);
        proof {
            if num::repeatable::<S>() && share == old(self)@.share() {
                let t = old(self)@;
                let slot = t.replay.slots[index as int];
                let want = t.target(slot, alpha, t.rng.pair());
                assert(target == want);
                let x = slot.observation + slot.action@;
                assert(d1@ =~= seq![
                    S::counted(2).product(share).product(t.q1.value(x)[0].difference(want)),
                ]);
                assert(d2@ =~= seq![
                    S::counted(2).product(share).product(t.q2.value(x)[0].difference(want)),
                ]);
            }
        }
        CriticSums {
            q1_loss: sums.q1_loss.plus(share.times(error1).times(error1)),
            q2_loss: sums.q2_loss.plus(share.times(error2).times(error2)),
            mean_target: sums.mean_target.plus(share.times(target)),
        }
    }

    /// Adds the minibatch to the critics' gradients and sums.
    fn critic_pass(&mut self, scratch: &mut SacScratch<S>, alpha: S, share: S) -> (r: CriticSums<S>)
        requires
            old(self).wf(),
            old(self).scratch is None,
            old(scratch).fits(old(self)@),
            forall|i: int|
                0 <= i < old(scratch).indices@.len() ==> (#[trigger] old(scratch).indices@[i])
                    < old(self)@.replay.len,
        ensures
            final(self).wf(),
            final(self).scratch is None,
            final(scratch).fits(final(self)@),
            final(self)@ == (Trainer { rng: final(self).rng, ..old(self)@ }),
            final(scratch).indices == old(scratch).indices,
            num::repeatable::<S>() && share == old(self)@.share() ==> ({
                let picks = old(scratch).indices@;
                let c = old(self)@.critic_pass(picks, alpha, old(self).rng, picks.len());
                &&& final(self).rng == c.rng
                &&& final(scratch).q1_gradient.data@ == c.g1
                &&& final(scratch).q2_gradient.data@ == c.g2
                &&& r.q1_loss == c.q1_loss
                &&& r.q2_loss == c.q2_loss
                &&& r.mean_target == c.mean_target
            }),
    {
        scratch.q1_gradient.zero();
        scratch.q2_gradient.zero();
        let zero: S = S::from_count(0);
        let mut sums: CriticSums<S> = CriticSums {
            q1_loss: zero,
            q2_loss: zero,
            mean_target: zero,
        };
        let n: usize = scratch.indices.len();
        let ghost start = self@;
        let ghost picks = scratch.indices@;
        for i in 0..n
            invariant
                n == picks.len(),
                picks == scratch.indices@,
                scratch.indices == old(scratch).indices,
                start == old(self)@,
                self.wf(),
                self.scratch is None,
                scratch.fits(self@),
                self@ == (Trainer { rng: self.rng, ..start }),
                forall|k: int| 0 <= k < picks.len() ==> (#[trigger] picks[k]) < start.replay.len,
                num::repeatable::<S>() && share == start.share() ==> ({
                    let c = start.critic_pass(picks, alpha, start.rng, i as nat);
                    &&& self.rng == c.rng
                    &&& scratch.q1_gradient.data@ == c.g1
                    &&& scratch.q2_gradient.data@ == c.g2
                    &&& sums.q1_loss == c.q1_loss
                    &&& sums.q2_loss == c.q2_loss
                    &&& sums.mean_target == c.mean_target
                }),
        {
            let index: usize = scratch.indices[i];
            let ghost before = self@;
            sums = self.critic_item(scratch, index, alpha, share, sums);
            proof {
                let slot = start.replay.slots[index as int];
                assert(before.target(slot, alpha, before.rng.pair()) == start.target(
                    slot,
                    alpha,
                    before.rng.pair(),
                ));
                assert(before.share() == start.share());
            }
        }
        sums
    }

    /// Adds one transition to the actor's gradient and sums. The critics' own gradients are not
    /// used, so that an actor update cannot move the critics.
    fn actor_item(
        &mut self,
        scratch: &mut SacScratch<S>,
        index: usize,
        alpha: S,
        share: S,
        sums: ActorSums<S>,
    ) -> (r: ActorSums<S>)
        requires
            old(self).wf(),
            old(self).scratch is None,
            old(scratch).fits(old(self)@),
            index < old(self)@.replay.len,
        ensures
            final(self).wf(),
            final(self).scratch is None,
            final(scratch).fits(final(self)@),
            final(self)@ == (Trainer { rng: final(self).rng, ..old(self)@ }),
            final(scratch).indices == old(scratch).indices,
            num::repeatable::<S>() && share == old(self)@.share() ==> ({
                let t = old(self)@;
                let slot = t.replay.slots[index as int];
                let sample = policy::sampled(t.actor.value(slot.observation), t.rng.pair());
                let x = slot.observation + sample.action@;
                let q = t.q1.value(x)[0].smaller(t.q2.value(x)[0]);
                let gradient = sample.output_gradient(
                    t.critic_slope(x).skip(t.config.obs_dim as int),
                    alpha,
                    share,
                );
                let error = sample.log_prob.sum(t.config.target_entropy);
                &&& final(self).rng == t.rng.after_pair()
                &&& final(scratch).actor_gradient.data@ == t.actor.gradient(
                    old(scratch).actor_gradient.data@,
                    slot.observation,
                    gradient,
                )
                &&& r.loss == sums.loss.sum(
                    share.product(alpha.product(sample.log_prob).difference(q)),
                )
                &&& r.entropy == sums.entropy.difference(share.product(sample.log_prob))
                &&& r.mean_q == sums.mean_q.sum(share.product(q))
                &&& r.temperature_loss == sums.temperature_loss.difference(
                    share.product(t.log_alpha).product(error),
                )
                &&& r.temperature_gradient == sums.temperature_gradient.difference(
                    share.product(error),
                )
            }),
    {
        let obs_dim: usize = self.config.obs_dim;
        let noise: [S; 2] = self.draw_noise();
        let transition: ReplayTransition<'_, S> = self.replay.transition(index);
        let output: &[S] = self.actor.forward(transition.observation, &mut scratch.actor);
        let sample: PolicySample<S> = sample_policy(output, noise);
        num::overwrite(&mut scratch.q_input, 0, transition.observation);
        num::overwrite(&mut scratch.q_input, obs_dim, sample.action.as_slice());
        assert(scratch.q_input@ =~= transition.observation@ + sample.action@);
        let ghost x = scratch.q_input@;
        let q1: S = self.q1.forward(scratch.q_input.as_slice(), &mut scratch.actor_q1)[0];
        let q2: S = self.q2.forward(scratch.q_input.as_slice(), &mut scratch.actor_q2)[0];
        let q: S = q1.min(q2);
        let one: [S; 1] = [S::from_count(1)];
        proof {
            if num::repeatable::<S>() {
                assert(one@ =~= seq![num::one::<S>()]);
            }
        }
        let input_gradient: &[S] = if q1.at_most(q2) {
            self.q1.backward(
                &mut scratch.actor_q1,
                one.as_slice(),
                &mut scratch.unused_q1_gradient,
            )
        } else {
            self.q2.backward(
                &mut scratch.actor_q2,
                one.as_slice(),
                &mut scratch.unused_q2_gradient,
            )
        };
        let slope: &[S] = vstd::slice::slice_subrange(input_gradient, obs_dim, obs_dim + 2);
        proof {
            if num::repeatable::<S>() {
                assert(input_gradient@ == old(self)@.critic_slope(x));
                assert(slope@ =~= old(self)@.critic_slope(x).skip(obs_dim as int));
            }
        }
        let gradient: [S; 4] = policy_output_gradient(&sample, slope, alpha, share);
        self.actor.backward(
            &mut scratch.actor,
            gradient.as_slice(),
            &mut scratch.actor_gradient,
        );
        let error: S = sample.log_prob.plus(self.config.target_entropy);
        ActorSums {
            loss: sums.loss.plus(share.times(alpha.times(sample.log_prob).minus(q))),
            entropy: sums.entropy.minus(share.times(sample.log_prob)),
            mean_q: sums.mean_q.plus(share.times(q)),
            temperature_loss: sums.temperature_loss.minus(
                share.times(self.log_alpha).times(error),
            ),
            temperature_gradient: sums.temperature_gradient.minus(share.times(error)),
        }
    }

    /// Adds the minibatch to the actor's gradient and sums.
    fn actor_pass(&mut self, scratch: &mut SacScratch<S>, alpha: S, share: S) -> (r: ActorSums<S>)
        requires
            old(self).wf(),
            old(self).scratch is None,
            old(scratch).fits(old(self)@),
            forall|i: int|
                0 <= i < old(scratch).indices@.len() ==> (#[trigger] old(scratch).indices@[i])
                    < old(self)@.replay.len,
        ensures
            final(self).wf(),
            final(self).scratch is None,
            final(scratch).fits(final(self)@),
            final(self)@ == (Trainer { rng: final(self).rng, ..old(self)@ }),
            num::repeatable::<S>() && share == old(self)@.share() ==> ({
                let picks = old(scratch).indices@;
                let a = old(self)@.actor_pass(picks, alpha, old(self).rng, picks.len());
                &&& final(self).rng == a.rng
                &&& final(scratch).actor_gradient.data@ == a.g
                &&& r.loss == a.loss
                &&& r.entropy == a.entropy
                &&& r.mean_q == a.mean_q
                &&& r.temperature_loss == a.temperature_loss
                &&& r.temperature_gradient == a.temperature_gradient
            }),
    {
        scratch.actor_gradient.zero();
        let zero: S = S::from_count(0);
        let mut sums: ActorSums<S> = ActorSums {
            loss: zero,
            entropy: zero,
            mean_q: zero,
            temperature_loss: zero,
            temperature_gradient: zero,
        };
        let n: usize = scratch.indices.len();
        let ghost start = self@;
        let ghost picks = scratch.indices@;
        for i in 0..n
            invariant
                n == picks.len(),
                picks == scratch.indices@,
                self.wf(),
                self.scratch is None,
                scratch.fits(self@),
                self@ == (Trainer { rng: self.rng, ..start }),
                forall|k: int| 0 <= k < picks.len() ==> (#[trigger] picks[k]) < start.replay.len,
                num::repeatable::<S>() && share == start.share() ==> ({
                    let a = start.actor_pass(picks, alpha, start.rng, i as nat);
                    &&& self.rng == a.rng
                    &&& scratch.actor_gradient.data@ == a.g
                    &&& sums.loss == a.loss
                    &&& sums.entropy == a.entropy
                    &&& sums.mean_q == a.mean_q
                    &&& sums.temperature_loss == a.temperature_loss
                    &&& sums.temperature_gradient == a.temperature_gradient
                }),
        {
            let index: usize = scratch.indices[i];
            let ghost before = self@;
            sums = self.actor_item(scratch, index, alpha, share, sums);
            proof {
                assert(before.share() == start.share());
                assert(forall|x: Seq<S>| #[trigger]
                    before.critic_slope(x) == start.critic_slope(x));
            }
        }
        sums
    }

    /// The second half of an update: the actor, the temperature and the target networks.
    fn improve(
        &mut self,
        scratch: &mut SacScratch<S>,
        alpha: S,
        share: S,
        metrics: SacMetrics<S>,
    ) -> (r: SacMetrics<S>)
        requires
            old(self).wf(),
            old(self).scratch is None,
            old(scratch).fits(old(self)@),
            forall|i: int|
                0 <= i < old(scratch).indices@.len() ==> (#[trigger] old(scratch).indices@[i])
                    < old(self)@.replay.len,
            num::repeatable::<S>() ==> share == old(self)@.share(),
            num::repeatable::<S>() ==> num::within(
                old(self)@.config.tau,
                num::zero(),
                num::one(),
            ),
            !metrics.applied,
            metrics.updates == old(self)@.updates,
        ensures
            final(self).wf(),
            final(self).scratch is None,
            final(scratch).fits(final(self)@),
            final(self)@.config == old(self)@.config,
            final(self)@.replay == old(self)@.replay,
            final(self)@.environment_steps == old(self)@.environment_steps,
            final(self)@.q1 == old(self)@.q1,
            final(self)@.q2 == old(self)@.q2,
            !r.applied ==> final(self)@ == (Trainer { rng: final(self).rng, ..old(self)@ }),
            r.applied ==> final(self)@.updates == old(self)@.updates.wrapping_add(1),
            r.updates == final(self)@.updates,
            r.samples == metrics.samples,
            num::repeatable::<S>() ==> (final(self)@, r) == old(self)@.improved(
                old(scratch).indices@,
                alpha,
                metrics,
            ),
    {
        let ghost t = self@;
        let ghost picks = scratch.indices@;
        let mut metrics: SacMetrics<S> = metrics;
        let sums: ActorSums<S> = self.actor_pass(scratch, alpha, share);
        metrics.actor_loss = sums.loss;
        metrics.entropy = sums.entropy;
        metrics.mean_q = sums.mean_q;
        metrics.temperature_loss = sums.temperature_loss;
        metrics.actor_grad_norm =
        clip_gradient(&mut scratch.actor_gradient, self.config.max_grad_norm);
        if !metrics.actor_loss.is_finite() || !metrics.actor_grad_norm.is_finite()
            || !sums.temperature_gradient.is_finite() {
            return metrics;
        }
        if !self.actor_optimizer.step(&mut self.actor, &scratch.actor_gradient) {
            return metrics;
        }
        if self.config.auto_temperature {
            self.temperature_optimizer.update(
                &mut self.log_alpha,
                sums.temperature_gradient,
                self.config.temperature_lr,
            );
            metrics.alpha = self.log_alpha.exp();
        } else {
            metrics.temperature_loss = S::from_count(0);
        }
        self.target_q1.soft_update(&self.q1, self.config.tau);
        self.target_q2.soft_update(&self.q2, self.config.tau);
        self.updates = self.updates.wrapping_add(1);
        metrics.updates = self.updates;
        metrics.applied = true;
        metrics
    }

    /// One minibatch update.
    fn update_with(&mut self, scratch: &mut SacScratch<S>) -> (r: SacMetrics<S>)
        requires
            old(self).wf(),
            old(self).scratch is None,
            old(scratch).fits(old(self)@),
            old(self)@.warm(),
            num::repeatable::<S>() ==> num::within(
                old(self)@.config.tau,
                num::zero(),
                num::one(),
            ),
        ensures
            final(self).wf(),
            final(self).scratch is None,
            final(scratch).fits(final(self)@),
            final(self)@.config == old(self)@.config,
            final(self)@.replay == old(self)@.replay,
            final(self)@.environment_steps == old(self)@.environment_steps,
            !r.applied ==> final(self)@.rejects(old(self)@),
            r.updates == final(self)@.updates,
            r.samples == old(self)@.config.batch_size,
            r.applied ==> final(self)@.updates == old(self)@.updates.wrapping_add(1),
            num::repeatable::<S>() ==> (final(self)@, r) == old(self)@.updated(),
    {
        let ghost t = self@;
        let alpha: S = self.alpha();
        let share: S = S::from_count(1).over(S::from_count(self.config.batch_size as u64));
        let mut metrics: SacMetrics<S> = SacMetrics::default();
        metrics.alpha = alpha;
        metrics.samples = self.config.batch_size;
        metrics.updates = self.updates;
        self.pick_slots(scratch);
        let ghost picks = scratch.indices@;
        let ghost drawn = self@;
        let sums: CriticSums<S> = self.critic_pass(scratch, alpha, share);
        proof {
            if num::repeatable::<S>() {
                lemma_critic_pass_reads(t, drawn, picks, alpha, drawn.rng, picks.len());
            }
        }
        metrics.q1_loss = sums.q1_loss;
        metrics.q2_loss = sums.q2_loss;
        metrics.mean_target = sums.mean_target;
        metrics.critic_loss = metrics.q1_loss.plus(metrics.q2_loss);
        let limit: S = self.config.max_grad_norm;
        let q1_norm: S = clip_gradient(&mut scratch.q1_gradient, limit);
        let q2_norm: S = clip_gradient(&mut scratch.q2_gradient, limit);
        metrics.critic_grad_norm = q1_norm.hypot(q2_norm);
        if !metrics.critic_loss.is_finite() || !metrics.critic_grad_norm.is_finite() {
            return metrics;
        }
        if !self.q1_optimizer.step(&mut self.q1, &scratch.q1_gradient) {
            return metrics;
        }
        if !self.q2_optimizer.step(&mut self.q2, &scratch.q2_gradient) {
            return metrics;
        }
        self.improve(scratch, alpha, share, metrics)
    }

    /// One update from a replay minibatch. Returns `None` until there is enough to learn from.
    pub fn update(&mut self) -> (r: Option<SacMetrics<S>>)
        requires
            old(self).wf(),
            num::repeatable::<S>() && old(self)@.warm() ==> num::within(
                old(self)@.config.tau,
                num::zero(),
                num::one(),
            ),
        ensures
            final(self).wf(),
            r is Some <==> old(self)@.warm(),
            r is None ==> final(self)@ == old(self)@,
            final(self)@.config == old(self)@.config,
            final(self)@.replay == old(self)@.replay,
            final(self)@.environment_steps == old(self)@.environment_steps,
            r matches Some(m) ==> {
                &&& m.updates == final(self)@.updates
                &&& m.samples == old(self)@.config.batch_size
                &&& m.applied ==> final(self)@.updates == old(self)@.updates.wrapping_add(1)
                &&& !m.applied ==> final(self)@.rejects(old(self)@)
            },
            num::repeatable::<S>() && old(self)@.warm() ==> (final(self)@, r->Some_0) == old(
                self,
            )@.updated(),
    {
        if self.replay.len() < self.config.batch_size || self.environment_steps
            < self.config.warmup_steps {
            return None;
        }
        let mut scratch: SacScratch<S> = self.take_scratch();
        let metrics: SacMetrics<S> = self.update_with(&mut scratch);
        self.scratch = Some(scratch);
        Some(metrics)
    }
}

impl<S: Scalar> Trainer<S> {
    /// Whether the trainer is what `before` is after an update that was rejected: the actor, the
    /// target networks and the temperature are as they were, and no update is counted.
    pub open spec fn rejects(self, before: Self) -> bool {
        &&& self.actor == before.actor
        &&& self.actor_moments == before.actor_moments
        &&& self.target_q1 == before.target_q1
        &&& self.target_q2 == before.target_q2
        &&& self.log_alpha == before.log_alpha
        &&& self.temperature == before.temperature
        &&& self.updates == before.updates
    }
}

/// The critics' half of an update does not depend on the stream that the trainer itself holds.
pub proof fn lemma_critic_pass_reads<S: Scalar>(
    t: Trainer<S>,
    u: Trainer<S>,
    picks: Seq<usize>,
    alpha: S,
    rng: Rng<S>,
    n: nat,
)
    requires
        u == (Trainer { rng: u.rng, ..t }),
    ensures
        u.critic_pass(picks, alpha, rng, n) == t.critic_pass(picks, alpha, rng, n),
    decreases n,
{
    if n > 0 {
        lemma_critic_pass_reads(t, u, picks, alpha, rng, (n - 1) as nat);
        let c = t.critic_pass(picks, alpha, rng, (n - 1) as nat);
        let slot = t.replay.slots[picks[n - 1] as int];
        assert(u.target(slot, alpha, c.rng.pair()) == t.target(
            slot,
            alpha,
            c.rng.pair(),
        ));
        assert(u.share() == t.share());
    }
}

/// After an update that was applied, each target network lies between what it was and what its
/// critic has become, at the share that the settings give.
pub proof fn lemma_targets_interpolate<S: Scalar>(t: Trainer<S>)
    requires
        t.updated().1.applied,
    ensures
        t.updated().0.target_q1 == t.target_q1.blended(t.updated().0.q1, t.config.tau),
        t.updated().0.target_q2 == t.target_q2.blended(t.updated().0.q2, t.config.tau),
{
}

/// With a fixed temperature, no update changes the weight of the entropy.
pub proof fn lemma_fixed_temperature<S: Scalar>(t: Trainer<S>)
    requires
        !t.config.auto_temperature,
    ensures
        t.updated().0.alpha() == t.alpha(),
        t.updated().1.alpha == t.alpha(),
{
}

impl<S: Scalar> Sac<S> {
    /// Whether a checkpoint of one trainer is a checkpoint of the other: all their fields agree but
    /// for the scratch storage, which is not stored.
    pub open spec fn stored_alike(&self, other: &Self) -> bool {
        &&& self.config == other.config
        &&& self.actor@ == other.actor@
        &&& self.q1@ == other.q1@
        &&& self.q2@ == other.q2@
        &&& self.target_q1@ == other.target_q1@
        &&& self.target_q2@ == other.target_q2@
        &&& self.actor_optimizer@ == other.actor_optimizer@
        &&& self.q1_optimizer@ == other.q1_optimizer@
        &&& self.q2_optimizer@ == other.q2_optimizer@
        &&& self.log_alpha == other.log_alpha
        &&& self.temperature_optimizer == other.temperature_optimizer
        &&& self.rng == other.rng
        &&& self.replay.stored_alike(&other.replay)
        &&& self.environment_steps == other.environment_steps
        &&& self.updates == other.updates
    }
}

/// One thing that is done with a trainer.
pub enum Deed<S> {
    Act { observation: Seq<S>, deterministic: bool },
    Observe { slot: Slot<S> },
    Update,
}

/// What comes of it.
pub enum Reply<S> {
    Acted { action: [S; 2] },
    Observed,
    Updated { metrics: Option<SacMetrics<S>> },
}

impl<S: Scalar> Trainer<S> {
    /// What a deed leads to.
    pub open spec fn reply(self, deed: Deed<S>) -> Reply<S> {
        match deed {
            Deed::Act { observation, deterministic } => Reply::Acted {
                action: self.chosen(observation, deterministic),
            },
            Deed::Observe { slot } => Reply::Observed,
            Deed::Update => Reply::Updated {
                metrics: if self.warm() {
                    Some(self.updated().1)
                } else {
                    None
                },
            },
        }
    }

    /// The trainer after a deed.
    pub open spec fn after_deed(self, deed: Deed<S>) -> Self {
        match deed {
            Deed::Act { observation, deterministic } => self.after_choice(deterministic),
            Deed::Observe { slot } => self.after_transition(slot),
            Deed::Update => if self.warm() {
                self.updated().0
            } else {
                self
            },
        }
    }

    /// The trainer after the first `n` deeds.
    pub open spec fn after_deeds(self, deeds: Seq<Deed<S>>, n: nat) -> Self
        decreases n,
    {
        if n == 0 {
            self
        } else {
            self.after_deeds(deeds, (n - 1) as nat).after_deed(deeds[n - 1])
        }
    }
}

/// A checkpoint resumes exactly: a trainer that was read from a checkpoint of another has its value,
/// and whatever is done with both, each deed has the same reply and leaves them with the same value.
pub proof fn lemma_checkpoint_resumes<S: Scalar>(
    a: Sac<S>,
    b: Sac<S>,
    deeds: Seq<Deed<S>>,
    n: nat,
)
    requires
        a.stored_alike(&b),
    ensures
        a@ == b@,
        a@.after_deeds(deeds, n) == b@.after_deeds(deeds, n),
        forall|k: nat|
            k < n ==> (#[trigger] a@.after_deeds(deeds, k)).reply(deeds[k as int])
                == b@.after_deeds(deeds, k).reply(deeds[k as int]),
{
    a.replay.lemma_stored_alike(&b.replay);
    assert(a@ =~= b@);
}

/// A preferred action is the squashed mean, also while the trainer still explores. It repeats, and
/// leaves the trainer as it is, so that what is drawn afterwards is what would have been drawn
/// without it.
pub proof fn lemma_preferred_actions_draw_nothing<S: Scalar>(
    t: Trainer<S>,
    preferred: Seq<S>,
    observation: Seq<S>,
)
    ensures
        t.chosen(preferred, true) == [
            t.actor.value(preferred)[0].hyperbolic_tangent(),
            t.actor.value(preferred)[1].hyperbolic_tangent(),
        ],
        t.after_choice(true) == t,
        t.after_choice(true).chosen(preferred, true) == t.chosen(preferred, true),
        t.after_choice(true).chosen(observation, false) == t.chosen(observation, false),
{
}

/// While the trainer still explores, what it draws does not depend on what it observes.
pub proof fn lemma_exploring_ignores_observations<S: Scalar>(
    t: Trainer<S>,
    one: Seq<S>,
    other: Seq<S>,
)
    requires
        t.environment_steps < t.config.warmup_steps,
    ensures
        t.chosen(one, false) == t.chosen(other, false),
        t.chosen(one, false) == [
            S::counted(2).product(t.rng.unit()).difference(num::one()),
            S::counted(2).product(t.rng.after_word().unit()).difference(num::one()),
        ],
{
}

impl<S: Scalar> Default for Sac<S> {
    /// A trainer with the default settings.
    fn default() -> (r: Self)
        ensures
            r.wf(),
            r@.config.obs_dim == 16,
            num::repeatable::<S>() ==> r@ == initial(sac::default_settings::<S>(), 0),
    {
        assert(neural::parameter_count(16, 32, 4) <= 0xffff && neural::parameter_count(18, 32, 1)
            <= 0xffff) by (nonlinear_arith);
        assert(100_000 * 16 <= usize::MAX);
        Self::build(SacConfig::default(), 0)
    }
}

impl<S: Scalar> Agent<S> for Sac<S> {
    open spec fn acts_on(&self, n: nat) -> bool {
        self.wf() && self@.config.obs_dim == n
    }

    open spec fn chooses(&self, obs: Seq<S>, action: [S; 2], after: &Self) -> bool {
        &&& after@ == (Trainer { rng: after@.rng, ..self@ })
        &&& num::repeatable::<S>() ==> action == self@.chosen(obs, false) && after@
            == self@.after_choice(false)
    }

    /// Chooses an action for training.
    fn action(&mut self, obs: &[S]) -> (r: [S; 2]) {
        Sac::action(self, obs, false)
    }
}

} // verus!
