//! A round of proximal policy optimization.
use crate::num::{self, Meaning, Scalar};
use crate::rl::environment::Environment;
use crate::rl::neural::{MlpGrad, Workspace};
use crate::rl::ppo::{self, Learner, Lot, Ppo, PpoConfig, Sums, TrainStats};
use crate::rl::rng;
use crate::rl::rollout::{
    self, bounded_log_std, collect_all, logp_and_grads, Track, Trajectory,
};
use vstd::prelude::*;

verus! {

/// The decisions of a round, from all its trajectories.
struct Batch<S> {
    obs: Vec<Vec<S>>,
    acts: Vec<[S; 2]>,
    oldlp: Vec<S>,
    oldv: Vec<S>,
    adv: Vec<S>,
    ret: Vec<S>,
}

/// The gradients and workspaces that the minibatches share.
struct Tools<S> {
    pg: MlpGrad<S>,
    vg: MlpGrad<S>,
    aws: Workspace<S>,
    cws: Workspace<S>,
}

impl<S: Scalar> Tools<S> {
    /// Whether the tools fit a learner.
    spec fn fits(&self, l: Learner<S>) -> bool {
        &&& self.pg.data@.len() == l.actor.p.len()
        &&& self.vg.data@.len() == l.critic.p.len()
        &&& self.aws.fits(l.actor)
        &&& self.cws.fits(l.critic)
    }
}

impl<S: Scalar> View for Batch<S> {
    type V = Lot<S>;

    closed spec fn view(&self) -> Lot<S> {
        Lot {
            obs: Seq::new(self.obs@.len(), |i: int| self.obs@[i]@),
            acts: self.acts@,
            oldlp: self.oldlp@,
            oldv: self.oldv@,
            adv: self.adv@,
            ret: self.ret@,
        }
    }
}

/// The mean of the numbers, zero where there are none.
fn mean<S: Scalar>(values: &Vec<S>) -> (r: S)
    ensures
        num::repeatable::<S>() ==> r == ppo::mean_of(values@),
{
    let n: usize = values.len();
    let count: usize = if n == 0 {
        1
    } else {
        n
    };
    num::sum_of(values.as_slice()).over(S::from_count(count as u64))
}

/// The numbers, shifted and scaled to the mean zero and the deviation one.
fn standardize<S: Scalar>(values: &Vec<S>) -> (r: Vec<S>)
    ensures
        r@.len() == values@.len(),
        num::repeatable::<S>() ==> r@ == ppo::standardized(values@),
{
    let n: usize = values.len();
    let center: S = mean(values);
    let mut squares: Vec<S> = Vec::with_capacity(n);
    for i in 0..n
        invariant
            n == values@.len(),
            squares@.len() == i,
            num::repeatable::<S>() ==> forall|k: int|
                0 <= k < i ==> squares@[k] == ppo::squared_around(values@, center)[k],
    {
        let d: S = values[i].minus(center);
        squares.push(d.times(d));
    }
    proof {
        if num::repeatable::<S>() {
            assert(squares@ =~= ppo::squared_around(values@, center));
        }
    }
    let deviation: S = mean(&squares).sqrt().max(S::from_ratio(1, 1000000));
    let mut r: Vec<S> = Vec::with_capacity(n);
    for i in 0..n
        invariant
            n == values@.len(),
            r@.len() == i,
            num::repeatable::<S>() ==> center == ppo::mean_of(values@),
            num::repeatable::<S>() ==> deviation == ppo::deviation_of(values@),
            num::repeatable::<S>() ==> forall|k: int|
                0 <= k < i ==> r@[k] == ppo::standardized(values@)[k],
    {
        r.push(values[i].minus(center).over(deviation));
    }
    proof {
        if num::repeatable::<S>() {
            assert(r@ =~= ppo::standardized(values@));
        }
    }
    r
}

impl<S: Scalar> Batch<S> {
    /// A batch of no decisions.
    fn new() -> (r: Self)
        ensures
            r@ == ppo::lot_of(Seq::<Track<S>>::empty(), 0),
    {
        let r: Self = Batch {
            obs: Vec::new(),
            acts: Vec::new(),
            oldlp: Vec::new(),
            oldv: Vec::new(),
            adv: Vec::new(),
            ret: Vec::new(),
        };
        assert(r@ =~= ppo::lot_of(Seq::<Track<S>>::empty(), 0));
        r
    }

    /// Adds the decisions of a trajectory.
    fn add_track(&mut self, t: &Trajectory<S>, Ghost(held): Ghost<nat>, Ghost(width): Ghost<nat>)
        requires
            old(self)@.sized(held, width),
            t@.sized(t@.rewards.len(), width),
        ensures
            final(self)@.sized(held + t@.rewards.len(), width),
            num::repeatable::<S>() ==> final(self)@ == old(self)@.with(t@),
    {
        let n: usize = t.rewards.len();
        let advantages: Vec<S> = standardize(&t.advantages);
        let ghost before = self@;
        let ghost whole = before.with(t@);
        let ghost scaled = advantages@;
        for i in 0..n
            invariant
                n == t@.rewards.len(),
                t@.sized(n as nat, width),
                before.sized(held, width),
                advantages@.len() == n,
                self@.sized((held + i) as nat, width),
                whole == before.with(t@),
                num::repeatable::<S>() ==> advantages@ == ppo::standardized(t@.advantages),
                num::repeatable::<S>() ==> {
                    &&& self@.obs == whole.obs.take(held + i)
                    &&& self@.acts == whole.acts.take(held + i)
                    &&& self@.oldlp == whole.oldlp.take(held + i)
                    &&& self@.oldv == whole.oldv.take(held + i)
                    &&& self@.adv == whole.adv.take(held + i)
                    &&& self@.ret == whole.ret.take(held + i)
                },
        {
            let ghost past = self@;
            assert(t@.obs[i as int] == t.obs@[i as int]@);
            self.obs.push(vstd::slice::slice_to_vec(t.obs[i].as_slice()));
            self.acts.push(t.actions[i]);
            self.oldlp.push(t.old_logp[i]);
            self.oldv.push(t.old_values[i]);
            self.adv.push(advantages[i]);
            self.ret.push(t.old_values[i].plus(t.advantages[i]));
            proof {
                assert(self@.obs =~= past.obs.push(t@.obs[i as int]));
                assert forall|k: int| 0 <= k < held + i + 1 implies (#[trigger] self@.obs[k]).len()
                    == width by {
                    if k < held + i {
                        assert(self@.obs[k] == past.obs[k]);
                    }
                }
                if num::repeatable::<S>() {
                    assert(self@.obs =~= whole.obs.take(held + i + 1));
                    assert(self@.acts =~= whole.acts.take(held + i + 1));
                    assert(self@.oldlp =~= whole.oldlp.take(held + i + 1));
                    assert(self@.oldv =~= whole.oldv.take(held + i + 1));
                    assert(self@.adv =~= whole.adv.take(held + i + 1));
                    assert(self@.ret =~= whole.ret.take(held + i + 1));
                }
            }
        }
        proof {
            if num::repeatable::<S>() {
                assert(self@ =~= whole);
            }
        }
    }
}

/// The decisions of all trajectories, and what these add up to.
fn assemble<S: Scalar>(list: &Vec<Trajectory<S>>, n: usize, Ghost(width): Ghost<nat>) -> (r: (
    Batch<S>,
    TrainStats<S>,
))
    requires
        forall|k: int| 0 <= k < list@.len() ==> (#[trigger] list@[k])@.sized(n as nat, width),
    ensures
        r.0@.sized(list@.len() * n as nat, width),
        r.1.steps == list@.len() * n,
        r.1.updates == 0,
        r.1.rejected_updates == 0,
        num::repeatable::<S>() ==> r.0@ == ppo::lot_of(
            rollout::tracks_of(list@),
            list@.len(),
        ),
        num::repeatable::<S>() ==> r.1 == ppo::tallied(
            rollout::tracks_of(list@),
            list@.len(),
        ),
{
    let count: usize = list.len();
    let ghost tracks = rollout::tracks_of(list@);
    let mut batch: Batch<S> = Batch::new();
    let mut stats: TrainStats<S> = TrainStats::default();
    assert(0 * n == 0) by (nonlinear_arith);
    assert(ppo::lot_of(tracks, 0) == ppo::lot_of(Seq::<Track<S>>::empty(), 0));
    for k in 0..count
        invariant
            count == list@.len(),
            tracks == rollout::tracks_of(list@),
            forall|k: int| 0 <= k < list@.len() ==> (#[trigger] list@[k])@.sized(n as nat, width),
            batch@.sized((k * n) as nat, width),
            stats.steps == k * n,
            stats.episodes <= k * n,
            stats.successes <= k * n,
            stats.updates == 0,
            stats.rejected_updates == 0,
            num::repeatable::<S>() ==> batch@ == ppo::lot_of(tracks, k as nat),
            num::repeatable::<S>() ==> stats == ppo::tallied(tracks, k as nat),
    {
        let t: &Trajectory<S> = &list[k];
        assert(list@[k as int]@.sized(n as nat, width));
        assert(tracks[k as int] == t@);
        assert((k + 1) * n == k * n + n) by (nonlinear_arith);
        batch.add_track(t, Ghost((k * n) as nat), Ghost(width));
        let held: usize = batch.ret.len();
        stats.steps = held;
        stats.episodes = stats.episodes + t.episodes;
        stats.successes = stats.successes + t.successes;
        stats.reward_sum = stats.reward_sum.plus(t.reward_sum);
    }
    (batch, stats)
}

impl<S: Scalar> Ppo<S> {
    /// Adds one decision to the gradients of a minibatch, and returns its two losses.
    fn learn_item(&self, batch: &Batch<S>, i: usize, scale: S, tools: &mut Tools<S>) -> (r: (S, S))
        requires
            self@.wf(),
            old(tools).fits(self@),
            batch@.sized(batch@.obs.len(), self@.actor.input),
            i < batch@.obs.len(),
            num::repeatable::<S>() ==> self@.config.bounds_ordered(),
        ensures
            final(tools).fits(self@),
            num::repeatable::<S>() ==> ({
                let l = self@;
                let lot = batch@;
                let e = l.critic_error(lot, i as int);
                &&& final(tools).pg.data@ == l.actor.gradient(
                    old(tools).pg.data@,
                    lot.obs[i as int],
                    l.actor_errors(lot, scale, i as int),
                )
                &&& final(tools).vg.data@ == l.critic.gradient(
                    old(tools).vg.data@,
                    lot.obs[i as int],
                    seq![l.config.value_coef.product(e).product(scale)],
                )
                &&& r.0 == l.policy_loss(lot, i as int)
                &&& r.1 == S::fraction(1, 2).product(e).product(e)
            }),
    {
        let ghost l = self@;
        let ghost lot = batch@;
        let c: PpoConfig<S> = self.config;
        let one: S = S::from_count(1);
        let zero: S = S::from_count(0);
        assert(lot.obs[i as int] == batch.obs@[i as int]@);
        let action: [S; 2] = batch.acts[i];
        let adv: S = batch.adv[i];
        let ao: &[S] = self.actor.forward(batch.obs[i].as_slice(), &mut tools.aws);
        let mean: [S; 2] = [ao[0], ao[1]];
        let ls: [S; 2] = [bounded_log_std(ao[2]), bounded_log_std(ao[3])];
        let (lp, gm, gs) = logp_and_grads(mean, ls, action);
        let ratio: S = lp.minus(batch.oldlp[i]).exp();
        let clipped: S = num::clamp(ratio, one.minus(c.clip_ratio), one.plus(c.clip_ratio));
        let use_ratio: bool = if zero.at_most(adv) {
            ratio.at_most(clipped)
        } else {
            clipped.at_most(ratio)
        };
        let coeff: S = if use_ratio {
            adv.neg().times(ratio).times(scale)
        } else {
            zero
        };
        let d0: S = action[0].atanh().minus(mean[0]);
        let d1: S = action[1].atanh().minus(mean[1]);
        let two: S = S::from_count(2);
        let e0: S = c.entropy_coef.neg().times(one.minus(two.times(d0.tanh().times(d0))));
        let e1: S = c.entropy_coef.neg().times(one.minus(two.times(d1.tanh().times(d1))));
        let go: [S; 4] = [
            coeff.times(gm[0]),
            coeff.times(gm[1]),
            coeff.times(gs[0]).plus(e0),
            coeff.times(gs[1]).plus(e1),
        ];
        proof {
            if num::repeatable::<S>() {
                assert(go@ =~= l.actor_errors(lot, scale, i as int));
            }
        }
        self.actor.backward(&mut tools.aws, go.as_slice(), &mut tools.pg);
        let log: S = if use_ratio {
            ratio.ln()
        } else {
            clipped.ln()
        };
        let pl: S = adv.neg().times(log);
        let v: S = self.critic.forward(batch.obs[i].as_slice(), &mut tools.cws)[0];
        let ret: S = batch.ret[i];
        let oldv: S = batch.oldv[i];
        let dv: S = v.minus(ret);
        let clipped_v: S = oldv.plus(
            num::clamp(v.minus(oldv), c.value_clip.neg(), c.value_clip),
        );
        let use_v: bool = v.minus(ret).abs().at_most(clipped_v.minus(ret).abs());
        let dvc: S = if use_v {
            dv
        } else {
            zero
        };
        let gv: [S; 1] = [c.value_coef.times(dvc).times(scale)];
        proof {
            if num::repeatable::<S>() {
                let e = l.critic_error(lot, i as int);
                assert(gv@ =~= seq![l.config.value_coef.product(e).product(scale)]);
            }
        }
        self.critic.backward(&mut tools.cws, gv.as_slice(), &mut tools.vg);
        (pl, S::from_ratio(1, 2).times(dvc).times(dvc))
    }

    /// Learns from one minibatch.
    fn learn_chunk(
        &mut self,
        batch: &Batch<S>,
        chunk: &[usize],
        tools: &mut Tools<S>,
        stats: TrainStats<S>,
    ) -> (r: TrainStats<S>)
        requires
            old(self).wf(),
            old(tools).fits(old(self)@),
            batch@.sized(batch@.obs.len(), old(self)@.actor.input),
            forall|k: int| 0 <= k < chunk@.len() ==> (#[trigger] chunk@[k]) < batch@.obs.len(),
            num::repeatable::<S>() ==> old(self)@.config.bounds_ordered(),
        ensures
            final(self).wf(),
            final(self)@.actor.same_shape(old(self)@.actor),
            final(self)@.config == old(self)@.config,
            final(self)@.rng == old(self)@.rng,
            final(tools).fits(final(self)@),
            r.steps == stats.steps,
            r.episodes == stats.episodes,
            r.successes == stats.successes,
            r.reward_sum == stats.reward_sum,
            r.updates == stats.updates.wrapping_add(1),
            num::repeatable::<S>() ==> (final(self)@, r) == old(self)@.after_chunk(
                batch@,
                chunk@,
                stats,
            ),
    {
        let n: usize = chunk.len();
        let count: S = S::from_count(n as u64);
        let scale: S = S::from_count(1).over(count);
        let mut pl: S = S::from_count(0);
        let mut vl: S = S::from_count(0);
        tools.pg.zero();
        tools.vg.zero();
        let ghost l = self@;
        for k in 0..n
            invariant
                n == chunk@.len(),
                *self == *old(self),
                self@.wf(),
                l == self@,
                tools.fits(self@),
                batch@.sized(batch@.obs.len(), self@.actor.input),
                forall|k: int| 0 <= k < chunk@.len() ==> (#[trigger] chunk@[k]) < batch@.obs.len(),
                num::repeatable::<S>() ==> self@.config.bounds_ordered(),
                num::repeatable::<S>() ==> l.summed(batch@, chunk@, scale, k as nat) == (Sums {
                    pg: tools.pg.data@,
                    vg: tools.vg.data@,
                    pl,
                    vl,
                }),
        {
            let (p, v) = self.learn_item(batch, chunk[k], scale, tools);
            pl = pl.plus(p);
            vl = vl.plus(v);
        }
        let limit: S = self.config.max_grad_norm;
        if S::from_count(0).less(limit) {
            let norm: S = tools.pg.norm();
            if limit.less(norm) {
                tools.pg.scale(limit.over(norm));
            }
            let norm: S = tools.vg.norm();
            if limit.less(norm) {
                tools.vg.scale(limit.over(norm));
            }
        }
        let mut stats: TrainStats<S> = stats;
        let ok1: bool = self.actor_optimizer.step(&mut self.actor, &tools.pg);
        let ok2: bool = self.critic_optimizer.step(&mut self.critic, &tools.vg);
        if !ok1 {
            stats.rejected_updates = stats.rejected_updates.wrapping_add(1);
        }
        if !ok2 {
            stats.rejected_updates = stats.rejected_updates.wrapping_add(1);
        }
        stats.policy_loss = stats.policy_loss.plus(pl.over(count));
        stats.value_loss = stats.value_loss.plus(vl.over(count));
        stats.updates = stats.updates.wrapping_add(1);
        stats
    }

    /// Learns from decisions in the given order, minibatch by minibatch.
    fn learn_chunks(
        &mut self,
        batch: &Batch<S>,
        order: &Vec<usize>,
        size: usize,
        tools: &mut Tools<S>,
        stats: TrainStats<S>,
    ) -> (r: TrainStats<S>)
        requires
            old(self).wf(),
            old(tools).fits(old(self)@),
            batch@.sized(batch@.obs.len(), old(self)@.actor.input),
            forall|k: int| 0 <= k < order@.len() ==> (#[trigger] order@[k]) < batch@.obs.len(),
            size > 0,
            num::repeatable::<S>() ==> old(self)@.config.bounds_ordered(),
        ensures
            final(self).wf(),
            final(self)@.actor.same_shape(old(self)@.actor),
            final(self)@.config == old(self)@.config,
            final(self)@.rng == old(self)@.rng,
            final(tools).fits(final(self)@),
            r.steps == stats.steps,
            r.episodes == stats.episodes,
            r.successes == stats.successes,
            r.reward_sum == stats.reward_sum,
            num::repeatable::<S>() ==> (final(self)@, r) == old(self)@.after_chunks(
                batch@,
                order@,
                size as nat,
                0,
                stats,
            ),
    {
        let n: usize = order.len();
        let mut from: usize = 0;
        let mut stats: TrainStats<S> = stats;
        let ghost first = stats;
        let ghost target = self@.after_chunks(batch@, order@, size as nat, 0, stats);
        while from < n
            invariant
                from <= n == order@.len(),
                size > 0,
                self.wf(),
                self@.actor.same_shape(old(self)@.actor),
                self@.config == old(self)@.config,
                self@.rng == old(self)@.rng,
                tools.fits(self@),
                batch@.sized(batch@.obs.len(), self@.actor.input),
                forall|k: int| 0 <= k < order@.len() ==> (#[trigger] order@[k]) < batch@.obs.len(),
                num::repeatable::<S>() ==> self@.config.bounds_ordered(),
                stats.steps == first.steps,
                stats.episodes == first.episodes,
                stats.successes == first.successes,
                stats.reward_sum == first.reward_sum,
                num::repeatable::<S>() ==> target == self@.after_chunks(
                    batch@,
                    order@,
                    size as nat,
                    from as nat,
                    stats,
                ),
            decreases n - from,
        {
            let end: usize = if size < n - from {
                from + size
            } else {
                n
            };
            let chunk: &[usize] = vstd::slice::slice_subrange(order.as_slice(), from, end);
            stats = self.learn_chunk(batch, chunk, tools, stats);
            from = end;
        }
        stats
    }

    /// Lets the policy roll out in the environments, and learns from what happens.
    pub fn train<E: Environment<S>>(&mut self, envs: &mut [E], rollout_steps: usize) -> (r:
        TrainStats<S>)
        requires
            old(self).wf(),
            rollout::all_ready(old(envs)@, old(self)@.actor, old(self)@.critic),
            num::repeatable::<S>() && old(envs)@.len() > 0 && rollout_steps > 0 && old(
                self,
            )@.config.epochs > 0 ==> old(self)@.config.bounds_ordered(),
        ensures
            final(self).wf(),
            final(self)@.config == old(self)@.config,
            final(self)@.actor.same_shape(old(self)@.actor),
            final(envs)@.len() == old(envs)@.len(),
            forall|k: int|
                0 <= k < final(envs)@.len() ==> (#[trigger] final(envs)@[k]).ready()
                    && final(envs)@[k].width() == old(envs)@[k].width(),
            r.steps == old(envs)@.len() * rollout_steps,
            old(envs)@.len() == 0 || rollout_steps == 0 ==> {
                &&& final(self)@ == old(self)@
                &&& final(envs)@ == old(envs)@
                &&& r.episodes == 0 && r.successes == 0 && r.updates == 0 && r.rejected_updates == 0
                &&& num::repeatable::<S>() ==> r == ppo::blank::<S>()
            },
            old(envs)@.len() > 0 && rollout_steps > 0 ==> exists|tracks: Seq<Track<S>>|
                {
                    &&& #[trigger] rollout::all_collected(
                        old(envs)@,
                        final(envs)@,
                        old(self)@.actor,
                        old(self)@.critic,
                        rollout_steps as nat,
                        old(self)@.seeds(old(envs)@.len()),
                        old(self)@.config.gamma,
                        old(self)@.config.gae_lambda,
                        tracks,
                    )
                    &&& num::repeatable::<S>() ==> (final(self)@, r) == old(self)@.seeded(
                        old(envs)@.len(),
                    ).after_round(tracks)
                },
    {
        self.ensure_workspaces();
        if envs.len() == 0 || rollout_steps == 0 {
            proof {
                let n = envs@.len();
                assert(n * rollout_steps == 0) by (nonlinear_arith)
                    requires
                        n == 0 || rollout_steps == 0,
                ;
            }
            return TrainStats::default();
        }
        let n: usize = envs.len();
        let ghost start = self@;
        let mut seeds: Vec<u64> = Vec::with_capacity(n);
        for k in 0..n
            invariant
                self.wf(),
                n == envs@.len(),
                envs@ == old(envs)@,
                self@ == start.seeded(k as nat),
                seeds@ == start.seeds(k as nat),
        {
            let seed: u64 = self.rng.next_u64();
            seeds.push(seed);
            assert(seeds@ =~= start.seeds((k + 1) as nat));
        }
        let c: PpoConfig<S> = self.config;
        let trajectories: Vec<Trajectory<S>> = collect_all(
            envs,
            &self.actor,
            &self.critic,
            rollout_steps,
            &seeds,
            c.gamma,
            c.gae_lambda,
            c.parallel,
        );
        let ghost tracks = rollout::tracks_of(trajectories@);
        let ghost width = self@.actor.input;
        let ghost drawn = self@;
        proof {
            assert forall|k: int| 0 <= k < trajectories@.len() implies (
            #[trigger] trajectories@[k])@.sized(rollout_steps as nat, width) by {
                assert(tracks[k] == trajectories@[k]@);
                assert(old(envs)@[k].width() == width);
            }
            assert forall|k: int| 0 <= k < envs@.len() implies (#[trigger] envs@[k]).ready()
                && envs@[k].width() == old(envs)@[k].width() by {
                let t = tracks[k];
            }
        }
        let (batch, tally) = assemble(&trajectories, rollout_steps, Ghost(width));
        let mut stats: TrainStats<S> = tally;
        let total: usize = batch.ret.len();
        let mut order: Vec<usize> = num::count_up(total);
        let mut tools: Tools<S> = Tools {
            pg: MlpGrad::new(&self.actor),
            vg: MlpGrad::new(&self.critic),
            aws: self.actor.workspace(),
            cws: self.critic.workspace(),
        };
        let size: usize = if c.minibatch_size == 0 {
            1
        } else {
            c.minibatch_size
        };
        let ghost lot = batch@;
        for e in 0..c.epochs
            invariant
                self.wf(),
                self@.actor.same_shape(start.actor),
                self@.config == start.config,
                c == start.config,
                size == ppo::at_least_one(c.minibatch_size as nat),
                tools.fits(self@),
                lot == batch@,
                lot.sized(total as nat, width),
                width == self@.actor.input,
                order@.len() == total,
                forall|k: int| 0 <= k < order@.len() ==> (#[trigger] order@[k]) < total,
                stats.steps == tally.steps,
                drawn.config == c,
                num::repeatable::<S>() && c.epochs > 0 ==> start.config.bounds_ordered(),
                num::repeatable::<S>() ==> (self@, order@, stats) == drawn.after_epochs(
                    lot,
                    num::counting(total as nat),
                    tally,
                    e as nat,
                ),
        {
            let ghost from = order@;
            proof {
                rng::lemma_shuffle_permutes(self.rng.state, from);
            }
            self.rng.shuffle(order.as_mut_slice());
            proof {
                rng::lemma_reordered_bound(from, order@, total as nat);
            }
            stats = self.learn_chunks(&batch, &order, size, &mut tools, stats);
        }
        let updates: usize = if stats.updates == 0 {
            1
        } else {
            stats.updates
        };
        let denom: S = S::from_count(updates as u64);
        stats.policy_loss = stats.policy_loss.over(denom);
        stats.value_loss = stats.value_loss.over(denom);
        proof {
            assert(rollout::all_collected(
                old(envs)@,
                envs@,
                start.actor,
                start.critic,
                rollout_steps as nat,
                start.seeds(n as nat),
                start.config.gamma,
                start.config.gae_lambda,
                tracks,
            ));
            if num::repeatable::<S>() {
                assert(lot == ppo::lot_of(tracks, tracks.len()));
                assert((self@, stats) == start.seeded(n as nat).after_round(tracks));
            }
        }
        stats
    }
}

} // verus!
