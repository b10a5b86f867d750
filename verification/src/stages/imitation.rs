//! Supervised policy initialization using action labels from recorded data. Runs without a round of
//! reinforcement learning are imitation baselines.
use crate::env::observation::{self, ObsLayout};
use crate::env::reward::{self, EnvConfig};
use crate::env::simulator::Env;
use crate::env::state::{self, STATE_DIM};
use crate::num::{self, Meaning, Scalar};
use crate::rl::adam::Moments;
use crate::rl::neural::{Mlp, MlpGrad, Net, Workspace};
use crate::rl::ppo::{self, Learner, Ppo};
use crate::rl::rng::{self, Rng};
use crate::stages::adapters::{self, observe_encoded};
use crate::world::dataset::{Dataset, Episode, Transition};
use vstd::prelude::*;

verus! {

/// The transitions of the first `n` episodes, in their order.
pub open spec fn listed<S>(episodes: Seq<Episode<S>>, n: nat) -> Seq<Transition<S>>
    decreases n,
{
    if n == 0 {
        Seq::empty()
    } else {
        listed(episodes, (n - 1) as nat) + episodes[n - 1].transitions@
    }
}

/// What a policy sees of an encoded state.
pub open spec fn sight<S: Scalar>(
    state: Seq<S>,
    keys: Seq<observation::ObservationKey>,
) -> Seq<S> {
    state::observed(
        state::decoded(state),
        keys,
        reward::episode_seconds(reward::default_config()),
        keys.len(),
    )
}

/// What a policy sees of each transition's state.
pub open spec fn sights<S: Scalar>(
    ts: Seq<Transition<S>>,
    keys: Seq<observation::ObservationKey>,
) -> Seq<Seq<S>> {
    Seq::new(ts.len(), |i: int| sight(ts[i].state@, keys))
}

/// The actions of the transitions.
pub open spec fn labels<S>(ts: Seq<Transition<S>>) -> Seq<[S; 2]> {
    Seq::new(ts.len(), |i: int| ts[i].action)
}

/// How far apart the transitions are of which at most `max` out of `n` are kept.
pub open spec fn stride(n: nat, max: nat) -> nat {
    (((n - 1) / (max as int)) + 1) as nat
}

/// The places of the transitions that are kept: all of them, or at most `max` that are equally far
/// apart.
pub open spec fn kept(n: nat, max: nat) -> Seq<usize> {
    if max > 0 && n > max {
        let every = stride(n, max);
        let count = ((n - 1) / (every as int)) + 1;
        Seq::new(
            (if count < max {
                count
            } else {
                max as int
            }) as nat,
            |i: int| (i * every) as usize,
        )
    } else {
        num::counting(n)
    }
}

/// The number of transitions that are kept is within its bound where there is one; each is kept
/// once, and they keep their order.
pub proof fn lemma_kept_places(n: nat, max: nat)
    requires
        n <= usize::MAX,
    ensures
        max > 0 ==> kept(n, max).len() <= max,
        kept(n, max).len() <= n,
        n > 0 ==> kept(n, max).len() > 0 && kept(n, max)[0] == 0,
        forall|i: int| 0 <= i < kept(n, max).len() ==> (#[trigger] kept(n, max)[i]) < n,
        forall|i: int, j: int|
            0 <= i < j < kept(n, max).len() ==> (#[trigger] kept(n, max)[i]) < (
            #[trigger] kept(n, max)[j]),
{
    if max > 0 && n > max {
        let every = stride(n, max);
        assert(every > 0) by (nonlinear_arith)
            requires
                every == (n - 1) / (max as int) + 1,
                n > max,
                max > 0,
        ;
        let last = (n - 1) / (every as int);
        assert(last * every <= n - 1 && last < n) by (nonlinear_arith)
            requires
                last == (n - 1) / (every as int),
                every > 0,
                n > 0,
        ;
        assert forall|i: int| 0 <= i <= last implies 0 <= #[trigger] (i * every) < n by {
            assert(0 <= i * every <= last * every) by (nonlinear_arith)
                requires
                    0 <= i <= last,
                    every > 0,
            ;
        }
        assert forall|i: int, j: int| 0 <= i < j < kept(n, max).len() implies (
        #[trigger] kept(n, max)[i]) < (#[trigger] kept(n, max)[j]) by {
            assert(i * every < j * every) by (nonlinear_arith)
                requires
                    i < j,
                    every > 0,
            ;
            assert(0 <= i * every < n && 0 <= j * every < n);
        }
        assert forall|i: int| 0 <= i < kept(n, max).len() implies (#[trigger] kept(n, max)[i])
            < n by {
            assert(0 <= i * every < n);
        }
        assert(0 * every == 0) by (nonlinear_arith);
    }
}

/// The entries at the given places.
pub open spec fn at_places<T>(values: Seq<T>, places: Seq<usize>) -> Seq<T> {
    Seq::new(places.len(), |i: int| values[places[i] as int])
}

/// The outputs that lead to an action: its components before tanh, and small deviations.
pub open spec fn aim<S: Scalar>(action: [S; 2]) -> Seq<S> {
    let bound = S::fraction(999, 1000);
    seq![
        num::clamped(action@[0], bound.negated(), bound).inverse_tanh(),
        num::clamped(action@[1], bound.negated(), bound).inverse_tanh(),
        num::one::<S>().negated(),
        num::one::<S>().negated(),
    ]
}

/// How far the outputs at `obs` are from those that lead to `action`.
pub open spec fn misses<S: Scalar>(net: Net<S>, obs: Seq<S>, action: [S; 2]) -> Seq<S> {
    Seq::new(4, |j: int| net.value(obs)[j].difference(aim(action)[j]))
}

/// The sum of losses after the first `n` of the given errors.
pub open spec fn with_losses<S: Scalar>(sum: S, errors: Seq<S>, n: nat) -> S
    decreases n,
{
    if n == 0 {
        sum
    } else {
        with_losses(sum, errors, (n - 1) as nat).sum(
            S::fraction(1, 2).product(errors[n - 1]).product(errors[n - 1]),
        )
    }
}

/// The course of imitation: the policy's network and optimizer, the state of the stream, the order
/// of the samples and the sum of losses.
#[verifier::ext_equal]
pub struct Pupil<S> {
    pub net: Net<S>,
    pub moments: Moments<S>,
    pub rng: Rng<S>,
    pub order: Seq<usize>,
    pub loss_sum: S,
    pub loss_count: usize,
}

/// The gradient and the sums after the first `n` samples of a minibatch.
pub open spec fn imitated<S: Scalar>(
    net: Net<S>,
    obs: Seq<Seq<S>>,
    acts: Seq<[S; 2]>,
    chunk: Seq<usize>,
    loss_sum: S,
    loss_count: usize,
    n: nat,
) -> (Seq<S>, S, usize)
    decreases n,
{
    if n == 0 {
        (num::copies(num::zero(), net.p.len()), loss_sum, loss_count)
    } else {
        let (g, sum, count) = imitated(
            net,
            obs,
            acts,
            chunk,
            loss_sum,
            loss_count,
            (n - 1) as nat,
        );
        let i = chunk[n - 1] as int;
        let e = misses(net, obs[i], acts[i]);
        let d = Seq::new(4, |j: int| e[j].quotient(S::counted(chunk.len() as u64)));
        (net.gradient(g, obs[i], d), with_losses(sum, e, 4), count.wrapping_add(4))
    }
}

impl<S: Scalar> Pupil<S> {
    /// The pupil after one minibatch.
    pub open spec fn after_chunk(
        self,
        obs: Seq<Seq<S>>,
        acts: Seq<[S; 2]>,
        chunk: Seq<usize>,
    ) -> Self {
        let (g, sum, count) = imitated(
            self.net,
            obs,
            acts,
            chunk,
            self.loss_sum,
            self.loss_count,
            chunk.len(),
        );
        Pupil {
            net: self.net.with(self.moments.applied(self.net.p, g)),
            moments: self.moments.after(self.net.p, g),
            loss_sum: sum,
            loss_count: count,
            ..self
        }
    }

    /// The pupil after the minibatches from the place `from` on.
    pub open spec fn after_chunks(
        self,
        obs: Seq<Seq<S>>,
        acts: Seq<[S; 2]>,
        size: nat,
        from: nat,
    ) -> Self
        decreases self.order.len() - from,
    {
        if from >= self.order.len() || size == 0 {
            self
        } else {
            let end = if from + size < self.order.len() {
                from + size
            } else {
                self.order.len()
            };
            self.after_chunk(
                obs,
                acts,
                self.order.subrange(from as int, end as int),
            ).after_chunks(obs, acts, size, end)
        }
    }

    /// The pupil after `n` epochs.
    pub open spec fn after_epochs(
        self,
        obs: Seq<Seq<S>>,
        acts: Seq<[S; 2]>,
        size: nat,
        n: nat,
    ) -> Self
        decreases n,
    {
        if n == 0 {
            self
        } else {
            let p = self.after_epochs(obs, acts, size, (n - 1) as nat);
            let (state, order) = rng::shuffle_all(p.rng.state, p.order);
            (Pupil { rng: Rng { state, spare: p.rng.spare }, order, ..p }).after_chunks(
                obs,
                acts,
                size,
                0,
            )
        }
    }
}

/// The pupil that a learner becomes, for `n` samples.
pub open spec fn enrolled<S: Scalar>(l: Learner<S>, n: nat) -> Pupil<S> {
    Pupil {
        net: l.actor,
        moments: l.actor_moments,
        rng: l.rng,
        order: num::counting(n),
        loss_sum: num::zero(),
        loss_count: 0,
    }
}

/// The learner that a pupil has become.
pub open spec fn graduated<S: Scalar>(l: Learner<S>, p: Pupil<S>) -> Learner<S> {
    Learner { actor: p.net, actor_moments: p.moments, rng: p.rng, ..l }
}

/// The samples that imitation is based on.
struct Samples<S> {
    obs: Vec<Vec<S>>,
    acts: Vec<[S; 2]>,
}

impl<S: Scalar> Samples<S> {
    /// The observations.
    spec fn sights(&self) -> Seq<Seq<S>> {
        adapters::states_of(self.obs@)
    }

    /// Whether there is an action for each observation, and these have the length `width`.
    spec fn sized(&self, width: nat) -> bool {
        &&& self.acts@.len() == self.obs@.len()
        &&& forall|i: int| 0 <= i < self.obs@.len() ==> (#[trigger] self.obs@[i])@.len() == width
    }
}

/// Whether all states of a dataset are encoded ones.
pub open spec fn all_encoded<S>(episodes: Seq<Episode<S>>) -> bool {
    forall|e: int, t: int|
        0 <= e < episodes.len() && 0 <= t < episodes[e].transitions@.len()
            ==> #[trigger] episodes[e].transitions@[t].state@.len() == STATE_DIM
}

/// Whether all states of a dataset are encoded ones.
pub fn holds_encoded<S: Scalar>(dataset: &Dataset<S>) -> (r: bool)
    ensures
        r == all_encoded(dataset.episodes@),
{
    let n: usize = dataset.episodes.len();
    for e in 0..n
        invariant
            n == dataset.episodes@.len(),
            all_encoded(dataset.episodes@.take(e as int)),
    {
        let m: usize = dataset.episodes[e].transitions.len();
        for t in 0..m
            invariant
                e < n == dataset.episodes@.len(),
                m == dataset.episodes@[e as int].transitions@.len(),
                forall|k: int|
                    0 <= k < t ==> (
                    #[trigger] dataset.episodes@[e as int].transitions@[k]).state@.len()
                        == STATE_DIM,
        {
            if dataset.episodes[e].transitions[t].state.len() != STATE_DIM {
                assert(dataset.episodes@[e as int].transitions@[t as int].state@.len()
                    != STATE_DIM);
                return false;
            }
        }
        assert forall|i: int, t: int|
            0 <= i < e + 1 && 0 <= t < dataset.episodes@.take(
                e + 1,
            )[i].transitions@.len() implies #[trigger] dataset.episodes@.take(
            e + 1,
        )[i].transitions@[t].state@.len() == STATE_DIM by {
            if i < e {
                assert(dataset.episodes@.take(e as int)[i].transitions@[t].state@.len()
                    == STATE_DIM);
            } else {
                assert(dataset.episodes@[e as int].transitions@[t].state@.len() == STATE_DIM);
            }
        }
    }
    assert(dataset.episodes@.take(n as int) =~= dataset.episodes@);
    true
}

/// The observations and actions of all transitions.
fn gather_samples<S: Scalar>(dataset: &Dataset<S>, layout: &ObsLayout) -> (r: Samples<S>)
    requires
        layout.wf(),
        all_encoded(dataset.episodes@),
    ensures
        r.sized(layout.dim as nat),
        r.obs@.len() == listed(dataset.episodes@, dataset.episodes@.len()).len(),
        r.acts@ == labels(listed(dataset.episodes@, dataset.episodes@.len())),
        num::repeatable::<S>() ==> r.sights() == sights(
            listed(dataset.episodes@, dataset.episodes@.len()),
            layout.keys@,
        ),
{
    let shadow: Env<S> = Env::with_config(1, EnvConfig::default());
    let n: usize = dataset.episodes.len();
    let mut obs: Vec<Vec<S>> = Vec::new();
    let mut acts: Vec<[S; 2]> = Vec::new();
    let ghost all = dataset.episodes@;
    for e in 0..n
        invariant
            n == all.len(),
            all == dataset.episodes@,
            layout.wf(),
            all_encoded(all),
            shadow.config == reward::default_config(),
            obs@.len() == listed(all, e as nat).len(),
            acts@ == labels(listed(all, e as nat)),
            forall|i: int| 0 <= i < obs@.len() ==> (#[trigger] obs@[i])@.len() == layout.dim,
            num::repeatable::<S>() ==> forall|i: int|
                0 <= i < obs@.len() ==> (#[trigger] obs@[i])@ == sight(
                    listed(all, e as nat)[i].state@,
                    layout.keys@,
                ),
    {
        let episode: &Episode<S> = &dataset.episodes[e];
        let count: usize = episode.transitions.len();
        let ghost done = listed(all, e as nat);
        let ghost ts = episode.transitions@;
        for t in 0..count
            invariant
                count == ts.len(),
                ts == episode.transitions@,
                e < all.len(),
                *episode == all[e as int],
                layout.wf(),
                all_encoded(all),
                shadow.config == reward::default_config(),
                obs@.len() == done.len() + t,
                acts@ == labels(done + ts.take(t as int)),
                forall|i: int| 0 <= i < obs@.len() ==> (#[trigger] obs@[i])@.len() == layout.dim,
                num::repeatable::<S>() ==> forall|i: int|
                    0 <= i < obs@.len() ==> (#[trigger] obs@[i])@ == sight(
                        (done + ts.take(t as int))[i].state@,
                        layout.keys@,
                    ),
        {
            let transition: &Transition<S> = &episode.transitions[t];
            assert(all[e as int].transitions@[t as int].state@.len() == STATE_DIM);
            let mut seen: Vec<S> = num::repeat(S::from_count(0), layout.dim);
            observe_encoded(&shadow, transition.state.as_slice(), layout, seen.as_mut_slice());
            let ghost before = obs@;
            obs.push(seen);
            acts.push(transition.action);
            proof {
                let longer = done + ts.take(t + 1);
                assert(longer =~= (done + ts.take(t as int)).push(*transition));
                assert(acts@ =~= labels(longer));
                assert forall|i: int| 0 <= i < obs@.len() implies (#[trigger] obs@[i])@.len()
                    == layout.dim by {
                    if i < before.len() {
                        assert(obs@[i] == before[i]);
                    }
                }
                if num::repeatable::<S>() {
                    assert forall|i: int| 0 <= i < obs@.len() implies (#[trigger] obs@[i])@
                        == sight(longer[i].state@, layout.keys@) by {
                        if i < before.len() {
                            assert(obs@[i] == before[i]);
                        }
                    }
                }
            }
        }
        assert(ts.take(count as int) =~= ts);
    }
    let r: Samples<S> = Samples { obs, acts };
    proof {
        if num::repeatable::<S>() {
            assert(r.sights() =~= sights(listed(all, n as nat), layout.keys@));
        }
    }
    r
}

/// Whether `copies` are the observations of `obs` at the given places.
spec fn copied_from<S>(
    copies: Seq<Vec<S>>,
    obs: Seq<Vec<S>>,
    places: Seq<usize>,
    width: nat,
) -> bool {
    forall|i: int|
        0 <= i < copies.len() ==> (#[trigger] copies[i])@ == obs[places[i] as int]@ && places[i]
            < obs.len() && copies[i]@.len() == width
}

/// The samples that are kept.
fn thin<S: Scalar>(samples: Samples<S>, max: usize, Ghost(width): Ghost<nat>) -> (r: Samples<S>)
    requires
        samples.sized(width),
        samples.obs@.len() > 0,
    ensures
        r.sized(width),
        r.obs@.len() == kept(samples.obs@.len(), max as nat).len(),
        r.sights() == at_places(samples.sights(), kept(samples.obs@.len(), max as nat)),
        r.acts@ == at_places(samples.acts@, kept(samples.obs@.len(), max as nat)),
        r.obs@.len() > 0,
{
    let n: usize = samples.obs.len();
    let ghost places = kept(n as nat, max as nat);
    if max == 0 || n <= max {
        assert(samples.sights() =~= at_places(samples.sights(), places));
        assert(samples.acts@ =~= at_places(samples.acts@, places));
        return samples;
    }
    let every: usize = (n - 1) / max + 1;
    let count: usize = (n - 1) / every + 1;
    let take: usize = if count < max {
        count
    } else {
        max
    };
    let mut obs: Vec<Vec<S>> = Vec::with_capacity(take);
    let mut acts: Vec<[S; 2]> = Vec::with_capacity(take);
    proof {
        assert(0 * every == 0) by (nonlinear_arith);
        vstd::arithmetic::div_mod::lemma_fundamental_div_mod((n - 1) as int, every as int);
        vstd::arithmetic::div_mod::lemma_mod_bound((n - 1) as int, every as int);
    }
    let mut at: usize = 0;
    for k in 0..take
        invariant
            n == samples.obs@.len(),
            samples.sized(width),
            every > 0,
            take <= count,
            take <= places.len(),
            count == (n - 1) / (every as int) + 1,
            (n - 1) as int == every * ((n - 1) / (every as int)) + (n - 1) % (every as int),
            0 <= (n - 1) % (every as int),
            forall|i: int| 0 <= i < take ==> #[trigger] places[i] == (i * every) as usize,
            k < take ==> at == k * every,
            obs@.len() == k,
            acts@.len() == k,
            copied_from(obs@, samples.obs@, places, width),
            forall|i: int| 0 <= i < k ==> #[trigger] acts@[i] == samples.acts@[places[i] as int],
    {
        proof {
            let last = (n - 1) / (every as int);
            assert(k * every <= last * every) by (nonlinear_arith)
                requires
                    k <= last,
                    every > 0,
            ;
            assert(last * every == every * last) by (nonlinear_arith);
            assert(places[k as int] == at);
            assert((k + 1) * every == k * every + every) by (nonlinear_arith);
            if k + 1 < take {
                assert((k + 1) * every <= last * every) by (nonlinear_arith)
                    requires
                        k + 1 <= last,
                        every > 0,
                ;
            }
        }
        let ghost past = obs@;
        assert(samples.obs@[at as int]@.len() == width);
        obs.push(vstd::slice::slice_to_vec(samples.obs[at].as_slice()));
        acts.push(samples.acts[at]);
        proof {
            assert(copied_from(obs@, samples.obs@, places, width)) by {
                assert forall|i: int| 0 <= i < obs@.len() implies (#[trigger] obs@[i])@
                    == samples.obs@[places[i] as int]@ && places[i] < n && obs@[i]@.len()
                    == width by {
                    if i < k {
                        assert(obs@[i] == past[i]);
                    }
                }
            }
        }
        if k + 1 < take {
            at = at + every;
        }
    }
    let r: Samples<S> = Samples { obs, acts };
    proof {
        assert(r.sights() =~= at_places(samples.sights(), places));
        assert(r.acts@ =~= at_places(samples.acts@, places));
    }
    r
}

/// Adds one sample to the gradient of a minibatch, and returns the sum of losses with its own.
fn imitate_item<S: Scalar>(
    net: &Mlp<S>,
    obs: &Vec<S>,
    action: [S; 2],
    count: usize,
    loss_sum: S,
    grad: &mut MlpGrad<S>,
    ws: &mut Workspace<S>,
) -> (r: S)
    requires
        net@.wf(),
        net@.output == 4,
        net@.input == obs@.len(),
        old(ws).fits(net@),
        old(grad).data@.len() == net@.p.len(),
    ensures
        final(ws).fits(net@),
        final(grad).data@.len() == net@.p.len(),
        num::repeatable::<S>() ==> ({
            let e = misses(net@, obs@, action);
            let d = Seq::new(4, |j: int| e[j].quotient(S::counted(count as u64)));
            &&& final(grad).data@ == net@.gradient(old(grad).data@, obs@, d)
            &&& r == with_losses(loss_sum, e, 4)
        }),
{
    let bound: S = S::from_ratio(999, 1000);
    let target: [S; 4] = [
        num::clamp(action[0], bound.neg(), bound).atanh(),
        num::clamp(action[1], bound.neg(), bound).atanh(),
        S::from_count(1).neg(),
        S::from_count(1).neg(),
    ];
    let output: &[S] = net.forward(obs.as_slice(), ws);
    let mut output_grad: Vec<S> = Vec::with_capacity(4);
    let mut sum: S = loss_sum;
    let ghost e = misses(net@, obs@, action);
    proof {
        if num::repeatable::<S>() {
            assert(target@ =~= aim(action));
        }
    }
    for j in 0..4usize
        invariant
            output@.len() == 4,
            output_grad@.len() == j,
            e == misses(net@, obs@, action),
            num::repeatable::<S>() ==> output@ == net@.value(obs@),
            num::repeatable::<S>() ==> target@ == aim(action),
            num::repeatable::<S>() ==> sum == with_losses(loss_sum, e, j as nat),
            num::repeatable::<S>() ==> forall|k: int|
                0 <= k < j ==> output_grad@[k] == e[k].quotient(S::counted(count as u64)),
    {
        let error: S = output[j].minus(target[j]);
        sum = sum.plus(S::from_ratio(1, 2).times(error).times(error));
        output_grad.push(error.over(S::from_count(count as u64)));
    }
    proof {
        if num::repeatable::<S>() {
            let d = Seq::new(4, |j: int| e[j].quotient(S::counted(count as u64)));
            assert(output_grad@ =~= d);
        }
    }
    net.backward(ws, output_grad.as_slice(), grad);
    sum
}

/// Initializes a policy from recorded actions. Returns the number of samples and the mean loss.
pub fn behavior_clone_policy<S: Scalar>(
    policy: &mut Ppo<S>,
    dataset: &Dataset<S>,
    layout: &ObsLayout,
    epochs: usize,
    max_samples: usize,
) -> (r: (usize, S))
    requires
        old(policy).wf(),
        layout.wf(),
        old(policy)@.actor.input == layout.dim,
        all_encoded(dataset.episodes@),
    ensures
        final(policy).wf(),
        final(policy)@.actor.same_shape(old(policy)@.actor),
        final(policy)@.critic == old(policy)@.critic,
        final(policy)@.critic_moments == old(policy)@.critic_moments,
        final(policy)@.config == old(policy)@.config,
        ({
            let ts = listed(dataset.episodes@, dataset.episodes@.len());
            let places = kept(ts.len(), max_samples as nat);
            let obs = at_places(sights(ts, layout.keys@), places);
            let acts = at_places(labels(ts), places);
            let size = ppo::at_least_one(old(policy)@.config.minibatch_size as nat);
            let p = enrolled(old(policy)@, places.len()).after_epochs(
                obs,
                acts,
                size,
                epochs as nat,
            );
            if ts.len() == 0 {
                &&& final(policy)@ == old(policy)@
                &&& r.0 == 0
                &&& num::repeatable::<S>() ==> r.1 == num::zero::<S>()
            } else {
                &&& r.0 == places.len()
                &&& num::repeatable::<S>() ==> final(policy)@ == graduated(old(policy)@, p)
                &&& num::repeatable::<S>() ==> r.1 == p.loss_sum.quotient(
                    S::counted(ppo::at_least_one(p.loss_count as nat) as u64),
                )
            }
        }),
{
    let ghost ts = listed(dataset.episodes@, dataset.episodes@.len());
    let all: Samples<S> = gather_samples(dataset, layout);
    if all.obs.len() == 0 {
        return (0, S::from_count(0));
    }
    let samples: Samples<S> = thin(all, max_samples, Ghost(layout.dim as nat));
    let n: usize = samples.obs.len();
    let ghost obs = samples.sights();
    let ghost acts = samples.acts@;
    let ghost first = policy@;
    let size: usize = if policy.config.minibatch_size == 0 {
        1
    } else {
        policy.config.minibatch_size
    };
    let mut order: Vec<usize> = num::count_up(n);
    let mut ws: Workspace<S> = policy.actor.workspace();
    let mut grad: MlpGrad<S> = MlpGrad::new(&policy.actor);
    let mut loss_sum: S = S::from_count(0);
    let mut loss_count: usize = 0;
    let ghost start = enrolled(first, n as nat);
    for epoch in 0..epochs
        invariant
            policy.wf(),
            policy@.actor.same_shape(first.actor),
            policy@ == (Learner {
                actor: policy@.actor,
                actor_moments: policy@.actor_moments,
                rng: policy@.rng,
                ..first
            }),
            policy@.actor.input == layout.dim,
            ws.fits(policy@.actor),
            grad.data@.len() == policy@.actor.p.len(),
            samples.sized(layout.dim as nat),
            n == samples.obs@.len(),
            obs == samples.sights(),
            acts == samples.acts@,
            size > 0,
            order@.len() == n,
            forall|k: int| 0 <= k < order@.len() ==> (#[trigger] order@[k]) < n,
            num::repeatable::<S>() ==> start.after_epochs(obs, acts, size as nat, epoch as nat)
                == (Pupil {
                net: policy@.actor,
                moments: policy@.actor_moments,
                rng: policy@.rng,
                order: order@,
                loss_sum,
                loss_count,
            }),
    {
        let ghost from = order@;
        proof {
            rng::lemma_shuffle_permutes(policy.rng.state, from);
        }
        policy.rng.shuffle(order.as_mut_slice());
        proof {
            rng::lemma_reordered_bound(from, order@, n as nat);
        }
        let ghost target = (Pupil {
            net: policy@.actor,
            moments: policy@.actor_moments,
            rng: policy@.rng,
            order: order@,
            loss_sum,
            loss_count,
        }).after_chunks(obs, acts, size as nat, 0);
        let mut at: usize = 0;
        while at < n
            invariant
                at <= n,
                policy.wf(),
                policy@.actor.same_shape(first.actor),
                policy@ == (Learner {
                    actor: policy@.actor,
                    actor_moments: policy@.actor_moments,
                    rng: policy@.rng,
                    ..first
                }),
                policy@.actor.input == layout.dim,
                ws.fits(policy@.actor),
                grad.data@.len() == policy@.actor.p.len(),
                samples.sized(layout.dim as nat),
                n == samples.obs@.len() == order@.len(),
                obs == samples.sights(),
                acts == samples.acts@,
                size > 0,
                forall|k: int| 0 <= k < order@.len() ==> (#[trigger] order@[k]) < n,
                num::repeatable::<S>() ==> target == (Pupil {
                    net: policy@.actor,
                    moments: policy@.actor_moments,
                    rng: policy@.rng,
                    order: order@,
                    loss_sum,
                    loss_count,
                }).after_chunks(obs, acts, size as nat, at as nat),
            decreases n - at,
        {
            let end: usize = if size < n - at {
                at + size
            } else {
                n
            };
            let chunk: &[usize] = vstd::slice::slice_subrange(order.as_slice(), at, end);
            let count: usize = chunk.len();
            let ghost net = policy@.actor;
            let ghost sum0 = loss_sum;
            let ghost count0 = loss_count;
            grad.zero();
            for k in 0..count
                invariant
                    count == chunk@.len(),
                    forall|k: int| 0 <= k < chunk@.len() ==> (#[trigger] chunk@[k]) < n,
                    policy.wf(),
                    net == policy@.actor,
                    net.input == layout.dim,
                    ws.fits(net),
                    grad.data@.len() == net.p.len(),
                    samples.sized(layout.dim as nat),
                    n == samples.obs@.len(),
                    obs == samples.sights(),
                    acts == samples.acts@,
                    num::repeatable::<S>() ==> (grad.data@, loss_sum, loss_count) == imitated(
                        net,
                        obs,
                        acts,
                        chunk@,
                        sum0,
                        count0,
                        k as nat,
                    ),
            {
                let i: usize = chunk[k];
                assert(obs[i as int] == samples.obs@[i as int]@);
                loss_sum = imitate_item(
                    &policy.actor,
                    &samples.obs[i],
                    samples.acts[i],
                    count,
                    loss_sum,
                    &mut grad,
                    &mut ws,
                );
                loss_count = loss_count.wrapping_add(4);
            }
            policy.actor_optimizer.step(&mut policy.actor, &grad);
            at = end;
        }
    }
    let held: usize = if loss_count == 0 {
        1
    } else {
        loss_count
    };
    proof {
        if num::repeatable::<S>() {
            assert(obs =~= at_places(sights(ts, layout.keys@), kept(ts.len(), max_samples as nat)));
            assert(acts =~= at_places(labels(ts), kept(ts.len(), max_samples as nat)));
        }
    }
    (n, loss_sum.over(S::from_count(held as u64)))
}

} // verus!
