//! What the soft actor-critic's networks learn.
use crate::laws::algebra;
use crate::laws::exact::{self, exact};
use crate::num::{self, Meaning, Scalar};
use crate::rl::neural;
use crate::rl::policy::{self, PolicySample};
use crate::rl::replay::{Ring, Slot};
use crate::rl::rng::Rng;
use crate::rl::sac::{self, Trainer};
use vstd::prelude::*;

verus! {

/// The value that the critics are moved towards for a stored transition that is marked terminated
/// is its reward, whatever the networks say and whatever its truncated mark is.
pub proof fn law_terminated_targets_are_rewards<S: Scalar>(
    t: Trainer<S>,
    slot: Slot<S>,
    alpha: S,
    n: [S; 2],
)
    requires
        slot.terminated,
    ensures
        t.target(slot, alpha, n) == slot.reward,
{
}

/// For every transition that is not marked terminated, also for one marked truncated, the critics
/// are moved towards the reward and the discounted soft value of the next state: what the less
/// hopeful target critic says of the next action, less the temperature times its log-probability.
pub proof fn law_other_targets_bootstrap<S: Scalar>(
    v: spec_fn(S) -> real,
    t: Trainer<S>,
    slot: Slot<S>,
    alpha: S,
    n: [S; 2],
)
    requires
        exact(v),
        !slot.terminated,
    ensures
        ({
            let next = policy::sampled(t.actor.value(slot.next_observation), n);
            let x = slot.next_observation + next.action@;
            let hope = exact::least(v(t.target_q1.value(x)[0]), v(t.target_q2.value(x)[0]));
            v(t.target(slot, alpha, n)) == v(slot.reward) + v(t.config.gamma) * (hope - v(alpha)
                * v(next.log_prob))
        }),
{
}

/// Whether two stored transitions differ in nothing but the truncated mark.
pub open spec fn same_but_truncated<S>(a: Slot<S>, b: Slot<S>) -> bool {
    b == (Slot { truncated: b.truncated, ..a })
}

/// Whether two replay buffers differ in nothing but truncated marks.
pub open spec fn replays_alike<S>(a: Ring<S>, b: Ring<S>) -> bool {
    &&& a.obs_dim == b.obs_dim
    &&& a.len == b.len
    &&& a.cursor == b.cursor
    &&& a.slots.len() == b.slots.len()
    &&& forall|i: int|
        0 <= i < a.slots.len() ==> same_but_truncated(#[trigger] a.slots[i], b.slots[i])
}

/// Whether a replay buffer holds something, and as many slots as a machine word can count.
pub open spec fn holds_something<S>(r: Ring<S>) -> bool {
    0 < r.len <= r.slots.len() <= usize::MAX
}

/// A minibatch consists of occupied slots, and which ones does not depend on what they hold.
pub proof fn law_picks_are_occupied<S: Scalar>(rng: Rng<S>, a: Ring<S>, b: Ring<S>, n: nat)
    requires
        holds_something(a),
        a.len == b.len,
    ensures
        sac::picked(rng, a, n) == sac::picked(rng, b, n),
        sac::picked(rng, a, n).1.len() == n,
        forall|i: int| 0 <= i < n ==> (#[trigger] sac::picked(rng, a, n).1[i]) < a.len,
    decreases n,
{
    if n > 0 {
        law_picks_are_occupied(rng, a, b, (n - 1) as nat);
    }
}

/// The critics' half of an update is the same for replay buffers that differ in truncated marks.
proof fn lemma_critics_ignore_truncation<S: Scalar>(
    t: Trainer<S>,
    u: Trainer<S>,
    picks: Seq<usize>,
    alpha: S,
    rng: Rng<S>,
    n: nat,
)
    requires
        u == (Trainer { replay: u.replay, ..t }),
        replays_alike(t.replay, u.replay),
        n <= picks.len(),
        forall|i: int| 0 <= i < picks.len() ==> #[trigger] picks[i] < t.replay.slots.len(),
    ensures
        u.critic_pass(picks, alpha, rng, n) == t.critic_pass(picks, alpha, rng, n),
    decreases n,
{
    if n > 0 {
        lemma_critics_ignore_truncation(t, u, picks, alpha, rng, (n - 1) as nat);
        let k = picks[n - 1] as int;
        assert(picks[n - 1] < t.replay.slots.len());
        assert(same_but_truncated(t.replay.slots[k], u.replay.slots[k]));
        let c = t.critic_pass(picks, alpha, rng, (n - 1) as nat);
        assert(u.target(u.replay.slots[k], alpha, c.rng.pair()) == t.target(
            t.replay.slots[k],
            alpha,
            c.rng.pair(),
        ));
        assert(u.share() == t.share());
    }
}

/// The actor's half of an update is the same for replay buffers that differ in truncated marks.
proof fn lemma_actors_ignore_truncation<S: Scalar>(
    t: Trainer<S>,
    u: Trainer<S>,
    picks: Seq<usize>,
    alpha: S,
    rng: Rng<S>,
    n: nat,
)
    requires
        u == (Trainer { replay: u.replay, ..t }),
        replays_alike(t.replay, u.replay),
        n <= picks.len(),
        forall|i: int| 0 <= i < picks.len() ==> #[trigger] picks[i] < t.replay.slots.len(),
    ensures
        u.actor_pass(picks, alpha, rng, n) == t.actor_pass(picks, alpha, rng, n),
    decreases n,
{
    if n > 0 {
        lemma_actors_ignore_truncation(t, u, picks, alpha, rng, (n - 1) as nat);
        let k = picks[n - 1] as int;
        assert(picks[n - 1] < t.replay.slots.len());
        assert(same_but_truncated(t.replay.slots[k], u.replay.slots[k]));
        assert(u.share() == t.share());
    }
}

/// The second half of an update is the same for replay buffers that differ in truncated marks.
proof fn lemma_improvement_ignores_truncation<S: Scalar>(
    t: Trainer<S>,
    u: Trainer<S>,
    picks: Seq<usize>,
    alpha: S,
    m: sac::SacMetrics<S>,
)
    requires
        u == (Trainer { replay: u.replay, ..t }),
        replays_alike(t.replay, u.replay),
        forall|i: int| 0 <= i < picks.len() ==> #[trigger] picks[i] < t.replay.slots.len(),
    ensures
        u.improved(picks, alpha, m).1 == t.improved(picks, alpha, m).1,
        u.improved(picks, alpha, m).0 == (Trainer {
            replay: u.replay,
            ..t.improved(picks, alpha, m).0
        }),
{
    lemma_actors_ignore_truncation(t, u, picks, alpha, t.rng, picks.len());
}

/// Truncated marks do not matter to learning: trainers that differ only in the truncated marks of
/// their replay have equal updates.
pub proof fn law_updates_ignore_truncation<S: Scalar>(t: Trainer<S>, u: Trainer<S>)
    requires
        holds_something(t.replay),
        u == (Trainer { replay: u.replay, ..t }),
        replays_alike(t.replay, u.replay),
    ensures
        u.updated().1 == t.updated().1,
        u.updated().0 == (Trainer { replay: u.replay, ..t.updated().0 }),
{
    let alpha = t.alpha();
    let batch = t.config.batch_size as nat;
    law_picks_are_occupied(t.rng, t.replay, u.replay, batch);
    let (r, picks) = sac::picked(t.rng, t.replay, batch);
    assert forall|i: int| 0 <= i < picks.len() implies #[trigger] picks[i]
        < t.replay.slots.len() by {
        assert(sac::picked(t.rng, t.replay, batch).1[i] < t.replay.len);
    }
    lemma_critics_ignore_truncation(t, u, picks, alpha, r, batch);
    let c = t.critic_pass(picks, alpha, r, batch);
    let limit = t.config.max_grad_norm;
    let g1 = policy::clipped(c.g1, limit);
    let g2 = policy::clipped(c.g2, limit);
    let m = sac::SacMetrics {
        alpha,
        samples: t.config.batch_size,
        updates: t.updates,
        q1_loss: c.q1_loss,
        q2_loss: c.q2_loss,
        mean_target: c.mean_target,
        critic_loss: c.q1_loss.sum(c.q2_loss),
        critic_grad_norm: neural::norm_of(c.g1).hypotenuse(neural::norm_of(c.g2)),
        ..sac::blank()
    };
    let s = (Trainer { rng: c.rng, ..t }).with_q1_step(g1).with_q2_step(g2);
    let w = (Trainer { rng: c.rng, ..u }).with_q1_step(g1).with_q2_step(g2);
    lemma_improvement_ignores_truncation(s, w, picks, alpha, m);
}

/// Whether every slot of a replay buffer is marked terminated.
pub open spec fn all_terminated<S>(r: Ring<S>) -> bool {
    forall|i: int| 0 <= i < r.slots.len() ==> (#[trigger] r.slots[i]).terminated
}

/// Where all transitions are terminated, the critics' half of an update ignores the target
/// networks.
proof fn lemma_critics_ignore_targets<S: Scalar>(
    t: Trainer<S>,
    u: Trainer<S>,
    picks: Seq<usize>,
    alpha: S,
    rng: Rng<S>,
    n: nat,
)
    requires
        u == (Trainer { target_q1: u.target_q1, target_q2: u.target_q2, ..t }),
        all_terminated(t.replay),
        n <= picks.len(),
        forall|i: int| 0 <= i < picks.len() ==> #[trigger] picks[i] < t.replay.slots.len(),
    ensures
        u.critic_pass(picks, alpha, rng, n) == t.critic_pass(picks, alpha, rng, n),
    decreases n,
{
    if n > 0 {
        lemma_critics_ignore_targets(t, u, picks, alpha, rng, (n - 1) as nat);
        let k = picks[n - 1] as int;
        assert(picks[n - 1] < t.replay.slots.len());
        let slot = t.replay.slots[k];
        assert(slot.terminated);
        let c = t.critic_pass(picks, alpha, rng, (n - 1) as nat);
        law_terminated_targets_are_rewards(t, slot, alpha, c.rng.pair());
        law_terminated_targets_are_rewards(u, slot, alpha, c.rng.pair());
        assert(u.share() == t.share());
    }
}

/// The actor's half of an update never reads the target networks.
proof fn lemma_actors_ignore_targets<S: Scalar>(
    t: Trainer<S>,
    u: Trainer<S>,
    picks: Seq<usize>,
    alpha: S,
    rng: Rng<S>,
    n: nat,
)
    requires
        u == (Trainer { target_q1: u.target_q1, target_q2: u.target_q2, ..t }),
    ensures
        u.actor_pass(picks, alpha, rng, n) == t.actor_pass(picks, alpha, rng, n),
    decreases n,
{
    if n > 0 {
        lemma_actors_ignore_targets(t, u, picks, alpha, rng, (n - 1) as nat);
        assert(u.share() == t.share());
    }
}

/// Where every stored transition is terminated, an update does not depend on the target networks:
/// trainers that differ only in these have equal metrics, and differ only in these afterwards.
pub proof fn law_terminated_replays_ignore_targets<S: Scalar>(t: Trainer<S>, u: Trainer<S>)
    requires
        holds_something(t.replay),
        all_terminated(t.replay),
        u == (Trainer { target_q1: u.target_q1, target_q2: u.target_q2, ..t }),
    ensures
        u.updated().1 == t.updated().1,
        ({
            let a = t.updated().0;
            let b = u.updated().0;
            b == (Trainer { target_q1: b.target_q1, target_q2: b.target_q2, ..a })
        }),
{
    let alpha = t.alpha();
    let batch = t.config.batch_size as nat;
    law_picks_are_occupied(t.rng, t.replay, u.replay, batch);
    let (r, picks) = sac::picked(t.rng, t.replay, batch);
    assert forall|i: int| 0 <= i < picks.len() implies #[trigger] picks[i]
        < t.replay.slots.len() by {
        assert(sac::picked(t.rng, t.replay, batch).1[i] < t.replay.len);
    }
    lemma_critics_ignore_targets(t, u, picks, alpha, r, batch);
    let c = t.critic_pass(picks, alpha, r, batch);
    let limit = t.config.max_grad_norm;
    let g1 = policy::clipped(c.g1, limit);
    let g2 = policy::clipped(c.g2, limit);
    let s = (Trainer { rng: c.rng, ..t }).with_q1_step(g1).with_q2_step(g2);
    let w = (Trainer { rng: c.rng, ..u }).with_q1_step(g1).with_q2_step(g2);
    lemma_actors_ignore_targets(s, w, picks, alpha, s.rng, picks.len());
}

/// Each critic descends on the squared distance from the target: a transition adds twice its error
/// times its share at the critic's output, and the share of its squared error to the loss.
pub proof fn law_critics_descend_on_errors<S: Scalar>(
    v: spec_fn(S) -> real,
    t: Trainer<S>,
    picks: Seq<usize>,
    alpha: S,
    rng: Rng<S>,
    n: nat,
)
    requires
        exact(v),
        0 < n <= picks.len(),
    ensures
        ({
            let c = t.critic_pass(picks, alpha, rng, (n - 1) as nat);
            let d = t.critic_pass(picks, alpha, rng, n);
            let slot = t.replay.slots[picks[n - 1] as int];
            let x = slot.observation + slot.action@;
            let target = v(t.target(slot, alpha, c.rng.pair()));
            let e1 = v(t.q1.value(x)[0]) - target;
            let e2 = v(t.q2.value(x)[0]) - target;
            let share = v(t.share());
            &&& exists|s: S| #[trigger]
                t.q1.gradient(c.g1, x, seq![s]) == d.g1 && v(s) == 2real * share * e1
            &&& exists|s: S| #[trigger]
                t.q2.gradient(c.g2, x, seq![s]) == d.g2 && v(s) == 2real * share * e2
            &&& v(d.q1_loss) == v(c.q1_loss) + share * e1 * e1
            &&& v(d.q2_loss) == v(c.q2_loss) + share * e2 * e2
            &&& v(d.mean_target) == v(c.mean_target) + share * target
        }),
{
    let c = t.critic_pass(picks, alpha, rng, (n - 1) as nat);
    let d = t.critic_pass(picks, alpha, rng, n);
    let slot = t.replay.slots[picks[n - 1] as int];
    let x = slot.observation + slot.action@;
    let target = t.target(slot, alpha, c.rng.pair());
    let s1 = S::counted(2).product(t.share()).product(t.q1.value(x)[0].difference(target));
    let s2 = S::counted(2).product(t.share()).product(t.q2.value(x)[0].difference(target));
    assert(t.q1.gradient(c.g1, x, seq![s1]) == d.g1);
    assert(t.q2.gradient(c.g2, x, seq![s2]) == d.g2);
}

/// What a transition adds for the actor: its share of the temperature times the log-probability,
/// less the value that the less hopeful critic gives to the action; and the temperature is pulled
/// by how far the log-probability is from the negated target entropy.
pub proof fn law_actors_weigh_entropy_and_value<S: Scalar>(
    v: spec_fn(S) -> real,
    t: Trainer<S>,
    picks: Seq<usize>,
    alpha: S,
    rng: Rng<S>,
    n: nat,
)
    requires
        exact(v),
        0 < n <= picks.len(),
    ensures
        ({
            let a = t.actor_pass(picks, alpha, rng, (n - 1) as nat);
            let b = t.actor_pass(picks, alpha, rng, n);
            let slot = t.replay.slots[picks[n - 1] as int];
            let sample = policy::sampled(t.actor.value(slot.observation), a.rng.pair());
            let x = slot.observation + sample.action@;
            let hope = exact::least(v(t.q1.value(x)[0]), v(t.q2.value(x)[0]));
            let share = v(t.share());
            let logp = v(sample.log_prob);
            let gap = logp + v(t.config.target_entropy);
            &&& v(b.loss) == v(a.loss) + share * (v(alpha) * logp - hope)
            &&& v(b.entropy) == v(a.entropy) - share * logp
            &&& v(b.mean_q) == v(a.mean_q) + share * hope
            &&& v(b.temperature_loss) == v(a.temperature_loss) - share * v(t.log_alpha) * gap
            &&& v(b.temperature_gradient) == v(a.temperature_gradient) - share * gap
        }),
{
}

/// The actor follows the critic that values the action less.
pub proof fn law_actor_follows_the_less_hopeful_critic<S: Scalar>(
    v: spec_fn(S) -> real,
    t: Trainer<S>,
    x: Seq<S>,
)
    requires
        exact(v),
    ensures
        v(t.q1.value(x)[0]) < v(t.q2.value(x)[0]) ==> t.critic_slope(x) == t.q1.input_gradient(
            x,
            seq![num::one::<S>()],
        ),
        v(t.q2.value(x)[0]) < v(t.q1.value(x)[0]) ==> t.critic_slope(x) == t.q2.input_gradient(
            x,
            seq![num::one::<S>()],
        ),
{
}

/// The derivatives of the actor's loss at its outputs. At a mean: more entropy is sought by moving
/// the action towards zero, and more value by moving it along the critic's slope, which tanh flattens
/// by one less the squared component. At a deviation: the same through the noise, less the
/// temperature, and nothing where the deviation is out of its bounds.
pub proof fn law_actor_errors<S: Scalar>(
    v: spec_fn(S) -> real,
    sample: PolicySample<S>,
    q: Seq<S>,
    alpha: S,
    scale: S,
    j: int,
)
    requires
        exact(v),
        0 <= j < 2,
    ensures
        ({
            let g = sample.output_gradient(q, alpha, scale);
            let a = v(sample.action@[j]);
            let d = 2real * v(alpha) * a - v(q[j]) * (1real - a * a);
            &&& v(g[j]) == v(scale) * d
            &&& v(g[j + 2]) == v(scale) * (d * v(sample.std_noise@[j]) - v(alpha)) * v(
                sample.log_std_derivative@[j],
            )
        }),
{
}

/// Without temperature, a small step of a mean against its derivative moves the action along the
/// critic's slope: the derivative's sign is opposite to the slope's.
pub proof fn law_actor_climbs_the_critic<S: Scalar>(
    v: spec_fn(S) -> real,
    output: Seq<S>,
    noise: [S; 2],
    q: Seq<S>,
    alpha: S,
    scale: S,
    j: int,
)
    requires
        exact(v),
        0 <= j < 2,
        v(alpha) == 0real,
        v(scale) > 0real,
    ensures
        ({
            let e = v(policy::sampled(output, noise).output_gradient(q, alpha, scale)[j]);
            &&& v(q[j]) > 0real ==> e < 0real
            &&& v(q[j]) < 0real ==> e > 0real
            &&& v(q[j]) == 0real ==> e == 0real
        }),
{
    let sample = policy::sampled(output, noise);
    law_actor_errors(v, sample, q, alpha, scale, j);
    let a = v(sample.action@[j]);
    let n = if j == 0 {
        output[0].sum(policy::stretched_noise(output[2], noise@[0]))
    } else {
        output[1].sum(policy::stretched_noise(output[3], noise@[1]))
    };
    assert(sample.action@[j] == n.hyperbolic_tangent());
    assert(-1real < a < 1real);
    algebra::lemma_positive(1real - a, 1real + a);
    algebra::lemma_distributes(1real, a, 1real + a);
    algebra::lemma_distributes(1real, a, a);
    algebra::lemma_units(a);
    algebra::lemma_units(1real + a);
    let room = 1real - a * a;
    assert(room > 0real);
    let slope = v(q[j]);
    algebra::lemma_signs(slope, room);
    algebra::lemma_sign_of_factor(room, slope);
    algebra::lemma_units(2real);
    algebra::lemma_units(a);
    let d = 2real * v(alpha) * a - slope * room;
    assert(2real * v(alpha) == 0real);
    assert(d == 0real - slope * room);
    algebra::lemma_sign_of_factor(v(scale), d);
}

/// The action of a sample is tanh of the mean and the noise stretched to the deviation, component by
/// component; without noise it is the preferred action.
pub proof fn law_samples_spread_around_means<S: Scalar>(
    v: spec_fn(S) -> real,
    output: Seq<S>,
    noise: [S; 2],
    j: int,
)
    requires
        exact(v),
        0 <= j < 2,
    ensures
        ({
            let a = v(policy::sampled(output, noise).action@[j]);
            let center = v(output[j].hyperbolic_tangent());
            &&& v(noise@[j]) > 0real ==> a > center
            &&& v(noise@[j]) < 0real ==> a < center
            &&& v(noise@[j]) == 0real ==> a == center
        }),
{
    let s = policy::log_std(output[j + 2]).exponential();
    let n = output[j].sum(policy::stretched_noise(output[j + 2], noise@[j]));
    assert(policy::sampled(output, noise).action@[j] == n.hyperbolic_tangent());
    algebra::lemma_sign_of_factor(v(s), v(noise@[j]));
    assert(v(n) == v(output[j]) + v(s) * v(noise@[j]));
    assert(v(output[j].hyperbolic_tangent()) == v(output[j].hyperbolic_tangent()));
}

/// An update from a positive derivative, taken with fresh moments, lowers the logarithm of the
/// temperature, and one from a negative derivative raises it, within its bounds.
pub proof fn law_temperature_descends<S: Scalar>(
    v: spec_fn(S) -> real,
    moments: policy::TemperatureAdam<S>,
    parameter: S,
    rate: S,
    g: S,
)
    requires
        exact(v),
        v(moments.moment) == 0real,
        v(moments.variance) == 0real,
        v(rate) > 0real,
        -20real < v(parameter) < 5real,
        ({
            let steps = S::counted(moments.stepped(g).step);
            &&& v(S::fraction(9, 10).power(steps)) < 1real
            &&& v(S::fraction(999, 1000).power(steps)) < 1real
        }),
    ensures
        ({
            let p = v(moments.stepped(g).moved(parameter, rate));
            &&& v(g) > 0real ==> p < v(parameter)
            &&& v(g) < 0real ==> p > v(parameter)
            &&& v(g) == 0real ==> p == v(parameter)
            &&& -20real <= p <= 5real
        }),
{
    let t = moments.stepped(g);
    let steps = S::counted(t.step);
    let one = num::one::<S>();
    let tenth = 1real / 10real;
    let thousandth = 1real / 1000real;
    let x = v(g);
    assert(v(S::fraction(1, 10)) == tenth);
    assert(v(S::fraction(1, 1000)) == thousandth);
    algebra::lemma_divided(1real, 10real);
    algebra::lemma_divided(1real, 1000real);
    algebra::lemma_units(v(S::fraction(9, 10)));
    algebra::lemma_units(v(S::fraction(999, 1000)));
    assert(v(t.moment) == tenth * x);
    assert(v(t.variance) == thousandth * x * x);
    let b1 = v(one.difference(S::fraction(9, 10).power(steps)));
    let b2 = v(one.difference(S::fraction(999, 1000).power(steps)));
    assert(b1 > 0real && b2 > 0real);
    let m = t.moment.quotient(one.difference(S::fraction(9, 10).power(steps)));
    let w = t.variance.quotient(one.difference(S::fraction(999, 1000).power(steps)));
    algebra::lemma_divided(v(t.moment), b1);
    algebra::lemma_divided(v(t.variance), b2);
    algebra::lemma_signs(v(m), b1);
    algebra::lemma_signs(v(w), b2);
    algebra::lemma_sign_of_factor(b1, v(m));
    algebra::lemma_sign_of_factor(b2, v(w));
    algebra::lemma_sign_of_factor(tenth, x);
    if x != 0real {
        algebra::lemma_square(x);
    } else {
        algebra::lemma_units(0real);
    }
    algebra::lemma_distributes(thousandth, x, x);
    algebra::lemma_sign_of_factor(thousandth, x * x);
    assert(v(w) >= 0real);
    let tiny = S::fraction(1, 100000000);
    algebra::lemma_divided(1real, 100000000real);
    assert(v(tiny) == 1real / 100000000real);
    let scale = v(w.root().sum(tiny));
    assert(scale > 0real);
    let step = v(rate.product(m).quotient(w.root().sum(tiny)));
    algebra::lemma_divided(v(rate) * v(m), scale);
    algebra::lemma_signs(step, scale);
    algebra::lemma_sign_of_factor(scale, step);
    algebra::lemma_sign_of_factor(v(rate), v(m));
}

/// The temperature is the exponential of its logarithm where it is learned, and the given one where
/// it is not.
pub proof fn law_temperature<S: Scalar>(v: spec_fn(S) -> real, t: Trainer<S>)
    requires
        exact(v),
    ensures
        !t.config.auto_temperature ==> t.alpha() == t.config.alpha,
        t.config.auto_temperature ==> v(t.alpha()) > 0real && v(t.alpha().logarithm()) == v(
            t.log_alpha,
        ),
{
}

/// A preferred action is tanh of the means. While the trainer explores, its other actions do not
/// depend on the networks; afterwards they are samples of the policy.
pub proof fn law_choices<S: Scalar>(t: Trainer<S>, u: Trainer<S>, observation: Seq<S>)
    ensures
        ({
            let out = t.actor.value(observation);
            let preferred = t.chosen(observation, true);
            &&& preferred@[0] == out[0].hyperbolic_tangent()
            &&& preferred@[1] == out[1].hyperbolic_tangent()
            &&& t.after_choice(true) == t
            &&& !t.exploring() ==> t.chosen(observation, false) == policy::sampled(
                out,
                t.rng.pair(),
            ).action
            &&& t.exploring() && u.exploring() && t.rng == u.rng ==> t.chosen(observation, false)
                == u.chosen(observation, false)
        }),
{
}

/// What a transition adds to the actor's gradient: the derivatives of the temperature times the
/// log-probability, less the value, through the action's inputs of the less hopeful critic, which
/// stand behind the observation.
pub proof fn law_actors_learn_through_the_action<S: Scalar>(
    v: spec_fn(S) -> real,
    t: Trainer<S>,
    picks: Seq<usize>,
    alpha: S,
    rng: Rng<S>,
    n: nat,
)
    requires
        exact(v),
        0 < n <= picks.len(),
        ({
            let a = t.actor_pass(picks, alpha, rng, (n - 1) as nat);
            let slot = t.replay.slots[picks[n - 1] as int];
            let sample = policy::sampled(t.actor.value(slot.observation), a.rng.pair());
            t.critic_slope(slot.observation + sample.action@).len() == t.config.obs_dim + 2
        }),
    ensures
        ({
            let a = t.actor_pass(picks, alpha, rng, (n - 1) as nat);
            let b = t.actor_pass(picks, alpha, rng, n);
            let slot = t.replay.slots[picks[n - 1] as int];
            let sample = policy::sampled(t.actor.value(slot.observation), a.rng.pair());
            let slope = t.critic_slope(slot.observation + sample.action@);
            let share = v(t.share());
            exists|e: Seq<S>| #[trigger]
                t.actor.gradient(a.g, slot.observation, e) == b.g && e.len() == 4 && forall|j: int|
                    #![trigger sample.action@[j]]
                    0 <= j < 2 ==> {
                        let c = v(sample.action@[j]);
                        let pull = 2real * v(alpha) * c - v(slope[t.config.obs_dim + j]) * (1real
                            - c * c);
                        &&& v(e[j]) == share * pull
                        &&& v(e[j + 2]) == share * (pull * v(sample.std_noise@[j]) - v(alpha)) * v(
                            sample.log_std_derivative@[j],
                        )
                    }
        }),
{
    let a = t.actor_pass(picks, alpha, rng, (n - 1) as nat);
    let b = t.actor_pass(picks, alpha, rng, n);
    let slot = t.replay.slots[picks[n - 1] as int];
    let sample = policy::sampled(t.actor.value(slot.observation), a.rng.pair());
    let slope = t.critic_slope(slot.observation + sample.action@);
    let q = slope.skip(t.config.obs_dim as int);
    let e = sample.output_gradient(q, alpha, t.share());
    assert(t.actor.gradient(a.g, slot.observation, e) == b.g);
    assert(q[0] == slope[t.config.obs_dim + 0]);
    assert(q[1] == slope[t.config.obs_dim + 1]);
    law_actor_errors(v, sample, q, alpha, t.share(), 0);
    law_actor_errors(v, sample, q, alpha, t.share(), 1);
}

/// In an update that is applied, each critic takes a step along its own gradient, and the actor one
/// along the gradient that the new critics give it; what the update reports are the losses that these
/// gradients belong to.
pub proof fn law_updates_step_each_network<S: Scalar>(v: spec_fn(S) -> real, t: Trainer<S>)
    requires
        exact(v),
        t.updated().1.applied,
        holds_something(t.replay),
    ensures
        ({
            let batch = t.config.batch_size as nat;
            let (r, picks) = sac::picked(t.rng, t.replay, batch);
            let c = t.critic_pass(picks, t.alpha(), r, batch);
            let limit = t.config.max_grad_norm;
            let (u, m) = t.updated();
            let s = Trainer {
                rng: c.rng,
                q1: u.q1,
                q2: u.q2,
                q1_moments: u.q1_moments,
                q2_moments: u.q2_moments,
                ..t
            };
            let a = s.actor_pass(picks, t.alpha(), c.rng, batch);
            let g1 = policy::clipped(c.g1, limit);
            let g2 = policy::clipped(c.g2, limit);
            let g = policy::clipped(a.g, limit);
            &&& u.q1.p == t.q1_moments.applied(t.q1.p, g1)
            &&& u.q1_moments == t.q1_moments.after(t.q1.p, g1)
            &&& u.q2.p == t.q2_moments.applied(t.q2.p, g2)
            &&& u.q2_moments == t.q2_moments.after(t.q2.p, g2)
            &&& u.actor.p == t.actor_moments.applied(t.actor.p, g)
            &&& u.actor_moments == t.actor_moments.after(t.actor.p, g)
            &&& v(m.critic_loss) == v(c.q1_loss) + v(c.q2_loss)
            &&& m.q1_loss == c.q1_loss && m.q2_loss == c.q2_loss
            &&& m.mean_target == c.mean_target
            &&& m.actor_loss == a.loss && m.entropy == a.entropy && m.mean_q == a.mean_q
            &&& u.updates == t.updates.wrapping_add(1)
            &&& u.replay == t.replay
        }),
{
    let batch = t.config.batch_size as nat;
    law_picks_are_occupied(t.rng, t.replay, t.replay, batch);
}

} // verus!
