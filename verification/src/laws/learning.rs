//! What the critic learns, how advantages come about, and how parameters move.
use crate::laws::algebra;
use crate::laws::exact::{self, exact};
use crate::num::{self, Meaning, Scalar};
use crate::rl::adam::{self, Moments};
use crate::rl::environment::Environment;
use crate::rl::neural::{self, Net};
use crate::rl::policy;
use crate::rl::ppo::{self, Learner, Lot};
use crate::rl::rollout;
use vstd::prelude::*;

verus! {

/// The critic is moved towards the return, unless its value has left the old value by more than the
/// clip and is farther from the return than the clipped value: its error is the value less the
/// return, or zero.
pub proof fn law_critics_seek_returns<S: Scalar>(
    v: spec_fn(S) -> real,
    l: Learner<S>,
    lot: Lot<S>,
    i: int,
)
    requires
        exact(v),
    ensures
        ({
            let value = v(l.critic.value(lot.obs[i])[0]);
            let earned = v(lot.ret[i]);
            let past = v(lot.oldv[i]);
            let clip = v(l.config.value_clip);
            let limited = past + exact::between(value - past, 0real - clip, clip);
            let far = exact::most(value - earned, earned - value);
            let near = exact::most(limited - earned, earned - limited);
            let e = v(l.critic_error(lot, i));
            &&& far <= near ==> e == value - earned
            &&& far > near ==> e == 0real
            &&& e > 0real ==> value > earned
            &&& e < 0real ==> value < earned
            &&& 0real - clip <= value - past <= clip ==> e == value - earned
        }),
{
    let value = l.critic.value(lot.obs[i])[0];
    let clip = l.config.value_clip;
    exact::lemma_clamped_reads(v, value.difference(lot.oldv[i]), clip.negated(), clip);
}

/// What the last of some decisions adds: the derivatives at the actor's outputs, the critic's error
/// times its weight and share at the critic's output, the policy's loss and half the squared error.
pub proof fn law_decisions_add_up<S: Scalar>(
    v: spec_fn(S) -> real,
    l: Learner<S>,
    lot: Lot<S>,
    chunk: Seq<usize>,
    scale: S,
    n: nat,
)
    requires
        exact(v),
        0 < n <= chunk.len(),
    ensures
        ({
            let s = l.summed(lot, chunk, scale, (n - 1) as nat);
            let t = l.summed(lot, chunk, scale, n);
            let i = chunk[n - 1] as int;
            let e = v(l.critic_error(lot, i));
            &&& t.pg == l.actor.gradient(s.pg, lot.obs[i], l.actor_errors(lot, scale, i))
            &&& exists|d: S| #[trigger]
                l.critic.gradient(s.vg, lot.obs[i], seq![d]) == t.vg && v(d) == v(
                    l.config.value_coef,
                ) * e * v(scale)
            &&& v(t.pl) == v(s.pl) + v(l.policy_loss(lot, i))
            &&& 2real * (v(t.vl) - v(s.vl)) == e * e
        }),
{
    let s = l.summed(lot, chunk, scale, (n - 1) as nat);
    let t = l.summed(lot, chunk, scale, n);
    let i = chunk[n - 1] as int;
    let e = l.critic_error(lot, i);
    let d = l.config.value_coef.product(e).product(scale);
    assert(l.critic.gradient(s.vg, lot.obs[i], seq![d]) == t.vg);
    let half = 1real / 2real;
    assert(v(S::fraction(1, 2)) == half);
    algebra::lemma_halves(v(e) * v(e));
    algebra::lemma_distributes(half, v(e), v(e));
    assert(v(t.vl) == v(s.vl) + half * v(e) * v(e));
}

/// Each decision of a minibatch has the same share in it, and the shares make up one.
pub proof fn law_minibatches_share_equally<S: Scalar>(
    v: spec_fn(S) -> real,
    l: Learner<S>,
    lot: Lot<S>,
    chunk: Seq<usize>,
    stats: ppo::TrainStats<S>,
)
    requires
        exact(v),
        0 < chunk.len() <= u64::MAX,
    ensures
        exists|scale: S|
            {
                let n = chunk.len() as real;
                let s = #[trigger] l.summed(lot, chunk, scale, chunk.len());
                let (next, told) = l.after_chunk(lot, chunk, stats);
                let pg = ppo::shortened(s.pg, l.config.max_grad_norm);
                let vg = ppo::shortened(s.vg, l.config.max_grad_norm);
                &&& v(scale) * n == 1real
                &&& next.actor.p == l.actor_moments.applied(l.actor.p, pg)
                &&& next.critic.p == l.critic_moments.applied(l.critic.p, vg)
                &&& next.actor_moments == l.actor_moments.after(l.actor.p, pg)
                &&& next.critic_moments == l.critic_moments.after(l.critic.p, vg)
                &&& (v(told.policy_loss) - v(stats.policy_loss)) * n == v(s.pl)
                &&& (v(told.value_loss) - v(stats.value_loss)) * n == v(s.vl)
                &&& told.updates == stats.updates.wrapping_add(1)
            },
{
    let count = S::counted(chunk.len() as u64);
    let scale = num::one::<S>().quotient(count);
    let n = chunk.len() as real;
    assert(v(count) == n);
    algebra::lemma_divided(1real, n);
    let s = l.summed(lot, chunk, scale, chunk.len());
    algebra::lemma_divided(v(s.pl), n);
    algebra::lemma_divided(v(s.vl), n);
}

/// The loss that is reported for a decision that is not clipped is minus the advantage times the gain
/// of its log-probability.
pub proof fn law_losses_weigh_advantages<S: Scalar>(
    v: spec_fn(S) -> real,
    l: Learner<S>,
    lot: Lot<S>,
    i: int,
)
    requires
        exact(v),
        l.free(lot, i),
    ensures
        ({
            let out = l.actor.value(lot.obs[i]);
            let gain = v(rollout::logp(rollout::means(out), rollout::log_stds(out), lot.acts[i]))
                - v(lot.oldlp[i]);
            v(l.policy_loss(lot, i)) == 0real - v(lot.adv[i]) * gain
        }),
{
    let out = l.actor.value(lot.obs[i]);
    let gain = rollout::logp(
        rollout::means(out),
        rollout::log_stds(out),
        lot.acts[i],
    ).difference(lot.oldlp[i]);
    assert(l.ratio(lot, i) == gain.exponential());
    assert(v(gain.exponential().logarithm()) == v(gain));
    algebra::lemma_signs(v(lot.adv[i]), v(gain));
}

/// An advantage is what a decision earned and led to beyond what was expected, and a share of the
/// advantage that follows, unless the episode ended.
pub proof fn law_advantages_accumulate<S: Scalar>(
    v: spec_fn(S) -> real,
    rewards: Seq<S>,
    next_values: Seq<S>,
    values: Seq<S>,
    dones: Seq<bool>,
    gamma: S,
    lambda: S,
    i: int,
)
    requires
        exact(v),
        0 <= i < rewards.len(),
        next_values[i].finite(),
    ensures
        ({
            let a = v(rollout::advantage(rewards, next_values, values, dones, gamma, lambda, i));
            let b = v(
                rollout::advantage(rewards, next_values, values, dones, gamma, lambda, i + 1),
            );
            let surprise = v(rewards[i]) + v(gamma) * v(next_values[i]) - v(values[i]);
            &&& dones[i] ==> a == surprise
            &&& !dones[i] ==> a == surprise + v(gamma) * v(lambda) * b
            &&& i + 1 == rewards.len() ==> b == 0real
        }),
{
}

/// With the share one, value and advantage make up the discounted return: within an episode they are
/// the reward and the discounted value and advantage of the next decision.
pub proof fn law_full_shares_give_returns<S: Scalar>(
    v: spec_fn(S) -> real,
    rewards: Seq<S>,
    next_values: Seq<S>,
    values: Seq<S>,
    dones: Seq<bool>,
    gamma: S,
    lambda: S,
    i: int,
)
    requires
        exact(v),
        0 <= i < rewards.len(),
        next_values[i].finite(),
        v(lambda) == 1real,
        !dones[i],
        v(next_values[i]) == v(values[i + 1]),
    ensures
        ({
            let a = v(rollout::advantage(rewards, next_values, values, dones, gamma, lambda, i));
            let b = v(
                rollout::advantage(rewards, next_values, values, dones, gamma, lambda, i + 1),
            );
            v(values[i]) + a == v(rewards[i]) + v(gamma) * (v(values[i + 1]) + b)
        }),
{
    law_advantages_accumulate(v, rewards, next_values, values, dones, gamma, lambda, i);
    let b = v(rollout::advantage(rewards, next_values, values, dones, gamma, lambda, i + 1));
    algebra::lemma_units(v(gamma));
    algebra::lemma_distributes(v(values[i + 1]), b, v(gamma));
}

/// The deviation that advantages are divided by is positive.
proof fn lemma_deviation_positive<S: Scalar>(v: spec_fn(S) -> real, values: Seq<S>)
    requires
        exact(v),
    ensures
        v(ppo::deviation_of(values)) > 0real,
{
    algebra::lemma_divided(1real, 1000000real);
    assert(v(S::fraction(1, 1000000)) == 1real / 1000000real);
}

/// Standardized advantages keep their order, and a mean advantage becomes zero.
pub proof fn law_standardizing_keeps_order<S: Scalar>(
    v: spec_fn(S) -> real,
    values: Seq<S>,
    i: int,
    j: int,
)
    requires
        exact(v),
        0 <= i < values.len(),
        0 <= j < values.len(),
    ensures
        v(values[i]) < v(values[j]) ==> v(ppo::standardized(values)[i]) < v(
            ppo::standardized(values)[j],
        ),
        v(values[i]) > v(ppo::mean_of(values)) ==> v(ppo::standardized(values)[i]) > 0real,
        v(values[i]) < v(ppo::mean_of(values)) ==> v(ppo::standardized(values)[i]) < 0real,
        v(values[i]) == v(ppo::mean_of(values)) ==> v(ppo::standardized(values)[i]) == 0real,
        v(ppo::standardized(values)[i]) * v(ppo::deviation_of(values)) == v(values[i]) - v(
            ppo::mean_of(values),
        ),
{
    lemma_deviation_positive(v, values);
    let d = v(ppo::deviation_of(values));
    let m = v(ppo::mean_of(values));
    let x = v(ppo::standardized(values)[i]);
    let y = v(ppo::standardized(values)[j]);
    algebra::lemma_divided(v(values[i]) - m, d);
    algebra::lemma_divided(v(values[j]) - m, d);
    assert(x * d == v(values[i]) - m);
    assert(y * d == v(values[j]) - m);
    algebra::lemma_scaled_order(y, x, d);
    algebra::lemma_signs(x, d);
    algebra::lemma_sign_of_factor(d, x);
}

/// Standardized advantages add up to zero.
pub proof fn law_standardizing_centers<S: Scalar>(v: spec_fn(S) -> real, values: Seq<S>)
    requires
        exact(v),
        0 < values.len() <= u64::MAX,
    ensures
        exact::added(v, ppo::standardized(values), values.len()) == 0real,
        v(ppo::mean_of(values)) * (values.len() as real) == exact::added(v, values, values.len()),
{
    let n = values.len();
    let k = n as real;
    lemma_deviation_positive(v, values);
    let d = v(ppo::deviation_of(values));
    let m = v(ppo::mean_of(values));
    exact::lemma_total_reads(v, values, n);
    assert(v(S::counted(n as u64)) == k);
    algebra::lemma_divided(v(num::total(values, n)), k);
    assert(m * k == exact::added(v, values, n));
    lemma_shifted_sum(v, values, n);
    let s = exact::added(v, ppo::standardized(values), n);
    algebra::lemma_signs(m, k);
    assert(s * d == 0real);
    algebra::lemma_signs(s, d);
    algebra::lemma_sign_of_factor(d, s);
}

/// The sum of standardized numbers, times the deviation.
proof fn lemma_shifted_sum<S: Scalar>(v: spec_fn(S) -> real, values: Seq<S>, n: nat)
    requires
        exact(v),
        n <= values.len(),
    ensures
        exact::added(v, ppo::standardized(values), n) * v(ppo::deviation_of(values))
            == exact::added(v, values, n) - (n as real) * v(ppo::mean_of(values)),
    decreases n,
{
    let d = v(ppo::deviation_of(values));
    let m = v(ppo::mean_of(values));
    if n == 0 {
        algebra::lemma_units(d);
        algebra::lemma_units(m);
    } else {
        let k = (n - 1) as nat;
        lemma_shifted_sum(v, values, k);
        law_standardizing_keeps_order(v, values, n - 1, n - 1);
        let x = v(ppo::standardized(values)[n - 1]);
        let s = exact::added(v, ppo::standardized(values), k);
        algebra::lemma_distributes(s, x, d);
        algebra::lemma_distributes(k as real, 1real, m);
        algebra::lemma_units(m);
        assert(n as real == (k as real) + 1real);
    }
}

/// A gradient that is too long keeps its direction: each derivative is multiplied by the limit over
/// the length. One that is not too long stays as it is.
pub proof fn law_shortening_keeps_the_direction<S: Scalar>(
    v: spec_fn(S) -> real,
    g: Seq<S>,
    limit: S,
    i: int,
)
    requires
        exact(v),
        0 <= i < g.len(),
        v(limit) > 0real,
        neural::norm_of(g).finite(),
    ensures
        ({
            let norm = v(neural::norm_of(g));
            let a = v(ppo::shortened(g, limit)[i]);
            let b = v(policy::clipped(g, limit)[i]);
            &&& norm > v(limit) ==> a * norm == v(g[i]) * v(limit) && b == a
            &&& norm <= v(limit) ==> a == v(g[i]) && b == a
        }),
{
    let norm = v(neural::norm_of(g));
    if norm > v(limit) {
        algebra::lemma_divided(v(limit), norm);
        algebra::lemma_distributes(v(g[i]), v(limit) / norm, norm);
    }
}

/// The first moment is nine tenths of what it was and a tenth of the derivative; the second one is
/// 0.999 of what it was and 0.001 of the squared derivative.
pub proof fn law_moments_average<S: Scalar>(
    v: spec_fn(S) -> real,
    o: Moments<S>,
    g: Seq<S>,
    i: int,
)
    requires
        exact(v),
        0 <= i < g.len(),
    ensures
        v(o.stepped(g).m[i]) == exact::part(9, 10) * v(o.m[i]) + exact::part(1, 10) * v(g[i]),
        v(o.stepped(g).v[i]) == exact::part(999, 1000) * v(o.v[i]) + exact::part(1, 1000) * v(g[i])
            * v(g[i]),
        v(o.stepped(g).beta1_power) == v(o.beta1_power) * exact::part(9, 10),
        v(o.stepped(g).beta2_power) == v(o.beta2_power) * exact::part(999, 1000),
        o.stepped(g).step == o.step.wrapping_add(1),
        o.stepped(g).learning_rate == o.learning_rate,
{
}

/// Whether `r` is the root of `w / (1 - b)`.
pub open spec fn roots(r: real, w: real, b: real) -> bool {
    r >= 0real && (r * r) * (1real - b) == w
}

/// A step moves each parameter against its first moment: down where that is positive, and up where it
/// is negative. Times the root of the corrected second moment and a hundred-millionth, the step is the
/// learning rate times the corrected first moment.
pub proof fn law_steps_descend<S: Scalar>(
    v: spec_fn(S) -> real,
    o: Moments<S>,
    p: Seq<S>,
    g: Seq<S>,
    i: int,
)
    requires
        exact(v),
        o.admits(p, g),
        0 <= i < g.len(),
        v(o.learning_rate) > 0real,
        v(o.v[i]) >= 0real,
        v(o.stepped(g).beta1_power) < 1real,
        v(o.stepped(g).beta2_power) < 1real,
    ensures
        ({
            let x = v(p[i]);
            let y = v(o.applied(p, g)[i]);
            let m = v(o.stepped(g).m[i]);
            &&& m > 0real ==> y < x
            &&& m < 0real ==> y > x
            &&& m == 0real ==> y == x
            &&& exists|r: real| #[trigger]
                roots(r, v(o.stepped(g).v[i]), v(o.stepped(g).beta2_power)) && ((x - y) * (r
                    + exact::part(1, 100000000))) * (1real - v(o.stepped(g).beta1_power)) == v(
                    o.learning_rate,
                ) * m
        }),
{
    law_moments_average(v, o, g, i);
    let one = num::one::<S>();
    let m = adam::next_m(o.m[i], g[i]);
    let w = adam::next_v(o.v[i], g[i]);
    let p1 = o.beta1_power.product(adam::beta1());
    let p2 = o.beta2_power.product(adam::beta2());
    let q = v(one.difference(p1));
    let k = v(one.difference(p2));
    assert(q == 1real - v(o.stepped(g).beta1_power));
    assert(k == 1real - v(o.stepped(g).beta2_power));
    let d = v(g[i]);
    algebra::lemma_not_negative(d);
    algebra::lemma_divided(999real, 1000real);
    algebra::lemma_divided(1real, 1000real);
    algebra::lemma_divided(1real, 100000000real);
    algebra::lemma_sign_of_factor(exact::part(999, 1000), v(o.v[i]));
    algebra::lemma_sign_of_factor(exact::part(1, 1000), d * d);
    algebra::lemma_distributes(exact::part(1, 1000), d, d);
    assert(v(w) >= 0real);
    let mm = m.quotient(one.difference(p1));
    let ww = w.quotient(one.difference(p2));
    algebra::lemma_divided(v(m), q);
    algebra::lemma_divided(v(w), k);
    algebra::lemma_signs(v(mm), q);
    algebra::lemma_signs(v(ww), k);
    algebra::lemma_sign_of_factor(q, v(mm));
    algebra::lemma_sign_of_factor(k, v(ww));
    assert(v(ww) >= 0real);
    let r = v(ww.root());
    let tiny = exact::part(1, 100000000);
    let bottom = ww.root().sum(S::fraction(1, 100000000));
    assert(v(bottom) == r + tiny);
    assert(v(bottom) > 0real);
    let top = o.learning_rate.product(mm);
    let step = v(top.quotient(bottom));
    algebra::lemma_divided(v(top), v(bottom));
    algebra::lemma_signs(step, v(bottom));
    algebra::lemma_sign_of_factor(v(bottom), step);
    algebra::lemma_sign_of_factor(v(o.learning_rate), v(mm));
    assert(v(o.applied(p, g)[i]) == v(p[i]) - step);
    algebra::lemma_distributes(v(o.learning_rate), v(mm), q);
    assert(roots(r, v(o.stepped(g).v[i]), v(o.stepped(g).beta2_power)));
}

/// A step that is not admitted, because a number that comes of it is not finite, changes nothing.
pub proof fn law_unsound_steps_change_nothing<S: Scalar>(o: Moments<S>, p: Seq<S>, g: Seq<S>)
    requires
        !o.admits(p, g),
    ensures
        o.applied(p, g) == p,
        o.after(p, g) == o,
{
}

/// A network that follows another one by the share `tau` lies between what it was and the other one:
/// at the share zero it stays, and at the share one it becomes the other.
pub proof fn law_blending_interpolates<S: Scalar>(
    v: spec_fn(S) -> real,
    a: Net<S>,
    b: Net<S>,
    tau: S,
    i: int,
)
    requires
        exact(v),
        0 <= i < a.p.len(),
        0real <= v(tau) <= 1real,
    ensures
        ({
            let x = v(a.p[i]);
            let y = v(b.p[i]);
            let z = v(a.blended(b, tau).p[i]);
            &&& z - x == v(tau) * (y - x)
            &&& v(tau) == 0real ==> z == x
            &&& v(tau) == 1real ==> z == y
            &&& exact::least(x, y) <= z <= exact::most(x, y)
        }),
{
    let x = v(a.p[i]);
    let y = v(b.p[i]);
    let t = v(tau);
    algebra::lemma_distributes(1real, t, x);
    algebra::lemma_distributes(y, x, t);
    algebra::lemma_units(x);
    algebra::lemma_units(y);
    algebra::lemma_units(y - x);
    let z = v(a.blended(b, tau).p[i]);
    assert(z == (1real - t) * x + t * y);
    algebra::lemma_scaled_order(t, 1real, y - x);
    algebra::lemma_scaled_order(0real, t, y - x);
}

/// A drawn action is tanh of the mean and the noise stretched to the deviation, component by
/// component; without noise it is the preferred one.
pub proof fn law_draws_spread_around_means<S: Scalar>(
    v: spec_fn(S) -> real,
    output: Seq<S>,
    noise: [S; 2],
    j: int,
)
    requires
        exact(v),
        0 <= j < 2,
    ensures
        ({
            let a = v(rollout::acted(output, noise)@[j]);
            let center = v(output[j].hyperbolic_tangent());
            &&& v(noise@[j]) > 0real ==> a > center
            &&& v(noise@[j]) < 0real ==> a < center
            &&& v(noise@[j]) == 0real ==> a == center
        }),
{
    let s = rollout::log_std(output[j + 2]).exponential();
    let n = output[j].sum(s.product(noise@[j]));
    assert(rollout::acted(output, noise)@[j] == n.hyperbolic_tangent());
    algebra::lemma_sign_of_factor(v(s), v(noise@[j]));
    assert(v(output[j].hyperbolic_tangent()) == v(output[j].hyperbolic_tangent()));
}

/// The decisions of a track are appended to those that are there: with the returns, which are the old
/// values and the advantages, and with the advantages standardized among those of the track.
pub proof fn law_tracks_are_appended<S: Scalar>(
    v: spec_fn(S) -> real,
    lot: Lot<S>,
    t: rollout::Track<S>,
    i: int,
)
    requires
        exact(v),
        lot.adv.len() == lot.obs.len(),
        lot.ret.len() == lot.obs.len(),
        lot.oldlp.len() == lot.obs.len(),
        lot.oldv.len() == lot.obs.len(),
        lot.acts.len() == lot.obs.len(),
        t.obs.len() == t.advantages.len(),
        t.actions.len() == t.advantages.len(),
        t.old_logp.len() == t.advantages.len(),
        t.old_values.len() == t.advantages.len(),
        0 <= i < t.advantages.len(),
    ensures
        ({
            let all = lot.with(t);
            let k = lot.obs.len() + i;
            &&& all.obs[k] == t.obs[i]
            &&& all.acts[k] == t.actions[i]
            &&& all.oldlp[k] == t.old_logp[i]
            &&& all.oldv[k] == t.old_values[i]
            &&& v(all.ret[k]) == v(t.old_values[i]) + v(t.advantages[i])
            &&& all.adv[k] == ppo::standardized(t.advantages)[i]
        }),
{
}

/// The places of the first `n` decisions that ended an episode.
pub open spec fn endings<S: Scalar, E: Environment<S>>(log: rollout::Log<S, E>, n: nat) -> Set<int> {
    Set::new(|i: int| 0 <= i < n && (log.results[i].terminated || log.results[i].truncated))
}

/// The places of the first `n` decisions that ended an episode in success.
pub open spec fn triumphs<S: Scalar, E: Environment<S>>(log: rollout::Log<S, E>, n: nat) -> Set<int> {
    Set::new(
        |i: int|
            0 <= i < n && (log.results[i].terminated || log.results[i].truncated)
                && log.results[i].success,
    )
}

/// Episodes and successes are counted one by one.
pub proof fn law_endings_are_counted<S: Scalar, E: Environment<S>>(log: rollout::Log<S, E>, n: nat)
    ensures
        endings(log, n).finite(),
        triumphs(log, n).finite(),
        log.ended(n) == endings(log, n).len(),
        log.succeeded(n) == triumphs(log, n).len(),
    decreases n,
{
    if n == 0 {
        assert(endings(log, 0) =~= Set::empty());
        assert(triumphs(log, 0) =~= Set::empty());
    } else {
        law_endings_are_counted(log, (n - 1) as nat);
        let ended = endings(log, (n - 1) as nat);
        let won = triumphs(log, (n - 1) as nat);
        if log.results[n - 1].done() {
            assert(endings(log, n) =~= ended.insert(n - 1));
        } else {
            assert(endings(log, n) =~= ended);
        }
        if log.results[n - 1].done() && log.results[n - 1].success {
            assert(triumphs(log, n) =~= won.insert(n - 1));
        } else {
            assert(triumphs(log, n) =~= won);
        }
    }
}

/// What was earned is what the finite rewards add up to.
pub proof fn law_earnings_add_up<S: Scalar, E: Environment<S>>(
    v: spec_fn(S) -> real,
    log: rollout::Log<S, E>,
    n: nat,
)
    requires
        exact(v),
        n > 0,
    ensures
        ({
            let r = log.results[n - 1].reward;
            &&& r.finite() ==> v(log.earned(n)) == v(log.earned((n - 1) as nat)) + v(r)
            &&& !r.finite() ==> v(log.earned(n)) == v(log.earned((n - 1) as nat))
        }),
{
}

/// What a decision was expected to lead to is nothing where it terminated the episode, and what the
/// critic says of what followed where it did not, also where it was truncated.
pub proof fn law_only_termination_ends_expectations<S: Scalar, E: Environment<S>>(
    v: spec_fn(S) -> real,
    log: rollout::Log<S, E>,
    critic: Net<S>,
    i: int,
)
    requires
        exact(v),
    ensures
        log.results[i].terminated ==> v(log.next_value(critic, i)) == 0real,
        !log.results[i].terminated ==> log.next_value(critic, i) == critic.value(log.after[i])[0],
{
}

/// One more track adds its decisions, episodes, successes and rewards to the stats.
pub proof fn law_tracks_are_tallied<S: Scalar>(
    v: spec_fn(S) -> real,
    tracks: Seq<rollout::Track<S>>,
    n: nat,
)
    requires
        exact(v),
        0 < n <= tracks.len(),
        ({
            let s = ppo::tallied(tracks, (n - 1) as nat);
            let t = tracks[n - 1];
            &&& s.steps + t.rewards.len() <= usize::MAX
            &&& s.episodes + t.episodes <= usize::MAX
            &&& s.successes + t.successes <= usize::MAX
        }),
    ensures
        ({
            let before = ppo::tallied(tracks, (n - 1) as nat);
            let after = ppo::tallied(tracks, n);
            let t = tracks[n - 1];
            &&& after.steps == before.steps + t.rewards.len()
            &&& after.episodes == before.episodes + t.episodes
            &&& after.successes == before.successes + t.successes
            &&& v(after.reward_sum) == v(before.reward_sum) + v(t.reward_sum)
        }),
{
}

} // verus!
