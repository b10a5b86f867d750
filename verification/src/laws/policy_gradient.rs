//! The derivatives that proximal policy optimization follows are those of the clipped surrogate
//! loss, and steps against them make actions with a positive advantage likelier.
use crate::laws::algebra;
use crate::laws::exact::{self, exact};
use crate::num::{self, Meaning, Scalar};
use crate::rl::ppo::{Learner, Lot};
use crate::rl::rollout;
use vstd::prelude::*;

verus! {

/// The reading of the standard deviation that a network's output stands for.
pub open spec fn deviation<S: Scalar>(v: spec_fn(S) -> real, raw: S) -> real {
    v(rollout::log_std(raw).exponential())
}

/// The reading of the ratio between a decision's probabilities, brought within one plus and minus
/// the clip.
pub open spec fn clipped<S: Scalar>(v: spec_fn(S) -> real, l: Learner<S>, r: real) -> real {
    let clip = v(l.config.clip_ratio);
    exact::between(r, 1real - clip, 1real + clip)
}

/// The derivative of the clipped surrogate loss `-min(ratio advantage, clip(ratio) advantage)`
/// along the logarithm of the ratio, times the decision's share: `-advantage ratio share` where the
/// first term is the smaller one, and zero where the loss is constant.
pub open spec fn surrogate_slope(adv: real, r: real, clipped: real, share: real) -> real {
    if r * adv <= clipped * adv {
        0real - adv * r * share
    } else {
        0real
    }
}

/// The weight of a decision is the derivative of the clipped surrogate loss along the
/// log-probability of its action.
pub proof fn law_weight_is_surrogate_slope<S: Scalar>(
    v: spec_fn(S) -> real,
    l: Learner<S>,
    lot: Lot<S>,
    scale: S,
    i: int,
)
    requires
        exact(v),
    ensures
        v(l.ratio(lot, i)) > 0real,
        v(l.coefficient(lot, scale, i)) == surrogate_slope(
            v(lot.adv[i]),
            v(l.ratio(lot, i)),
            clipped(v, l, v(l.ratio(lot, i))),
            v(scale),
        ),
{
    let adv = v(lot.adv[i]);
    let r = v(l.ratio(lot, i));
    let c = clipped(v, l, r);
    let s = v(scale);
    assert(v(l.config.clipped_ratio(l.ratio(lot, i))) == c);
    algebra::lemma_scaled_order(r, c, adv);
    algebra::lemma_signs(adv, r);
    algebra::lemma_signs(adv * r, s);
    algebra::lemma_units(r);
    algebra::lemma_units(s);
}

/// The ratio is one where the policy that acted is the one that learns: where it gives the action
/// the recorded log-probability. It is above one exactly where the action has become likelier.
pub proof fn law_ratio_compares_probabilities<S: Scalar>(
    v: spec_fn(S) -> real,
    l: Learner<S>,
    lot: Lot<S>,
    i: int,
)
    requires
        exact(v),
    ensures
        ({
            let out = l.actor.value(lot.obs[i]);
            let now = v(rollout::logp(rollout::means(out), rollout::log_stds(out), lot.acts[i]));
            let then = v(lot.oldlp[i]);
            &&& now == then ==> v(l.ratio(lot, i)) == 1real
            &&& now > then ==> v(l.ratio(lot, i)) > 1real
            &&& now < then ==> v(l.ratio(lot, i)) < 1real
        }),
{
    let z = num::zero::<S>();
    assert(v(z) == 0real);
    assert(v(z.exponential()) == 1real);
}

/// The log-probability of an action is a parabola in the mean, and its derivative is the mean's
/// slope: another mean changes the log-probability by the slope times the change, less half the
/// squared change in units of the deviation.
pub proof fn law_mean_slope_is_derivative<S: Scalar>(
    v: spec_fn(S) -> real,
    mean: S,
    other: S,
    logstd: S,
    action: S,
)
    requires
        exact(v),
    ensures
        ({
            let s = deviation(v, logstd);
            let change = v(other) - v(mean);
            &&& s > 0real
            &&& 2real * s * s * (v(rollout::component_logp(other, logstd, action)) - v(
                rollout::component_logp(mean, logstd, action),
            )) == 2real * s * s * change * v(rollout::mean_slope(mean, logstd, action)) - change
                * change
        }),
{
    let s = deviation(v, logstd);
    let z = v(rollout::standing(mean, logstd, action));
    let y = v(rollout::standing(other, logstd, action));
    let one = num::one::<S>();
    let a = num::clamped(
        action,
        rollout::action_bound::<S>().negated(),
        rollout::action_bound(),
    );
    let u = S::fraction(1, 2).product(one.sum(a).quotient(one.difference(a)).logarithm());
    assert(s > 0real);
    algebra::lemma_divided(v(u) - v(mean), s);
    algebra::lemma_divided(v(u) - v(other), s);
    algebra::lemma_divided(z, s);
    let slope = v(rollout::mean_slope(mean, logstd, action));
    let half = 1real / 2real;
    assert(v(S::fraction(1, 2)) == half);
    let gain = v(rollout::component_logp(other, logstd, action)) - v(
        rollout::component_logp(mean, logstd, action),
    );
    assert(gain == (0real - half) * y * y - (0real - half) * z * z);
    algebra::lemma_signs(half, y);
    algebra::lemma_signs(half * y, y);
    algebra::lemma_distributes(half, y, y);
    algebra::lemma_signs(half, z);
    algebra::lemma_signs(half * z, z);
    algebra::lemma_distributes(half, z, z);
    algebra::lemma_halves(y * y);
    algebra::lemma_halves(z * z);
    algebra::lemma_parabola(v(u), v(mean), v(other), s, z, y, slope, gain);
}

/// The derivative along the logarithm of the deviation: the squared distance of the action from the
/// mean in units of the deviation, less one.
pub proof fn law_std_slope_is_derivative<S: Scalar>(
    v: spec_fn(S) -> real,
    mean: S,
    logstd: S,
    action: S,
)
    requires
        exact(v),
    ensures
        ({
            let s = deviation(v, logstd);
            let slope = v(rollout::mean_slope(mean, logstd, action));
            v(rollout::std_slope(mean, logstd, action)) == (slope * s) * (slope * s) - 1real
        }),
{
    let s = deviation(v, logstd);
    let z = v(rollout::standing(mean, logstd, action));
    let slope = v(rollout::mean_slope(mean, logstd, action));
    algebra::lemma_divided(z, s);
}

/// The derivatives that a decision adds at the actor's outputs are the gradient of the clipped
/// surrogate loss: at each mean the loss's derivative along the log-probability times the slope of
/// the log-probability, and at each deviation the same, and what the entropy bonus adds, which does
/// not depend on the advantage.
pub proof fn law_errors_are_surrogate_gradient<S: Scalar>(
    v: spec_fn(S) -> real,
    l: Learner<S>,
    lot: Lot<S>,
    scale: S,
    i: int,
    j: int,
)
    requires
        exact(v),
        0 <= j < 2,
    ensures
        ({
            let out = l.actor.value(lot.obs[i]);
            let r = v(l.ratio(lot, i));
            let c = surrogate_slope(v(lot.adv[i]), r, clipped(v, l, r), v(scale));
            let e = l.actor_errors(lot, scale, i);
            let a = lot.acts[i]@[j];
            let d = a.inverse_tanh().difference(out[j]);
            &&& v(e[j]) == c * v(rollout::mean_slope(out[j], out[j + 2], a))
            &&& v(e[j + 2]) == c * v(rollout::std_slope(out[j], out[j + 2], a)) - v(
                l.config.entropy_coef,
            ) * (1real - 2real * (v(d.hyperbolic_tangent()) * v(d)))
        }),
{
    law_weight_is_surrogate_slope(v, l, lot, scale, i);
    let out = l.actor.value(lot.obs[i]);
    let a = lot.acts[i]@[j];
    let d = a.inverse_tanh().difference(out[j]);
    let k = v(l.config.entropy_coef);
    let b = 1real - 2real * (v(d.hyperbolic_tangent()) * v(d));
    assert(v(l.entropy_slope(a, out[j])) == (0real - k) * b);
    algebra::lemma_signs(k, b);
}

/// A small step of a mean against its derivative raises the log-probability of an action with a
/// positive advantage and lowers that of one with a negative advantage, as long as the decision is
/// not clipped and the mean is not yet the action's: a step is small if, in units of the deviation,
/// it does not reach twice as far as the action.
pub proof fn law_steps_follow_advantages<S: Scalar>(
    v: spec_fn(S) -> real,
    l: Learner<S>,
    lot: Lot<S>,
    scale: S,
    i: int,
    j: int,
    rate: real,
    moved: S,
)
    requires
        exact(v),
        0 <= j < 2,
        v(scale) > 0real,
        rate > 0real,
        ({
            let out = l.actor.value(lot.obs[i]);
            let r = v(l.ratio(lot, i));
            let s = deviation(v, out[j + 2]);
            let adv = v(lot.adv[i]);
            &&& r * adv <= clipped(v, l, r) * adv
            &&& adv > 0real ==> rate * (adv * r * v(scale)) < 2real * (s * s)
            &&& v(rollout::mean_slope(out[j], out[j + 2], lot.acts[i]@[j])) != 0real
            &&& v(moved) == v(out[j]) - rate * v(l.actor_errors(lot, scale, i)[j])
        }),
    ensures
        ({
            let out = l.actor.value(lot.obs[i]);
            let a = lot.acts[i]@[j];
            let before = v(rollout::component_logp(out[j], out[j + 2], a));
            let after = v(rollout::component_logp(moved, out[j + 2], a));
            &&& v(lot.adv[i]) > 0real ==> after > before
            &&& v(lot.adv[i]) < 0real ==> after < before
            &&& v(lot.adv[i]) == 0real ==> after == before
        }),
{
    law_errors_are_surrogate_gradient(v, l, lot, scale, i, j);
    law_weight_is_surrogate_slope(v, l, lot, scale, i);
    let out = l.actor.value(lot.obs[i]);
    let a = lot.acts[i]@[j];
    law_mean_slope_is_derivative(v, out[j], moved, out[j + 2], a);
    let s = deviation(v, out[j + 2]);
    let r = v(l.ratio(lot, i));
    let adv = v(lot.adv[i]);
    let q = adv * r * v(scale);
    let slope = v(rollout::mean_slope(out[j], out[j + 2], a));
    let d = v(moved) - v(out[j]);
    let k = rate * q;
    algebra::lemma_signs(q, slope);
    algebra::lemma_signs(rate, q * slope);
    algebra::lemma_distributes(rate, q, slope);
    assert(d == k * slope);
    let gain = v(rollout::component_logp(moved, out[j + 2], a)) - v(
        rollout::component_logp(out[j], out[j + 2], a),
    );
    let w = 2real * s * s;
    let p = slope * slope;
    algebra::lemma_step_on_parabola(w, k, slope);
    assert(w * gain == (k * p) * (w - k));
    algebra::lemma_square(slope);
    algebra::lemma_positive(s, s);
    algebra::lemma_distributes(2real, s, s);
    let weight = v(scale);
    algebra::lemma_distributes(adv, r, weight);
    algebra::lemma_positive(r, weight);
    algebra::lemma_sign_of_factor(w, gain);
    algebra::lemma_signs(adv, r * weight);
    algebra::lemma_sign_of_factor(r * weight, adv);
    algebra::lemma_sign_of_factor(rate, q);
    algebra::lemma_signs(k, p);
    algebra::lemma_sign_of_factor(p, k);
    if k < 2real * (s * s) {
        algebra::lemma_signs(k * p, w - k);
        algebra::lemma_sign_of_factor(w - k, k * p);
    }
}

} // verus!
