//! The squashed Gaussian policy, its derivatives, and the temperature of its entropy.
use crate::num::{self, Meaning, Scalar};
use crate::rl::neural::{self, MlpGrad};
use vstd::prelude::*;

verus! {

/// A sample of a squashed Gaussian, and the values needed for its pathwise derivative.
#[derive(Clone, Copy, Debug)]
pub struct PolicySample<S> {
    pub action: [S; 2],
    pub std_noise: [S; 2],
    pub log_std_derivative: [S; 2],
    pub log_prob: S,
}

/// The optimizer of the temperature.
#[derive(Clone, Copy, Debug)]
pub struct TemperatureAdam<S> {
    pub moment: S,
    pub variance: S,
    pub step: u64,
}

/// The least logarithm of a standard deviation.
pub open spec fn log_std_min<S: Scalar>() -> S {
    S::counted(5).negated()
}

/// The largest logarithm of a standard deviation.
pub open spec fn log_std_max<S: Scalar>() -> S {
    S::counted(2)
}

/// The logarithm of two pi, to seven digits.
pub open spec fn log_two_pi<S: Scalar>() -> S {
    S::fraction(1837877, 1000000)
}

/// The logarithm of `1 + exp(x)`.
pub open spec fn soft_plus<S: Scalar>(x: S) -> S {
    x.larger(num::zero()).sum(x.magnitude().negated().exponential().logarithm_1p())
}

/// The logarithm of a standard deviation that a network's output stands for.
pub open spec fn log_std<S: Scalar>(raw: S) -> S {
    num::clamped(raw, log_std_min(), log_std_max())
}

/// The noise, stretched to the standard deviation that `raw` stands for.
pub open spec fn stretched_noise<S: Scalar>(raw: S, noise: S) -> S {
    log_std(raw).exponential().product(noise)
}

/// The logarithm of the derivative of tanh at `x`.
pub open spec fn log_jacobian<S: Scalar>(x: S) -> S {
    S::counted(2).product(
        S::fraction(1453635, 2097152).difference(x).difference(
            soft_plus(S::counted(2).negated().product(x)),
        ),
    )
}

/// The log-probability of one component of an action.
pub open spec fn component_log_prob<S: Scalar>(mean: S, raw: S, noise: S) -> S {
    S::fraction(1, 2).negated().product(noise.product(noise).sum(log_two_pi())).difference(
        log_std(raw),
    ).difference(log_jacobian(mean.sum(stretched_noise(raw, noise))))
}

/// The sample that a network's outputs and two normal numbers lead to.
pub open spec fn sampled<S: Scalar>(output: Seq<S>, noise: [S; 2]) -> PolicySample<S> {
    let n0 = stretched_noise(output[2], noise@[0]);
    let n1 = stretched_noise(output[3], noise@[1]);
    PolicySample {
        action: [
            output[0].sum(n0).hyperbolic_tangent(),
            output[1].sum(n1).hyperbolic_tangent(),
        ],
        std_noise: [n0, n1],
        log_std_derivative: [slope(output[2]), slope(output[3])],
        log_prob: num::zero::<S>().sum(
            component_log_prob(output[0], output[2], noise@[0]),
        ).sum(component_log_prob(output[1], output[3], noise@[1])),
    }
}

/// The derivative of the logarithm of the standard deviation: one within its bounds, else zero.
pub open spec fn slope<S: Scalar>(raw: S) -> S {
    if num::within(raw, log_std_min(), log_std_max()) {
        num::one()
    } else {
        num::zero()
    }
}

/// The derivative of `alpha log pi(a|s) - Q(s,a)` with respect to one component before tanh.
pub open spec fn pathwise<S: Scalar>(a: S, q: S, alpha: S) -> S {
    S::counted(2).product(alpha).product(a).difference(
        q.product(num::one::<S>().difference(a.product(a))),
    )
}

impl<S: Scalar> PolicySample<S> {
    /// The derivatives of the actor's loss with respect to its outputs.
    pub open spec fn output_gradient(self, q: Seq<S>, alpha: S, scale: S) -> Seq<S> {
        let d0 = pathwise(self.action@[0], q[0], alpha);
        let d1 = pathwise(self.action@[1], q[1], alpha);
        seq![
            scale.product(d0),
            scale.product(d1),
            scale.product(d0.product(self.std_noise@[0]).difference(alpha)).product(
                self.log_std_derivative@[0],
            ),
            scale.product(d1.product(self.std_noise@[1]).difference(alpha)).product(
                self.log_std_derivative@[1],
            ),
        ]
    }
}

/// What a state is worth after a transition: the reward, and what follows unless the episode ended
/// by itself.
pub open spec fn backed_up<S: Scalar>(reward: S, terminated: bool, gamma: S, next_value: S) -> S {
    if terminated {
        reward
    } else {
        reward.sum(gamma.product(next_value))
    }
}

/// A gradient, shortened to `max_norm` where it is longer than that and its length is finite.
pub open spec fn clipped<S: Scalar>(g: Seq<S>, max_norm: S) -> Seq<S> {
    let norm = neural::norm_of(g);
    if max_norm.is_less(norm) && norm.finite() {
        neural::scaled(g, max_norm.quotient(norm))
    } else {
        g
    }
}

/// The logarithm of `1 + exp(x)`.
pub fn softplus<S: Scalar>(x: S) -> (r: S)
    ensures
        num::repeatable::<S>() ==> r == soft_plus(x),
{
    x.max(S::from_count(0)).plus(x.abs().neg().exp().ln_1p())
}

/// The stretched noise, the value before tanh, the slope and the log-probability of one component.
fn sample_component<S: Scalar>(mean: S, raw: S, noise: S) -> (r: (S, S, S, S))
    ensures
        num::repeatable::<S>() ==> r.0 == stretched_noise(raw, noise),
        num::repeatable::<S>() ==> r.1 == mean.sum(stretched_noise(raw, noise)),
        num::repeatable::<S>() ==> r.2 == slope(raw),
        num::repeatable::<S>() ==> r.3 == component_log_prob(mean, raw, noise),
{
    let low: S = S::from_count(5).neg();
    let high: S = S::from_count(2);
    let log_std: S = num::clamp(raw, low, high);
    let std_noise: S = log_std.exp().times(noise);
    let pre_tanh: S = mean.plus(std_noise);
    let slope: S = if low.at_most(raw) && raw.at_most(high) {
        S::from_count(1)
    } else {
        S::from_count(0)
    };
    // This stable log-Jacobian remains finite when tanh rounds to +/-1.
    let log_jacobian: S = S::from_count(2).times(
        S::from_ratio(1453635, 2097152).minus(pre_tanh).minus(
            softplus(S::from_count(2).neg().times(pre_tanh)),
        ),
    );
    let log_prob: S = S::from_ratio(1, 2).neg().times(
        noise.times(noise).plus(S::from_ratio(1837877, 1000000)),
    ).minus(log_std).minus(log_jacobian);
    (std_noise, pre_tanh, slope, log_prob)
}

/// The sample that a network's outputs and two normal numbers lead to.
pub fn sample_policy<S: Scalar>(output: &[S], noise: [S; 2]) -> (r: PolicySample<S>)
    requires
        output@.len() >= 4,
    ensures
        num::repeatable::<S>() ==> r == sampled(output@, noise),
{
    let (n0, z0, s0, p0) = sample_component(output[0], output[2], noise[0]);
    let (n1, z1, s1, p1) = sample_component(output[1], output[3], noise[1]);
    PolicySample {
        action: [z0.tanh(), z1.tanh()],
        std_noise: [n0, n1],
        log_std_derivative: [s0, s1],
        log_prob: S::from_count(0).plus(p0).plus(p1),
    }
}

/// The derivatives of the actor's loss with respect to its outputs, for the derivatives of the
/// selected critic with respect to the action.
pub fn policy_output_gradient<S: Scalar>(
    sample: &PolicySample<S>,
    q_action_gradient: &[S],
    alpha: S,
    scale: S,
) -> (r: [S; 4])
    requires
        q_action_gradient@.len() >= 2,
    ensures
        num::repeatable::<S>() ==> r@ == sample.output_gradient(q_action_gradient@, alpha, scale),
{
    let one: S = S::from_count(1);
    let two: S = S::from_count(2);
    let a0: S = sample.action[0];
    let a1: S = sample.action[1];
    let d0: S = two.times(alpha).times(a0).minus(
        q_action_gradient[0].times(one.minus(a0.times(a0))),
    );
    let d1: S = two.times(alpha).times(a1).minus(
        q_action_gradient[1].times(one.minus(a1.times(a1))),
    );
    let r: [S; 4] = [
        scale.times(d0),
        scale.times(d1),
        scale.times(d0.times(sample.std_noise[0]).minus(alpha)).times(
            sample.log_std_derivative[0],
        ),
        scale.times(d1.times(sample.std_noise[1]).minus(alpha)).times(
            sample.log_std_derivative[1],
        ),
    ];
    proof {
        if num::repeatable::<S>() {
            assert(r@ =~= sample.output_gradient(q_action_gradient@, alpha, scale));
        }
    }
    r
}

/// What a state is worth after a transition. Truncation bootstraps, termination does not.
pub fn bellman_target<S: Scalar>(reward: S, terminated: bool, gamma: S, next_value: S) -> (r: S)
    ensures
        terminated ==> r == reward,
        num::repeatable::<S>() ==> r == backed_up(reward, terminated, gamma, next_value),
{
    if terminated {
        reward
    } else {
        reward.plus(gamma.times(next_value))
    }
}

/// Shortens a gradient to `max_norm`, and returns how long it was.
pub fn clip_gradient<S: Scalar>(gradient: &mut MlpGrad<S>, max_norm: S) -> (r: S)
    ensures
        final(gradient).data@.len() == old(gradient).data@.len(),
        num::repeatable::<S>() ==> r == neural::norm_of(old(gradient).data@),
        num::repeatable::<S>() ==> final(gradient).data@ == clipped(old(gradient).data@, max_norm),
{
    let norm: S = gradient.norm();
    if max_norm.less(norm) && norm.is_finite() {
        gradient.scale(max_norm.over(norm));
    }
    norm
}

impl<S: Scalar> TemperatureAdam<S> {
    /// The optimizer after the derivative `g`.
    pub open spec fn stepped(self, g: S) -> Self {
        TemperatureAdam {
            moment: S::fraction(9, 10).product(self.moment).sum(S::fraction(1, 10).product(g)),
            variance: S::fraction(999, 1000).product(self.variance).sum(
                S::fraction(1, 1000).product(g).product(g),
            ),
            step: self.step.wrapping_add(1),
        }
    }

    /// The parameter to which the optimizer, which has just stepped, moves `parameter`.
    pub open spec fn moved(self, parameter: S, rate: S) -> S {
        let one = num::one::<S>();
        let steps = S::counted(self.step);
        let m = self.moment.quotient(one.difference(S::fraction(9, 10).power(steps)));
        let v = self.variance.quotient(one.difference(S::fraction(999, 1000).power(steps)));
        num::clamped(
            parameter.difference(
                rate.product(m).quotient(v.root().sum(S::fraction(1, 100000000))),
            ),
            S::counted(20).negated(),
            S::counted(5),
        )
    }

    /// An optimizer that has taken no step yet.
    pub fn new() -> (r: Self)
        ensures
            r.step == 0,
            num::repeatable::<S>() ==> r.moment == num::zero::<S>() && r.variance == num::zero::<
                S,
            >(),
    {
        TemperatureAdam { moment: S::from_count(0), variance: S::from_count(0), step: 0 }
    }

    /// Takes a step along `gradient` unless that is not finite.
    pub fn update(&mut self, parameter: &mut S, gradient: S, learning_rate: S) -> (r: bool)
        ensures
            !r ==> *final(self) == *old(self) && *final(parameter) == *old(parameter),
            r ==> final(self).step == old(self).step.wrapping_add(1),
            num::repeatable::<S>() ==> r == gradient.finite(),
            num::repeatable::<S>() && r ==> *final(self) == old(self).stepped(gradient),
            num::repeatable::<S>() && r ==> *final(parameter) == final(self).moved(
                *old(parameter),
                learning_rate,
            ),
    {
        if !gradient.is_finite() {
            return false;
        }
        let one: S = S::from_count(1);
        self.step = self.step.wrapping_add(1);
        self.moment = S::from_ratio(9, 10).times(self.moment).plus(
            S::from_ratio(1, 10).times(gradient),
        );
        self.variance = S::from_ratio(999, 1000).times(self.variance).plus(
            S::from_ratio(1, 1000).times(gradient).times(gradient),
        );
        let steps: S = S::from_count(self.step);
        let m: S = self.moment.over(one.minus(S::from_ratio(9, 10).powf(steps)));
        let v: S = self.variance.over(one.minus(S::from_ratio(999, 1000).powf(steps)));
        // Keep the exponential representable, including in very long runs.
        *parameter =
        num::clamp(
            parameter.minus(learning_rate.times(m).over(v.sqrt().plus(S::from_ratio(1, 100000000)))),
            S::from_count(20).neg(),
            S::from_count(5),
        );
        true
    }
}

} // verus!
