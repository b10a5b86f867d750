//! The squashed Gaussian policy and its log-probabilities.
use crate::laws::algebra;
use crate::laws::exact::{self, exact};
use crate::num::{self, Meaning, Scalar};
use crate::rl::policy;
use crate::rl::rollout;
use vstd::prelude::*;

verus! {

/// An exponential times that of the opposite number is one.
proof fn lemma_opposites<S: Scalar>(v: spec_fn(S) -> real, a: S)
    requires
        exact(v),
    ensures
        v(a.exponential()) * v(a.negated().exponential()) == 1real,
{
    let z = a.sum(a.negated());
    assert(v(z) == 0real);
    assert(v(z.exponential()) == 1real);
}

/// The soft plus of a number is the logarithm of one and its exponential.
pub proof fn law_soft_plus<S: Scalar>(v: spec_fn(S) -> real, x: S)
    requires
        exact(v),
    ensures
        v(policy::soft_plus(x).exponential()) == 1real + v(x.exponential()),
{
    let zero = num::zero::<S>();
    let top = x.larger(zero);
    let low = x.magnitude().negated();
    let rest = low.exponential().logarithm_1p();
    assert(v(low.exponential()) > 0real);
    assert(v(rest.exponential()) == 1real + v(low.exponential()));
    assert(v(policy::soft_plus(x).exponential()) == v(top.exponential()) * v(rest.exponential()));
    lemma_opposites(v, x);
    let e = v(x.exponential());
    if v(x) >= 0real {
        assert(v(top) == v(x));
        assert(v(top.exponential()) == e);
        assert(v(low) == v(x.negated()));
        assert(v(low.exponential()) == v(x.negated().exponential()));
        algebra::lemma_distributes(1real, v(low.exponential()), e);
        algebra::lemma_units(e);
    } else {
        assert(v(top) == 0real);
        assert(v(top.exponential()) == 1real);
        assert(v(low) == v(x));
        assert(v(low.exponential()) == e);
        algebra::lemma_units(1real + e);
    }
}

/// Whether `y` is minus twice `x`.
pub open spec fn doubled_back<S: Scalar>(v: spec_fn(S) -> real, x: S, y: S) -> bool {
    v(y) == 0real - 2real * v(x)
}

/// The logarithm of tanh's derivative is twice the logarithm of two, to seven digits, less the number
/// and the soft plus of minus twice the number.
pub proof fn law_log_jacobian<S: Scalar>(v: spec_fn(S) -> real, x: S)
    requires
        exact(v),
    ensures
        exists|y: S| #[trigger]
            doubled_back(v, x, y) && v(policy::log_jacobian(x)) == 2real * (exact::part(
                1453635,
                2097152,
            ) - v(x) - v(policy::soft_plus(y))),
{
    let y = S::counted(2).negated().product(x);
    algebra::lemma_signs(2real, v(x));
    assert(v(S::counted(2).negated()) == 0real - 2real);
    assert(v(y) == (0real - 2real) * v(x));
    assert(doubled_back(v, x, y));
    assert(v(S::fraction(1453635, 2097152)) == exact::part(1453635, 2097152));
}

/// A component's log-probability: that of its noise under the normal distribution, less the logarithm
/// of the deviation, less the logarithm of tanh's derivative where the component was squashed.
pub proof fn law_component_log_probability<S: Scalar>(
    v: spec_fn(S) -> real,
    mean: S,
    raw: S,
    noise: S,
)
    requires
        exact(v),
    ensures
        ({
            let z = v(noise);
            let u = mean.sum(policy::stretched_noise(raw, noise));
            let p = v(policy::component_log_prob(mean, raw, noise));
            &&& 2real * (p + v(policy::log_std(raw)) + v(policy::log_jacobian(u))) == 0real - (z * z
                + exact::part(1837877, 1000000))
            &&& v(u) == v(mean) + v(policy::log_std(raw).exponential()) * z
            &&& v(policy::log_std(raw)) == exact::between(v(raw), -5real, 2real)
        }),
{
    let half = 1real / 2real;
    assert(v(S::fraction(1, 2)) == half);
    let z = v(noise);
    let k = z * z + exact::part(1837877, 1000000);
    algebra::lemma_signs(half, k);
    algebra::lemma_halves(k);
    exact::lemma_clamped_reads(v, raw, policy::log_std_min(), policy::log_std_max());
    assert(v(policy::log_std_min::<S>()) == -5real);
    assert(v(policy::log_std_max::<S>()) == 2real);
}

/// The log-probability of a sample is that of its two components, added up; and the derivative of each
/// deviation's logarithm is one within the bounds and zero beyond them.
pub proof fn law_sample_log_probability<S: Scalar>(
    v: spec_fn(S) -> real,
    output: Seq<S>,
    noise: [S; 2],
)
    requires
        exact(v),
    ensures
        ({
            let s = policy::sampled(output, noise);
            &&& v(s.log_prob) == v(policy::component_log_prob(output[0], output[2], noise@[0])) + v(
                policy::component_log_prob(output[1], output[3], noise@[1]),
            )
            &&& forall|j: int|
                #![trigger s.std_noise@[j]]
                0 <= j < 2 ==> {
                    let raw = v(output[j + 2]);
                    &&& v(s.std_noise@[j]) == v(policy::log_std(output[j + 2]).exponential()) * v(
                        noise@[j],
                    )
                    &&& -5real <= raw <= 2real ==> v(s.log_std_derivative@[j]) == 1real
                    &&& raw < -5real || raw > 2real ==> v(s.log_std_derivative@[j]) == 0real
                }
        }),
{
    assert(v(policy::log_std_min::<S>()) == -5real);
    assert(v(policy::log_std_max::<S>()) == 2real);
}

/// The log-probability of an action, up to what depends on the action alone, is minus half the squared
/// distance of the action from the mean in units of the deviation, less the logarithm of the
/// deviation; and that of both components is their sum.
pub proof fn law_action_log_probability<S: Scalar>(
    v: spec_fn(S) -> real,
    mean: S,
    logstd: S,
    other_mean: S,
    other_logstd: S,
    action: S,
)
    requires
        exact(v),
    ensures
        ({
            let z = v(rollout::standing(mean, logstd, action));
            let y = v(rollout::standing(other_mean, other_logstd, action));
            2real * (v(rollout::component_logp(mean, logstd, action)) - v(
                rollout::component_logp(other_mean, other_logstd, action),
            )) == y * y - z * z + 2real * (v(other_logstd) - v(logstd))
        }),
{
    let z = v(rollout::standing(mean, logstd, action));
    let y = v(rollout::standing(other_mean, other_logstd, action));
    let half = 1real / 2real;
    assert(v(S::fraction(1, 2)) == half);
    algebra::lemma_signs(half, y);
    algebra::lemma_signs(half * y, y);
    algebra::lemma_distributes(half, y, y);
    algebra::lemma_signs(half, z);
    algebra::lemma_signs(half * z, z);
    algebra::lemma_distributes(half, z, z);
    algebra::lemma_halves(y * y);
    algebra::lemma_halves(z * z);
}

/// The log-probability of an action is that of its components, added up, each under its own mean and
/// deviation.
pub proof fn law_both_components_count<S: Scalar>(
    v: spec_fn(S) -> real,
    mean: [S; 2],
    logstd: [S; 2],
    action: [S; 2],
)
    requires
        exact(v),
    ensures
        v(rollout::logp(mean, logstd, action)) == v(
            rollout::component_logp(mean@[0], logstd@[0], action@[0]),
        ) + v(rollout::component_logp(mean@[1], logstd@[1], action@[1])),
{
}

/// The mean under which an action stands at zero is half the logarithm of `(1 + a) / (1 - a)`, where
/// `a` is the action brought within its bounds: the exponential of twice the mean, times `1 - a`, is
/// `1 + a`.
pub proof fn law_standing_inverts_tanh<S: Scalar>(
    v: spec_fn(S) -> real,
    mean: S,
    logstd: S,
    action: S,
    ratio: S,
)
    requires
        exact(v),
        ({
            let bound = v(rollout::action_bound::<S>());
            let a = exact::between(v(action), 0real - bound, bound);
            &&& -1real < a < 1real
            &&& v(ratio.exponential()) * (1real - a) == 1real + a
            &&& v(mean) * 2real == v(ratio)
        }),
        forall|x: S, y: S|
            v(x) == v(y) && v(x) > 0real ==> v(#[trigger] x.logarithm()) == v(
                #[trigger] y.logarithm(),
            ),
    ensures
        v(rollout::standing(mean, logstd, action)) == 0real,
{
    let one = num::one::<S>();
    let bound = rollout::action_bound::<S>();
    let a = num::clamped(action, bound.negated(), bound);
    exact::lemma_clamped_reads(v, action, bound.negated(), bound);
    let odds = one.sum(a).quotient(one.difference(a));
    let k = 1real - v(a);
    assert(k > 0real);
    algebra::lemma_quotient(1real + v(a), k, v(ratio.exponential()));
    assert(v(odds) == v(ratio.exponential()));
    assert(v(odds.logarithm()) == v(ratio.exponential().logarithm()));
    let half = 1real / 2real;
    assert(v(S::fraction(1, 2)) == half);
    algebra::lemma_halves(v(ratio));
    let u = S::fraction(1, 2).product(odds.logarithm());
    assert(v(u) == v(mean));
    let s = v(rollout::log_std(logstd).exponential());
    algebra::lemma_divided(0real, s);
    let z = v(rollout::standing(mean, logstd, action));
    algebra::lemma_signs(z, s);
    algebra::lemma_sign_of_factor(s, z);
}

} // verus!
