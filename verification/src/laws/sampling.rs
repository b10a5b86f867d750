//! What is drawn at random.
use crate::laws::algebra;
use crate::laws::exact::{self, exact};
use crate::num::{Meaning, Scalar};
use crate::rl::rng::Rng;
use crate::rl::sac::Trainer;
use vstd::prelude::*;

verus! {

/// A uniform sample lies above zero and below one.
pub proof fn law_uniform_samples_lie_between<S: Scalar>(v: spec_fn(S) -> real, r: Rng<S>)
    requires
        exact(v),
    ensures
        0real < v(r.unit()) < 1real,
{
    let word = r.word();
    assert(word >> 41 <= 8388607) by (bit_vector);
    let n = (word >> 41) as real;
    let m = 8388608real;
    let part = 1real / m;
    assert(v(S::fraction(1, 8388608)) == part);
    assert(v(S::fraction(1, 2)) == 1real / 2real);
    algebra::lemma_divided(1real, 2real);
    algebra::lemma_divided(1real, m);
    let x = n + 1real / 2real;
    assert(v(r.unit()) == x * part);
    algebra::lemma_positive(x, part);
    algebra::lemma_scaled_order(m, x, part);
    algebra::lemma_signs(part, m);
}

/// A component of a random action lies between minus one and one.
pub proof fn law_random_components_lie_between<S: Scalar>(v: spec_fn(S) -> real, r: Rng<S>)
    requires
        exact(v),
    ensures
        -1real < v(Trainer::<S>::random_component(r.unit())) < 1real,
        v(Trainer::<S>::random_component(r.unit())) == 2real * v(r.unit()) - 1real,
{
    law_uniform_samples_lie_between(v, r);
}

/// A fresh pair of normal samples is a point whose squared distance from the origin is minus twice
/// the logarithm of a uniform sample, in a direction that the next uniform sample gives.
pub proof fn law_normal_pairs_are_polar<S: Scalar>(v: spec_fn(S) -> real, r: Rng<S>)
    requires
        exact(v),
        r.spare is None,
        v(r.unit().logarithm()) <= 0real,
    ensures
        ({
            let x = v(r.pair()@[0]);
            let y = v(r.pair()@[1]);
            let radius = v(r.radius());
            &&& radius >= 0real
            &&& radius * radius == 0real - 2real * v(r.unit().logarithm())
            &&& x * x + y * y == radius * radius
            &&& x == radius * v(r.angle().cosine())
            &&& y == radius * v(r.angle().sine())
            &&& v(r.angle()) == exact::part(13176795, 2097152) * v(r.after_word().unit())
            &&& r.after_pair() == r.after_word().after_word()
        }),
{
    let l = v(r.unit().logarithm());
    let k = v(r.radius());
    let c = v(r.angle().cosine());
    let s = v(r.angle().sine());
    algebra::lemma_signs(2real, l);
    algebra::lemma_regroup(k, c, k, c);
    algebra::lemma_regroup(k, s, k, s);
    algebra::lemma_distributes(s * s, c * c, k * k);
    algebra::lemma_units(k * k);
    assert(v(S::counted(2).negated().product(r.unit().logarithm())) == 0real - 2real * l);
}

/// A picked index lies below the bound.
pub proof fn law_picks_lie_below<S: Scalar>(r: Rng<S>, upper: nat)
    requires
        upper > 0,
    ensures
        r.pick(upper) < upper,
        r.after_pick(upper) == r.after_word(),
{
}

} // verus!
