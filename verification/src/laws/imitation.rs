//! What imitation aims at.
use crate::laws::algebra;
use crate::laws::exact::{self, exact};
use crate::num::{self, Meaning, Scalar};
use crate::rl::neural::Net;
use crate::rl::ppo::Learner;
use crate::stages::imitation;
use vstd::prelude::*;

verus! {

/// Whether both components of an action lie within `-0.999 ..= 0.999`.
pub open spec fn inner<S: Scalar>(v: spec_fn(S) -> real, action: [S; 2]) -> bool {
    forall|j: int|
        0 <= j < 2 ==> -exact::part(999, 1000) <= v(#[trigger] action@[j]) <= exact::part(999, 1000)
}

/// A policy whose outputs have no error for a recorded action prefers that action: its first
/// component is the first one of the preferred action, and its second the second one.
pub proof fn law_flawless_pupils_prefer_the_action<S: Scalar>(
    v: spec_fn(S) -> real,
    l: Learner<S>,
    obs: Seq<S>,
    action: [S; 2],
    j: int,
)
    requires
        exact(v),
        inner(v, action),
        0 <= j < 2,
        v(imitation::misses(l.actor, obs, action)[j]) == 0real,
    ensures
        v(l.preferred(obs)@[j]) == v(action@[j]),
{
    let bound = S::fraction(999, 1000);
    let a = action@[j];
    let c = num::clamped(a, bound.negated(), bound);
    assert(-exact::part(999, 1000) <= v(a) <= exact::part(999, 1000));
    assert(exact::part(999, 1000) < 1real) by {
        algebra::lemma_divided(999real, 1000real);
    }
    assert(c == a);
    assert(imitation::aim(action)[j] == a.inverse_tanh());
    let out = l.actor.value(obs)[j];
    assert(v(out) == v(a.inverse_tanh()));
    assert(v(out.hyperbolic_tangent()) == v(a.inverse_tanh().hyperbolic_tangent()));
}

/// An output is corrected towards its aim: its error is positive exactly where the output is too
/// large. For the means, that is where the preferred component exceeds the recorded one.
pub proof fn law_errors_point_at_the_action<S: Scalar>(
    v: spec_fn(S) -> real,
    l: Learner<S>,
    obs: Seq<S>,
    action: [S; 2],
    j: int,
)
    requires
        exact(v),
        inner(v, action),
        0 <= j < 2,
    ensures
        ({
            let e = v(imitation::misses(l.actor, obs, action)[j]);
            let preferred = v(l.preferred(obs)@[j]);
            &&& e > 0real <==> preferred > v(action@[j])
            &&& e < 0real <==> preferred < v(action@[j])
        }),
{
    let bound = S::fraction(999, 1000);
    let a = action@[j];
    assert(-exact::part(999, 1000) <= v(a) <= exact::part(999, 1000));
    assert(exact::part(999, 1000) < 1real) by {
        algebra::lemma_divided(999real, 1000real);
    }
    assert(imitation::aim(action)[j] == a.inverse_tanh());
    let out = l.actor.value(obs)[j];
    let t = a.inverse_tanh();
    assert(v(t.hyperbolic_tangent()) == v(a));
    assert(v(l.preferred(obs)@[j]) == v(out.hyperbolic_tangent()));
}

/// The deviations are taught to be those of the logarithm minus one, whatever the action is.
pub proof fn law_deviations_have_one_aim<S: Scalar>(
    v: spec_fn(S) -> real,
    l: Learner<S>,
    obs: Seq<S>,
    action: [S; 2],
    j: int,
)
    requires
        exact(v),
        2 <= j < 4,
    ensures
        v(imitation::misses(l.actor, obs, action)[j]) == v(l.actor.value(obs)[j]) + 1real,
{
}

/// What a sample adds to the loss is half the sum of the squares of its errors.
pub proof fn law_loss_is_half_the_squares<S: Scalar>(
    v: spec_fn(S) -> real,
    sum: S,
    errors: Seq<S>,
    n: nat,
)
    requires
        exact(v),
        n <= errors.len(),
    ensures
        2real * (v(imitation::with_losses(sum, errors, n)) - v(sum)) == squares(v, errors, n),
    decreases n,
{
    if n > 0 {
        law_loss_is_half_the_squares(v, sum, errors, (n - 1) as nat);
        let e = v(errors[n - 1]);
        let half = 1real / 2real;
        assert(v(S::fraction(1, 2)) == half);
        algebra::lemma_halves(e * e);
        algebra::lemma_distributes(half, e, e);
        assert(v(imitation::with_losses(sum, errors, n)) == v(
            imitation::with_losses(sum, errors, (n - 1) as nat),
        ) + half * e * e);
    }
}

/// The sum of the squares of the first `n` readings.
pub open spec fn squares<S: Scalar>(v: spec_fn(S) -> real, errors: Seq<S>, n: nat) -> real
    decreases n,
{
    if n == 0 {
        0real
    } else {
        squares(v, errors, (n - 1) as nat) + v(errors[n - 1]) * v(errors[n - 1])
    }
}

/// What a sample adds to the gradient: at each output its error, divided by the number of samples in
/// the minibatch.
pub proof fn law_samples_share_equally<S: Scalar>(
    v: spec_fn(S) -> real,
    net: Net<S>,
    obs: Seq<Seq<S>>,
    acts: Seq<[S; 2]>,
    chunk: Seq<usize>,
    sum: S,
    count: usize,
    n: nat,
)
    requires
        exact(v),
        0 < n <= chunk.len() <= u64::MAX,
    ensures
        ({
            let i = chunk[n - 1] as int;
            let before = imitation::imitated(net, obs, acts, chunk, sum, count, (n - 1) as nat);
            let after = imitation::imitated(net, obs, acts, chunk, sum, count, n);
            let e = imitation::misses(net, obs[i], acts[i]);
            &&& exists|d: Seq<S>| #[trigger]
                net.gradient(before.0, obs[i], d) == after.0 && d.len() == 4 && forall|j: int|
                    0 <= j < 4 ==> v(#[trigger] d[j]) * (chunk.len() as real) == v(e[j])
            &&& 2real * (v(after.1) - v(before.1)) == squares(v, e, 4)
            &&& after.2 == before.2.wrapping_add(4)
        }),
{
    let i = chunk[n - 1] as int;
    let before = imitation::imitated(net, obs, acts, chunk, sum, count, (n - 1) as nat);
    let after = imitation::imitated(net, obs, acts, chunk, sum, count, n);
    let e = imitation::misses(net, obs[i], acts[i]);
    let k = chunk.len() as real;
    let d = Seq::new(4, |j: int| e[j].quotient(S::counted(chunk.len() as u64)));
    assert(v(S::counted(chunk.len() as u64)) == k);
    assert(net.gradient(before.0, obs[i], d) == after.0);
    assert forall|j: int| 0 <= j < 4 implies v(#[trigger] d[j]) * k == v(e[j]) by {
        algebra::lemma_divided(v(e[j]), k);
    }
    law_loss_is_half_the_squares(v, before.1, e, 4);
}

} // verus!
