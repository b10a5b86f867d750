//! The Adam optimizer for the parameters of a network.
use crate::num::{self, Meaning, Scalar};
use crate::rl::neural::{Mlp, MlpGrad};
use vstd::prelude::*;

verus! {

/// First and second moments for each parameter, and the powers of the two decay rates.
#[derive(Debug)]
pub struct Adam<S> {
    pub learning_rate: S,
    pub step: u64,
    pub beta1_power: S,
    pub beta2_power: S,
    pub m: Vec<S>,
    pub v: Vec<S>,
}

/// The value of an optimizer.
#[verifier::ext_equal]
pub struct Moments<S> {
    pub learning_rate: S,
    pub step: u64,
    pub beta1_power: S,
    pub beta2_power: S,
    pub m: Seq<S>,
    pub v: Seq<S>,
}

/// The decay rate of the first moment.
pub open spec fn beta1<S: Scalar>() -> S {
    S::fraction(9, 10)
}

/// The decay rate of the second moment.
pub open spec fn beta2<S: Scalar>() -> S {
    S::fraction(999, 1000)
}

/// The first moment after the derivative `g`.
pub open spec fn next_m<S: Scalar>(m: S, g: S) -> S {
    beta1::<S>().product(m).sum(S::fraction(1, 10).product(g))
}

/// The second moment after the derivative `g`.
pub open spec fn next_v<S: Scalar>(v: S, g: S) -> S {
    beta2::<S>().product(v).sum(S::fraction(1, 1000).product(g).product(g))
}

/// A parameter after a step with the moments `m` and `v`, of which the parts `p1` and `p2` are
/// still missing.
pub open spec fn moved<S: Scalar>(x: S, rate: S, m: S, v: S, p1: S, p2: S) -> S {
    let one = num::one::<S>();
    x.difference(
        rate.product(m.quotient(one.difference(p1))).quotient(
            v.quotient(one.difference(p2)).root().sum(S::fraction(1, 100000000)),
        ),
    )
}

impl<S: Scalar> Moments<S> {
    /// The first moments after the gradient `g`.
    pub open spec fn new_m(self, g: Seq<S>) -> Seq<S> {
        Seq::new(g.len(), |i: int| next_m(self.m[i], g[i]))
    }

    /// The second moments after the gradient `g`.
    pub open spec fn new_v(self, g: Seq<S>) -> Seq<S> {
        Seq::new(g.len(), |i: int| next_v(self.v[i], g[i]))
    }

    /// The parameters `p` after a step along the gradient `g`.
    pub open spec fn new_p(self, p: Seq<S>, g: Seq<S>) -> Seq<S> {
        Seq::new(
            g.len(),
            |i: int|
                moved(
                    p[i],
                    self.learning_rate,
                    next_m(self.m[i], g[i]),
                    next_v(self.v[i], g[i]),
                    self.beta1_power.product(beta1()),
                    self.beta2_power.product(beta2()),
                ),
        )
    }

    /// Whether the moments, the parameters and the gradient are equally many.
    pub open spec fn matches(self, p: Seq<S>, g: Seq<S>) -> bool {
        self.m.len() == p.len() && self.v.len() == p.len() && g.len() == p.len()
    }

    /// Whether a step along `g` is taken: the sizes agree, and the gradient and everything that
    /// comes of it are finite.
    pub open spec fn admits(self, p: Seq<S>, g: Seq<S>) -> bool {
        &&& self.matches(p, g)
        &&& num::all_finite(g)
        &&& num::all_finite(self.new_m(g))
        &&& num::all_finite(self.new_v(g))
        &&& num::all_finite(self.new_p(p, g))
    }

    /// Whether what a step along `g` makes of the parameter with the number `k` is finite.
    pub open spec fn sound_at(self, p: Seq<S>, g: Seq<S>, k: int) -> bool {
        self.new_m(g)[k].finite() && self.new_v(g)[k].finite() && self.new_p(p, g)[k].finite()
    }

    /// The optimizer after a step along `g`.
    pub open spec fn stepped(self, g: Seq<S>) -> Self {
        Moments {
            learning_rate: self.learning_rate,
            step: self.step.wrapping_add(1),
            beta1_power: self.beta1_power.product(beta1()),
            beta2_power: self.beta2_power.product(beta2()),
            m: self.new_m(g),
            v: self.new_v(g),
        }
    }

    /// The optimizer after it was offered the gradient `g`.
    pub open spec fn after(self, p: Seq<S>, g: Seq<S>) -> Self {
        if self.admits(p, g) {
            self.stepped(g)
        } else {
            self
        }
    }

    /// The parameters after the optimizer was offered the gradient `g`.
    pub open spec fn applied(self, p: Seq<S>, g: Seq<S>) -> Seq<S> {
        if self.admits(p, g) {
            self.new_p(p, g)
        } else {
            p
        }
    }
}

/// The optimizer that has taken no step yet, for `n` parameters.
pub open spec fn fresh<S: Scalar>(n: nat, learning_rate: S) -> Moments<S> {
    Moments {
        learning_rate,
        step: 0,
        beta1_power: num::one(),
        beta2_power: num::one(),
        m: num::copies(num::zero(), n),
        v: num::copies(num::zero(), n),
    }
}

impl<S: Scalar> View for Adam<S> {
    type V = Moments<S>;

    open spec fn view(&self) -> Moments<S> {
        Moments {
            learning_rate: self.learning_rate,
            step: self.step,
            beta1_power: self.beta1_power,
            beta2_power: self.beta2_power,
            m: self.m@,
            v: self.v@,
        }
    }
}

impl<S: Scalar> Clone for Adam<S> {
    fn clone(&self) -> (r: Self)
        ensures
            r@ == self@,
    {
        Adam {
            learning_rate: self.learning_rate,
            step: self.step,
            beta1_power: self.beta1_power,
            beta2_power: self.beta2_power,
            m: vstd::slice::slice_to_vec(self.m.as_slice()),
            v: vstd::slice::slice_to_vec(self.v.as_slice()),
        }
    }
}

impl<S: Scalar> Adam<S> {
    /// An optimizer for `model` that has taken no step yet.
    pub fn new(model: &Mlp<S>, learning_rate: S) -> (r: Self)
        requires
            num::repeatable::<S>() ==> num::positive(learning_rate),
        ensures
            r@.step == 0,
            r@.learning_rate == learning_rate,
            r@.m.len() == model@.p.len(),
            r@.v.len() == model@.p.len(),
            num::repeatable::<S>() ==> r@ == fresh(model@.p.len(), learning_rate),
    {
        Self::at_rest(model, learning_rate)
    }

    /// As [`Adam::new`], for a learning rate that is taken as it is.
    pub(crate) fn at_rest(model: &Mlp<S>, learning_rate: S) -> (r: Self)
        ensures
            r@.step == 0,
            r@.learning_rate == learning_rate,
            r@.m.len() == model@.p.len(),
            r@.v.len() == model@.p.len(),
            num::repeatable::<S>() ==> r@ == fresh(model@.p.len(), learning_rate),
    {
        let n: usize = model.parameters.len();
        Adam {
            learning_rate,
            step: 0,
            beta1_power: S::from_count(1),
            beta2_power: S::from_count(1),
            m: num::repeat(S::from_count(0), n),
            v: num::repeat(S::from_count(0), n),
        }
    }

    /// The moments and the parameter with the number `i` after a step along `grad`.
    fn proposal(&self, model: &Mlp<S>, grad: &MlpGrad<S>, i: usize, p1: S, p2: S) -> (r: (S, S, S))
        requires
            self@.matches(model@.p, grad.data@),
            i < grad.data@.len(),
        ensures
            num::repeatable::<S>() ==> r.0 == next_m(self@.m[i as int], grad.data@[i as int]),
            num::repeatable::<S>() ==> r.1 == next_v(self@.v[i as int], grad.data@[i as int]),
            num::repeatable::<S>() ==> r.2 == moved(
                model@.p[i as int],
                self@.learning_rate,
                next_m(self@.m[i as int], grad.data@[i as int]),
                next_v(self@.v[i as int], grad.data@[i as int]),
                p1,
                p2,
            ),
    {
        let g: S = grad.data[i];
        let one: S = S::from_count(1);
        let m: S = S::from_ratio(9, 10).times(self.m[i]).plus(S::from_ratio(1, 10).times(g));
        let v: S = S::from_ratio(999, 1000).times(self.v[i]).plus(
            S::from_ratio(1, 1000).times(g).times(g),
        );
        let next: S = model.parameters[i].minus(
            self.learning_rate.times(m.over(one.minus(p1))).over(
                v.over(one.minus(p2)).sqrt().plus(S::from_ratio(1, 100000000)),
            ),
        );
        (m, v, next)
    }

    /// Takes a step along `grad`, or none: where a number that is not finite would come of it, the
    /// model and the optimizer stay as they are.
    pub fn step(&mut self, model: &mut Mlp<S>, grad: &MlpGrad<S>) -> (r: bool)
        ensures
            final(model)@.same_shape(old(model)@),
            final(model)@.p.len() == old(model)@.p.len(),
            final(self)@.m.len() == old(self)@.m.len(),
            final(self)@.v.len() == old(self)@.v.len(),
            final(self)@.learning_rate == old(self)@.learning_rate,
            final(self)@.step == (if r {
                old(self)@.step.wrapping_add(1)
            } else {
                old(self)@.step
            }),
            !r ==> final(self)@ == old(self)@ && final(model)@ == old(model)@,
            num::repeatable::<S>() ==> r == old(self)@.admits(old(model)@.p, grad.data@),
            num::repeatable::<S>() ==> final(self)@ == old(self)@.after(
                old(model)@.p,
                grad.data@,
            ),
            num::repeatable::<S>() ==> final(model)@ == old(model)@.with(
                old(self)@.applied(old(model)@.p, grad.data@),
            ),
    {
        if self.m.len() != model.parameters.len() || self.v.len() != self.m.len()
            || grad.data.len() != self.m.len() || !grad.is_finite() {
            return false;
        }
        let p1: S = self.beta1_power.times(S::from_ratio(9, 10));
        let p2: S = self.beta2_power.times(S::from_ratio(999, 1000));
        let n: usize = self.m.len();
        let ghost state = self@;
        let ghost p = model@.p;
        let ghost g = grad.data@;
        for i in 0..n
            invariant
                n == g.len(),
                self@ == state,
                model@.p == p,
                grad.data@ == g,
                state.matches(p, g),
                num::repeatable::<S>() ==> p1 == state.beta1_power.product(beta1()) && p2
                    == state.beta2_power.product(beta2()),
                num::repeatable::<S>() ==> forall|k: int|
                    0 <= k < i ==> #[trigger] state.sound_at(p, g, k),
        {
            let (m, v, x) = self.proposal(model, grad, i, p1, p2);
            proof {
                if num::repeatable::<S>() {
                    assert(m == state.new_m(g)[i as int]);
                    assert(v == state.new_v(g)[i as int]);
                    assert(x == state.new_p(p, g)[i as int]);
                }
            }
            if !m.is_finite() || !v.is_finite() || !x.is_finite() {
                return false;
            }
        }
        proof {
            if num::repeatable::<S>() {
                assert forall|k: int| 0 <= k < n implies (#[trigger] state.new_m(g)[k]).finite() by {
                    assert(state.sound_at(p, g, k));
                }
                assert forall|k: int| 0 <= k < n implies (#[trigger] state.new_v(g)[k]).finite() by {
                    assert(state.sound_at(p, g, k));
                }
                assert forall|k: int| 0 <= k < n implies (#[trigger] state.new_p(
                    p,
                    g,
                )[k]).finite() by {
                    assert(state.sound_at(p, g, k));
                }
                assert(state.admits(p, g));
            }
        }
        for i in 0..n
            invariant
                n == g.len(),
                n == self.m@.len() == self.v@.len() == model.parameters@.len(),
                grad.data@ == g,
                state.matches(p, g),
                model@.same_shape(old(model)@),
                self@.learning_rate == state.learning_rate,
                self.step == state.step,
                num::repeatable::<S>() ==> p1 == state.beta1_power.product(beta1()) && p2
                    == state.beta2_power.product(beta2()),
                num::repeatable::<S>() ==> forall|k: int|
                    0 <= k < n ==> #[trigger] self.m@[k] == (if k < i {
                        state.new_m(g)[k]
                    } else {
                        state.m[k]
                    }),
                num::repeatable::<S>() ==> forall|k: int|
                    0 <= k < n ==> #[trigger] self.v@[k] == (if k < i {
                        state.new_v(g)[k]
                    } else {
                        state.v[k]
                    }),
                num::repeatable::<S>() ==> forall|k: int|
                    0 <= k < n ==> #[trigger] model.parameters@[k] == (if k < i {
                        state.new_p(p, g)[k]
                    } else {
                        p[k]
                    }),
        {
            let (m, v, x) = self.proposal(model, grad, i, p1, p2);
            self.m[i] = m;
            self.v[i] = v;
            model.parameters[i] = x;
        }
        self.step = self.step.wrapping_add(1);
        self.beta1_power = p1;
        self.beta2_power = p2;
        proof {
            if num::repeatable::<S>() {
                assert(self.m@ =~= state.new_m(g));
                assert(self.v@ =~= state.new_v(g));
                assert(model.parameters@ =~= state.new_p(p, g));
            }
        }
        true
    }

    /// The number of steps taken, counted modulo `2^64`.
    pub fn steps(&self) -> (r: u64)
        ensures
            r == self@.step,
    {
        self.step
    }

    /// Whether the state is one that steps along `model` can have led to.
    pub fn validate(&self, model: &Mlp<S>) -> (r: bool)
        ensures
            r ==> self@.m.len() == model@.p.len() && self@.v.len() == model@.p.len(),
            num::repeatable::<S>() ==> r == self@.valid(model@.p.len()),
    {
        let zero: S = S::from_count(0);
        let one: S = S::from_count(1);
        self.m.len() == model.parameters.len() && self.v.len() == self.m.len()
            && num::every_finite(self.m.as_slice()) && none_negative(self.v.as_slice())
            && self.learning_rate.is_finite() && zero.less(self.learning_rate)
            && self.beta1_power.is_finite() && zero.at_most(self.beta1_power)
            && self.beta1_power.at_most(one) && self.beta2_power.is_finite() && zero.at_most(
            self.beta2_power,
        ) && self.beta2_power.at_most(one)
    }
}

impl<S: Scalar> Moments<S> {
    /// Whether the state is one that steps along `n` parameters can have led to.
    pub open spec fn valid(self, n: nat) -> bool {
        &&& self.m.len() == n
        &&& self.v.len() == n
        &&& num::all_finite(self.m)
        &&& forall|i: int|
            0 <= i < n ==> (#[trigger] self.v[i]).finite() && num::zero::<S>().is_at_most(self.v[i])
        &&& num::positive(self.learning_rate)
        &&& self.beta1_power.finite() && num::within(self.beta1_power, num::zero(), num::one())
        &&& self.beta2_power.finite() && num::within(self.beta2_power, num::zero(), num::one())
    }
}

/// Whether every number is finite and at least zero.
fn none_negative<S: Scalar>(values: &[S]) -> (r: bool)
    ensures
        num::repeatable::<S>() ==> r == (forall|i: int|
            0 <= i < values@.len() ==> (#[trigger] values@[i]).finite()
                && num::zero::<S>().is_at_most(values@[i])),
{
    let n: usize = values.len();
    for i in 0..n
        invariant
            n == values@.len(),
            num::repeatable::<S>() ==> forall|k: int|
                0 <= k < i ==> (#[trigger] values@[k]).finite() && num::zero::<S>().is_at_most(
                    values@[k],
                ),
    {
        if !values[i].is_finite() || !S::from_count(0).at_most(values[i]) {
            proof {
                if num::repeatable::<S>() {
                    let x = values@[i as int];
                    assert(!(x.finite() && num::zero::<S>().is_at_most(x)));
                }
            }
            return false;
        }
    }
    true
}

} // verus!
