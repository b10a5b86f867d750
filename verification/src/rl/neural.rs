//! Small two-hidden-layer tanh networks that do not allocate at inference.
use crate::num::{self, Meaning, Scalar};
use crate::rl::rng::{self, Rng};
use vstd::prelude::*;
use vstd::slice::slice_subrange;

verus! {

/// A network. The parameters lie in one vector: for each of the three layers its weights, row by
/// row with one row for each output, and then its biases.
#[derive(Debug)]
pub struct Mlp<S> {
    pub input: usize,
    pub hidden: usize,
    pub output: usize,
    pub parameters: Vec<S>,
}

/// The activations of one forward pass and the scratch of one backward pass.
#[derive(Clone, Debug)]
pub struct Workspace<S> {
    pub input: Vec<S>,
    pub h1: Vec<S>,
    pub h2: Vec<S>,
    pub output: Vec<S>,
    pub d1: Vec<S>,
    pub d2: Vec<S>,
    pub input_gradient: Vec<S>,
}

/// One number for each parameter of a network.
#[derive(Clone, Debug)]
pub struct MlpGrad<S> {
    pub data: Vec<S>,
}

/// The value of a network: its three widths and its parameters.
#[verifier::ext_equal]
pub struct Net<S> {
    pub input: nat,
    pub hidden: nat,
    pub output: nat,
    pub p: Seq<S>,
}

/// `start` plus the first `n` products `x[k] * w[row + k]`, added from the left.
pub open spec fn weighted<S: Scalar>(start: S, x: Seq<S>, w: Seq<S>, row: int, n: nat) -> S
    decreases n,
{
    if n == 0 {
        start
    } else {
        weighted(start, x, w, row, (n - 1) as nat).sum(x[n - 1].product(w[row + n - 1]))
    }
}

/// The outputs of a layer with the weights `w`, of which each row has the length of `x`, and the
/// biases `b`.
pub open spec fn layer<S: Scalar>(x: Seq<S>, w: Seq<S>, b: Seq<S>, squash: bool) -> Seq<S> {
    Seq::new(
        b.len(),
        |j: int|
            {
                let s = weighted(b[j], x, w, j * x.len(), x.len());
                if squash {
                    s.hyperbolic_tangent()
                } else {
                    s
                }
            },
    )
}

/// The first `n` products `p[w + j * ins + k] * d[j]`, added from the left.
pub open spec fn pulled_back<S: Scalar>(
    p: Seq<S>,
    w: int,
    ins: nat,
    d: Seq<S>,
    k: int,
    n: nat,
) -> S
    decreases n,
{
    if n == 0 {
        num::zero()
    } else {
        pulled_back(p, w, ins, d, k, (n - 1) as nat).sum(p[w + (n - 1) * ins + k].product(d[n - 1]))
    }
}

/// The derivatives with respect to the `ins` inputs of a layer whose weights start at `p[w]`, for
/// the derivatives `d` with respect to its outputs.
pub open spec fn pull_back<S: Scalar>(p: Seq<S>, w: int, ins: nat, d: Seq<S>) -> Seq<S> {
    Seq::new(ins, |k: int| pulled_back(p, w, ins, d, k, d.len()))
}

/// `d` times the derivative of tanh where tanh is `h`.
pub open spec fn through_tanh<S: Scalar>(d: Seq<S>, h: Seq<S>) -> Seq<S> {
    Seq::new(d.len(), |k: int| d[k].product(num::one::<S>().difference(h[k].product(h[k]))))
}

/// `g` with the parameter derivatives of one layer added: the weights start at `w`, the biases at
/// `b`, the layer's inputs are `x` and the derivatives with respect to its outputs are `d`.
pub open spec fn layer_gradient<S: Scalar>(
    g: Seq<S>,
    w: int,
    b: int,
    x: Seq<S>,
    d: Seq<S>,
) -> Seq<S> {
    Seq::new(
        g.len(),
        |i: int|
            if w <= i < w + d.len() * x.len() {
                g[i].sum(d[(i - w) / x.len() as int].product(x[(i - w) % x.len() as int]))
            } else if b <= i < b + d.len() {
                g[i].sum(d[i - b])
            } else {
                g[i]
            },
    )
}

/// The sum of the first `n` squares.
pub open spec fn wide_squares<S: Scalar>(g: Seq<S>, n: nat) -> S::Wide
    decreases n,
{
    if n == 0 {
        S::wide_nothing()
    } else {
        S::wide_grown(wide_squares(g, (n - 1) as nat), g[n - 1])
    }
}

/// The Euclidean norm of `g`.
pub open spec fn norm_of<S: Scalar>(g: Seq<S>) -> S {
    S::wide_rooted(wide_squares(g, g.len()))
}

/// `g` with each number multiplied by `factor`.
pub open spec fn scaled<S: Scalar>(g: Seq<S>, factor: S) -> Seq<S> {
    Seq::new(g.len(), |i: int| g[i].product(factor))
}

/// The number of parameters of a network with these widths.
pub open spec fn parameter_count(input: nat, hidden: nat, output: nat) -> nat {
    hidden * input + hidden + hidden * hidden + hidden + output * hidden + output
}

/// The half width of the interval from which the weights of a layer are drawn.
pub open spec fn weight_scale<S: Scalar>(ins: nat, outs: nat) -> S {
    S::counted(6).quotient(S::counted((ins + outs) as u64)).root()
}

/// The weight that the draw with the number `k` of a stream in `state` gives.
pub open spec fn weight_draw<S: Scalar>(state: u64, k: nat, scale: S) -> S {
    let u: S = rng::unit_sample(rng::scramble(rng::advanced(state, k + 1)));
    S::counted(2).product(u).difference(num::one()).product(scale)
}

/// The number of weights of a network with these widths.
pub open spec fn weight_count(input: nat, hidden: nat, output: nat) -> nat {
    hidden * input + hidden * hidden + output * hidden
}

/// The network that a stream in `state` starts with: weights drawn in order, biases zero.
pub open spec fn initial_net<S: Scalar>(
    state: u64,
    input: nat,
    hidden: nat,
    output: nat,
) -> Net<S> {
    let shape = Net { input, hidden, output, p: Seq::<S>::empty() };
    shape.with(
        Seq::new(
            parameter_count(input, hidden, output),
            |i: int|
                if i < shape.b1() {
                    weight_draw(state, i as nat, weight_scale(input, hidden))
                } else if i < shape.w2() {
                    num::zero()
                } else if i < shape.b2() {
                    weight_draw(state, (i - hidden) as nat, weight_scale(hidden, hidden))
                } else if i < shape.w3() {
                    num::zero()
                } else if i < shape.b3() {
                    weight_draw(state, (i - 2 * hidden) as nat, weight_scale(hidden, output))
                } else {
                    num::zero()
                },
        ),
    )
}

impl<S: Scalar> Net<S> {
    /// Where the biases of the first layer start.
    pub open spec fn b1(self) -> int {
        (self.hidden * self.input) as int
    }

    /// Where the weights of the second layer start.
    pub open spec fn w2(self) -> int {
        self.b1() + self.hidden
    }

    /// Where the biases of the second layer start.
    pub open spec fn b2(self) -> int {
        self.w2() + self.hidden * self.hidden
    }

    /// Where the weights of the third layer start.
    pub open spec fn w3(self) -> int {
        self.b2() + self.hidden
    }

    /// Where the biases of the third layer start.
    pub open spec fn b3(self) -> int {
        self.w3() + self.output * self.hidden
    }

    /// Whether the widths are positive and the parameters are as many as they call for.
    pub open spec fn wf(self) -> bool {
        &&& self.input > 0
        &&& self.hidden > 0
        &&& self.output > 0
        &&& self.p.len() == parameter_count(self.input, self.hidden, self.output)
    }

    /// Whether two networks have the same widths.
    pub open spec fn same_shape(self, other: Self) -> bool {
        self.input == other.input && self.hidden == other.hidden && self.output == other.output
    }

    /// The network with other parameters.
    pub open spec fn with(self, p: Seq<S>) -> Self {
        Net { input: self.input, hidden: self.hidden, output: self.output, p }
    }

    /// The outputs of the first layer.
    pub open spec fn first(self, x: Seq<S>) -> Seq<S> {
        layer(x, self.p.subrange(0, self.b1()), self.p.subrange(self.b1(), self.w2()), true)
    }

    /// The outputs of the second layer.
    pub open spec fn second(self, x: Seq<S>) -> Seq<S> {
        layer(
            self.first(x),
            self.p.subrange(self.w2(), self.b2()),
            self.p.subrange(self.b2(), self.w3()),
            true,
        )
    }

    /// The outputs of the network.
    pub open spec fn value(self, x: Seq<S>) -> Seq<S> {
        layer(
            self.second(x),
            self.p.subrange(self.w3(), self.b3()),
            self.p.subrange(self.b3(), self.p.len() as int),
            false,
        )
    }

    /// The derivatives before the second tanh, for the activations `h2` and the derivatives `d`
    /// with respect to the outputs.
    pub open spec fn delta2(self, h2: Seq<S>, d: Seq<S>) -> Seq<S> {
        through_tanh(pull_back(self.p, self.w3(), self.hidden, d), h2)
    }

    /// The derivatives before the first tanh.
    pub open spec fn delta1(self, h1: Seq<S>, h2: Seq<S>, d: Seq<S>) -> Seq<S> {
        through_tanh(pull_back(self.p, self.w2(), self.hidden, self.delta2(h2, d)), h1)
    }

    /// The derivatives with respect to the inputs.
    pub open spec fn delta0(self, h1: Seq<S>, h2: Seq<S>, d: Seq<S>) -> Seq<S> {
        pull_back(self.p, 0, self.input, self.delta1(h1, h2, d))
    }

    /// `g` with the derivatives with respect to the parameters added, for the activations `x`,
    /// `h1`, `h2` and the derivatives `d` with respect to the outputs.
    pub open spec fn gradient_at(
        self,
        g: Seq<S>,
        x: Seq<S>,
        h1: Seq<S>,
        h2: Seq<S>,
        d: Seq<S>,
    ) -> Seq<S> {
        let g3 = layer_gradient(g, self.w3(), self.b3(), h2, d);
        let g2 = layer_gradient(g3, self.w2(), self.b2(), h1, self.delta2(h2, d));
        layer_gradient(g2, 0, self.b1(), x, self.delta1(h1, h2, d))
    }

    /// `g` with the derivatives with respect to the parameters added, at the input `x`.
    pub open spec fn gradient(self, g: Seq<S>, x: Seq<S>, d: Seq<S>) -> Seq<S> {
        self.gradient_at(g, x, self.first(x), self.second(x), d)
    }

    /// The derivatives with respect to the inputs, at the input `x`.
    pub open spec fn input_gradient(self, x: Seq<S>, d: Seq<S>) -> Seq<S> {
        self.delta0(self.first(x), self.second(x), d)
    }

    /// The network moved towards `source` by the share `tau`.
    pub open spec fn blended(self, source: Self, tau: S) -> Self {
        self.with(
            Seq::new(
                self.p.len(),
                |i: int|
                    num::one::<S>().difference(tau).product(self.p[i]).sum(
                        tau.product(source.p[i]),
                    ),
            ),
        )
    }
}

impl<S: Scalar> View for Mlp<S> {
    type V = Net<S>;

    open spec fn view(&self) -> Net<S> {
        Net {
            input: self.input as nat,
            hidden: self.hidden as nat,
            output: self.output as nat,
            p: self.parameters@,
        }
    }
}

impl<S: Scalar> Workspace<S> {
    /// Whether the workspace has room for a pass through `net`.
    pub open spec fn fits(&self, net: Net<S>) -> bool {
        &&& self.input@.len() == net.input
        &&& self.h1@.len() == net.hidden
        &&& self.h2@.len() == net.hidden
        &&& self.output@.len() == net.output
        &&& self.d1@.len() == net.hidden
        &&& self.d2@.len() == net.hidden
        &&& self.input_gradient@.len() == net.input
    }

    /// Whether the workspace holds the activations of `net` at the input `x`.
    pub open spec fn holds(&self, net: Net<S>, x: Seq<S>) -> bool {
        &&& self.input@ == x
        &&& self.h1@ == net.first(x)
        &&& self.h2@ == net.second(x)
        &&& self.output@ == net.value(x)
    }
}

/// Computes the outputs of one layer.
fn dense<S: Scalar>(input: &[S], weights: &[S], bias: &[S], out: &mut Vec<S>, squash: bool)
    requires
        weights@.len() == bias@.len() * input@.len(),
        old(out)@.len() == bias@.len(),
    ensures
        final(out)@.len() == bias@.len(),
        num::repeatable::<S>() ==> final(out)@ == layer(input@, weights@, bias@, squash),
{
    let n: usize = input.len();
    let rows: usize = bias.len();
    let size: usize = weights.len();
    let mut row: usize = 0;
    assert(0 * n == 0) by (nonlinear_arith);
    for j in 0..rows
        invariant
            n == input@.len(),
            rows == bias@.len(),
            size == weights@.len() == rows * n,
            row == j * n,
            out@.len() == rows,
            num::repeatable::<S>() ==> forall|i: int|
                0 <= i < j ==> out@[i] == layer(input@, weights@, bias@, squash)[i],
    {
        assert((j + 1) * n == j * n + n && (j + 1) * n <= rows * n) by (nonlinear_arith)
            requires
                j < rows,
        ;
        let mut sum: S = bias[j];
        for k in 0..n
            invariant
                n == input@.len(),
                size == weights@.len(),
                row == j * n,
                row + n <= size,
                j < bias@.len(),
                num::repeatable::<S>() ==> sum == weighted(
                    bias@[j as int],
                    input@,
                    weights@,
                    j * n,
                    k as nat,
                ),
        {
            sum = sum.plus(input[k].times(weights[row + k]));
        }
        out[j] = if squash {
            sum.tanh()
        } else {
            sum
        };
        row = row + n;
    }
    proof {
        if num::repeatable::<S>() {
            assert(out@ =~= layer(input@, weights@, bias@, squash));
        }
    }
}

/// Adds the parameter derivatives of one layer to `grad`, and the derivatives with respect to the
/// layer's inputs to `back`, which holds zeros.
fn layer_backward<S: Scalar>(
    parameters: &Vec<S>,
    grad: &mut Vec<S>,
    w: usize,
    b: usize,
    x: &[S],
    d: &[S],
    back: &mut Vec<S>,
)
    requires
        x@.len() > 0,
        w + d@.len() * x@.len() <= b,
        b + d@.len() <= old(grad)@.len(),
        parameters@.len() == old(grad)@.len(),
        old(back)@ == num::copies(num::zero::<S>(), x@.len()) || !num::repeatable::<S>(),
        old(back)@.len() == x@.len(),
    ensures
        final(grad)@.len() == old(grad)@.len(),
        final(back)@.len() == old(back)@.len(),
        num::repeatable::<S>() ==> final(grad)@ == layer_gradient(
            old(grad)@,
            w as int,
            b as int,
            x@,
            d@,
        ),
        num::repeatable::<S>() ==> final(back)@ == pull_back(parameters@, w as int, x@.len(), d@),
{
    let ins: usize = x.len();
    let outs: usize = d.len();
    let size: usize = grad.len();
    let ghost g0 = grad@;
    let ghost target = layer_gradient(g0, w as int, b as int, x@, d@);
    let mut row: usize = w;
    assert(0 * ins == 0) by (nonlinear_arith);
    for j in 0..outs
        invariant
            ins == x@.len() > 0,
            outs == d@.len(),
            size == parameters@.len() == grad@.len() == g0.len(),
            w + outs * ins <= b,
            b + outs <= size,
            row == w + j * ins,
            back@.len() == ins,
            target == layer_gradient(g0, w as int, b as int, x@, d@),
            num::repeatable::<S>() ==> forall|i: int|
                0 <= i < size ==> #[trigger] grad@[i] == (if w <= i < row || b <= i < b + j {
                    target[i]
                } else {
                    g0[i]
                }),
            num::repeatable::<S>() ==> forall|k: int|
                0 <= k < ins ==> back@[k] == pulled_back(
                    parameters@,
                    w as int,
                    ins as nat,
                    d@,
                    k,
                    j as nat,
                ),
    {
        assert((j + 1) * ins == j * ins + ins && (j + 1) * ins <= outs * ins) by (nonlinear_arith)
            requires
                j < outs,
        ;
        let v: S = d[j];
        grad[b + j] = grad[b + j].plus(v);
        for k in 0..ins
            invariant
                ins == x@.len() > 0,
                outs == d@.len(),
                size == parameters@.len() == grad@.len() == g0.len(),
                w + outs * ins <= b,
                b + outs <= size,
                j < outs,
                v == d@[j as int],
                row == w + j * ins,
                row + ins <= b,
                back@.len() == ins,
                target == layer_gradient(g0, w as int, b as int, x@, d@),
                num::repeatable::<S>() ==> forall|i: int|
                    0 <= i < size ==> #[trigger] grad@[i] == (if w <= i < row + k || b <= i < b + j
                        + 1 {
                        target[i]
                    } else {
                        g0[i]
                    }),
                num::repeatable::<S>() ==> forall|q: int|
                    0 <= q < ins ==> back@[q] == pulled_back(
                        parameters@,
                        w as int,
                        ins as nat,
                        d@,
                        q,
                        if q < k {
                            (j + 1) as nat
                        } else {
                            j as nat
                        },
                    ),
        {
            proof {
                vstd::arithmetic::div_mod::lemma_fundamental_div_mod_converse(
                    row + k - w,
                    ins as int,
                    j as int,
                    k as int,
                );
                assert(j * ins + k < outs * ins) by (nonlinear_arith)
                    requires
                        j < outs,
                        k < ins,
                ;
            }
            grad[row + k] = grad[row + k].plus(v.times(x[k]));
            back[k] = back[k].plus(parameters[row + k].times(v));
        }
        row = row + ins;
    }
    proof {
        if num::repeatable::<S>() {
            assert(grad@ =~= target);
            assert(back@ =~= pull_back(parameters@, w as int, x@.len(), d@));
        }
    }
}

/// Multiplies each entry of `d` by the derivative of tanh where tanh is the entry of `h`.
fn squash_backward<S: Scalar>(d: &mut Vec<S>, h: &Vec<S>)
    requires
        old(d)@.len() == h@.len(),
    ensures
        final(d)@.len() == old(d)@.len(),
        num::repeatable::<S>() ==> final(d)@ == through_tanh(old(d)@, h@),
{
    let n: usize = d.len();
    for k in 0..n
        invariant
            n == d@.len() == h@.len() == old(d)@.len(),
            num::repeatable::<S>() ==> forall|i: int|
                0 <= i < n ==> #[trigger] d@[i] == (if i < k {
                    through_tanh(old(d)@, h@)[i]
                } else {
                    old(d)@[i]
                }),
    {
        d[k] = d[k].times(S::from_count(1).minus(h[k].times(h[k])));
    }
    proof {
        if num::repeatable::<S>() {
            assert(d@ =~= through_tanh(old(d)@, h@));
        }
    }
}

impl<S: Scalar> MlpGrad<S> {
    /// Zeros, one for each parameter of `model`.
    pub fn new(model: &Mlp<S>) -> (r: Self)
        ensures
            r.data@.len() == model@.p.len(),
            num::repeatable::<S>() ==> r.data@ == num::copies(num::zero::<S>(), model@.p.len()),
    {
        MlpGrad { data: num::repeat(S::from_count(0), model.parameters.len()) }
    }

    /// Makes every number zero.
    pub fn zero(&mut self)
        ensures
            final(self).data@.len() == old(self).data@.len(),
            num::repeatable::<S>() ==> final(self).data@ == num::copies(
                num::zero::<S>(),
                old(self).data@.len(),
            ),
    {
        num::fill(&mut self.data, S::from_count(0));
    }

    /// Multiplies every number by `factor`.
    pub fn scale(&mut self, factor: S)
        ensures
            final(self).data@.len() == old(self).data@.len(),
            num::repeatable::<S>() ==> final(self).data@ == scaled(old(self).data@, factor),
    {
        let n: usize = self.data.len();
        for i in 0..n
            invariant
                n == self.data@.len() == old(self).data@.len(),
                num::repeatable::<S>() ==> forall|k: int|
                    0 <= k < n ==> #[trigger] self.data@[k] == (if k < i {
                        scaled(old(self).data@, factor)[k]
                    } else {
                        old(self).data@[k]
                    }),
        {
            self.data[i] = self.data[i].times(factor);
        }
        proof {
            if num::repeatable::<S>() {
                assert(self.data@ =~= scaled(old(self).data@, factor));
            }
        }
    }

    /// The Euclidean norm, accumulated in wide numbers.
    pub fn norm(&self) -> (r: S)
        ensures
            num::repeatable::<S>() ==> r == norm_of(self.data@),
    {
        let mut acc: S::Wide = S::wide_zero();
        let n: usize = self.data.len();
        for i in 0..n
            invariant
                n == self.data@.len(),
                num::repeatable::<S>() ==> acc == wide_squares(self.data@, i as nat),
        {
            acc = S::wide_plus_square(acc, self.data[i]);
        }
        S::wide_root(acc)
    }

    /// Whether every number is finite.
    pub fn is_finite(&self) -> (r: bool)
        ensures
            num::repeatable::<S>() ==> r == num::all_finite(self.data@),
    {
        num::every_finite(self.data.as_slice())
    }
}

impl<S: Scalar> Clone for Mlp<S> {
    fn clone(&self) -> (r: Self)
        ensures
            r@ == self@,
    {
        Mlp {
            input: self.input,
            hidden: self.hidden,
            output: self.output,
            parameters: vstd::slice::slice_to_vec(self.parameters.as_slice()),
        }
    }
}

/// Draws the weights of a layer with `ins` inputs and `outs` outputs into `parameters` at `at`.
fn draw_weights<S: Scalar>(
    parameters: &mut Vec<S>,
    at: usize,
    ins: usize,
    outs: usize,
    count: usize,
    rng: &mut Rng<S>,
)
    requires
        at + count <= old(parameters)@.len(),
        ins + outs <= usize::MAX,
    ensures
        final(parameters)@.len() == old(parameters)@.len(),
        final(rng).spare == old(rng).spare,
        final(rng).state == rng::advanced(old(rng).state, count as nat),
        num::repeatable::<S>() ==> forall|i: int|
            0 <= i < final(parameters)@.len() ==> #[trigger] final(parameters)@[i] == (if at <= i
                < at + count {
                weight_draw(
                    old(rng).state,
                    (i - at) as nat,
                    weight_scale(ins as nat, outs as nat),
                )
            } else {
                old(parameters)@[i]
            }),
{
    let scale: S = S::from_count(6).over(S::from_count((ins + outs) as u64)).sqrt();
    let size: usize = parameters.len();
    for k in 0..count
        invariant
            size == parameters@.len() == old(parameters)@.len(),
            at + count <= size,
            rng.spare == old(rng).spare,
            rng.state == rng::advanced(old(rng).state, k as nat),
            num::repeatable::<S>() ==> scale == weight_scale::<S>(ins as nat, outs as nat),
            num::repeatable::<S>() ==> forall|i: int|
                0 <= i < size ==> #[trigger] parameters@[i] == (if at <= i < at + k {
                    weight_draw(
                        old(rng).state,
                        (i - at) as nat,
                        weight_scale(ins as nat, outs as nat),
                    )
                } else {
                    old(parameters)@[i]
                }),
    {
        let u: S = rng.uniform();
        parameters[at + k] = S::from_count(2).times(u).minus(S::from_count(1)).times(scale);
    }
}

/// A stream that has moved by `m` and then by `n` words has moved by `m + n`.
proof fn lemma_advanced(state: u64, m: nat, n: nat)
    ensures
        rng::advanced(rng::advanced(state, m), n) == rng::advanced(state, m + n),
    decreases n,
{
    if n > 0 {
        lemma_advanced(state, m, (n - 1) as nat);
    }
}

/// The number of parameters of a network with these widths, if it can be counted.
pub fn checked_count(input: usize, hidden: usize, output: usize) -> (r: Option<usize>)
    ensures
        r == (if parameter_count(input as nat, hidden as nat, output as nat) <= usize::MAX {
            Some(parameter_count(input as nat, hidden as nat, output as nat) as usize)
        } else {
            None
        }),
{
    match (hidden.checked_mul(input), hidden.checked_mul(hidden), output.checked_mul(hidden)) {
        (Some(first), Some(second), Some(third)) => {
            let n: usize = match first.checked_add(hidden) {
                Some(n) => n,
                None => return None,
            };
            let n: usize = match n.checked_add(second) {
                Some(n) => n,
                None => return None,
            };
            let n: usize = match n.checked_add(hidden) {
                Some(n) => n,
                None => return None,
            };
            let n: usize = match n.checked_add(third) {
                Some(n) => n,
                None => return None,
            };
            n.checked_add(output)
        },
        _ => None,
    }
}

impl<S: Scalar> Mlp<S> {
    /// A network with weights drawn from `rng` and zero biases.
    pub fn new(input: usize, hidden: usize, output: usize, rng: &mut Rng<S>) -> (r: Self)
        requires
            input > 0,
            hidden > 0,
            output > 0,
            parameter_count(input as nat, hidden as nat, output as nat) <= usize::MAX,
        ensures
            r@.wf(),
            r@.input == input,
            r@.hidden == hidden,
            r@.output == output,
            final(rng).spare == old(rng).spare,
            final(rng).state == rng::advanced(
                old(rng).state,
                weight_count(input as nat, hidden as nat, output as nat),
            ),
            num::repeatable::<S>() ==> r@ == initial_net::<S>(
                old(rng).state,
                input as nat,
                hidden as nat,
                output as nat,
            ),
    {
        let ghost shape = Net {
            input: input as nat,
            hidden: hidden as nat,
            output: output as nat,
            p: Seq::<S>::new(
                parameter_count(input as nat, hidden as nat, output as nat),
                |i: int| num::zero::<S>(),
            ),
        };
        proof {
            lemma_offsets(shape);
            assert(input <= hidden * input) by (nonlinear_arith)
                requires
                    hidden > 0,
            ;
        }
        let b1: usize = hidden * input;
        let w2: usize = b1 + hidden;
        let second: usize = hidden * hidden;
        let w3: usize = w2 + second + hidden;
        let third: usize = output * hidden;
        let n: usize = w3 + third + output;
        let mut parameters: Vec<S> = num::repeat(S::from_count(0), n);
        let ghost start = rng.state;
        draw_weights(&mut parameters, 0, input, hidden, b1, rng);
        draw_weights(&mut parameters, w2, hidden, hidden, second, rng);
        draw_weights(&mut parameters, w3, hidden, output, third, rng);
        proof {
            lemma_advanced(start, b1 as nat, second as nat);
            lemma_advanced(start, (b1 + second) as nat, third as nat);
            if num::repeatable::<S>() {
                let want = initial_net::<S>(start, input as nat, hidden as nat, output as nat).p;
                assert forall|i: int| 0 <= i < n implies #[trigger] parameters@[i] == want[i] by {
                    if w2 <= i < w2 + second {
                        lemma_advanced(start, b1 as nat, (i - w2 + 1) as nat);
                        assert((b1 + (i - w2 + 1)) as nat == (i - hidden) as nat + 1);
                    } else if w3 <= i < w3 + third {
                        lemma_advanced(start, (b1 + second) as nat, (i - w3 + 1) as nat);
                        assert((b1 + second + (i - w3 + 1)) as nat == (i - 2 * hidden) as nat + 1);
                    }
                }
                assert(parameters@ =~= want);
            }
        }
        Mlp { input, hidden, output, parameters }
    }

    /// Whether the widths are positive, the parameters as many as they call for, and all finite.
    pub fn validate(&self) -> (r: bool)
        ensures
            r ==> self@.wf(),
            num::repeatable::<S>() ==> r == (self@.wf() && num::all_finite(self@.p)),
    {
        let held: usize = self.parameters.len();
        match checked_count(self.input, self.hidden, self.output) {
            Some(n) => self.input > 0 && self.hidden > 0 && self.output > 0 && n == held
                && self.is_finite(),
            None => false,
        }
    }

    /// Whether the widths are positive and the parameters as many as they call for.
    pub fn is_shaped(&self) -> (r: bool)
        ensures
            r == self@.wf(),
    {
        let held: usize = self.parameters.len();
        match checked_count(self.input, self.hidden, self.output) {
            Some(n) => self.input > 0 && self.hidden > 0 && self.output > 0 && n == held,
            None => false,
        }
    }

    /// The width of the input.
    pub fn input_dim(&self) -> (r: usize)
        ensures
            r == self@.input,
    {
        self.input
    }

    /// The width of the output.
    pub fn output_dim(&self) -> (r: usize)
        ensures
            r == self@.output,
    {
        self.output
    }

    /// The width of the hidden layers.
    pub fn hidden_dim(&self) -> (r: usize)
        ensures
            r == self@.hidden,
    {
        self.hidden
    }

    /// The parameters.
    pub fn parameters(&self) -> (r: &[S])
        ensures
            r@ == self@.p,
    {
        self.parameters.as_slice()
    }

    /// The parameters, to be changed in place.
    pub fn parameters_mut(&mut self) -> (r: &mut [S])
        ensures
            r@ == old(self)@.p,
            final(self)@ == old(self)@.with(final(r)@),
    {
        self.parameters.as_mut_slice()
    }

    /// A workspace with room for a pass through this network.
    pub fn workspace(&self) -> (r: Workspace<S>)
        ensures
            r.fits(self@),
            num::repeatable::<S>() ==> {
                &&& r.input@ == num::copies(num::zero::<S>(), self@.input)
                &&& r.h1@ == num::copies(num::zero::<S>(), self@.hidden)
                &&& r.h2@ == num::copies(num::zero::<S>(), self@.hidden)
                &&& r.output@ == num::copies(num::zero::<S>(), self@.output)
                &&& r.d1@ == num::copies(num::zero::<S>(), self@.hidden)
                &&& r.d2@ == num::copies(num::zero::<S>(), self@.hidden)
                &&& r.input_gradient@ == num::copies(num::zero::<S>(), self@.input)
            },
    {
        Workspace {
            input: num::repeat(S::from_count(0), self.input),
            h1: num::repeat(S::from_count(0), self.hidden),
            h2: num::repeat(S::from_count(0), self.hidden),
            output: num::repeat(S::from_count(0), self.output),
            d1: num::repeat(S::from_count(0), self.hidden),
            d2: num::repeat(S::from_count(0), self.hidden),
            input_gradient: num::repeat(S::from_count(0), self.input),
        }
    }

    /// Computes the outputs at `input`, and leaves the activations in `w`.
    pub fn forward<'a>(&self, input: &[S], w: &'a mut Workspace<S>) -> (r: &'a [S])
        requires
            self@.wf(),
            old(w).fits(self@),
            input@.len() == self@.input,
        ensures
            r@ == final(w).output@,
            r@.len() == self@.output,
            final(w).fits(self@),
            final(w).input@ == input@,
            num::repeatable::<S>() ==> final(w).holds(self@, input@),
    {
        let h: usize = self.hidden;
        let size: usize = self.parameters.len();
        proof {
            lemma_offsets(self@);
        }
        num::overwrite(&mut w.input, 0, input);
        assert(w.input@ =~= input@);
        let p: &[S] = self.parameters.as_slice();
        let b1: usize = h * self.input;
        let w2: usize = b1 + h;
        dense(
            w.input.as_slice(),
            slice_subrange(p, 0, b1),
            slice_subrange(p, b1, w2),
            &mut w.h1,
            true,
        );
        let b2: usize = w2 + h * h;
        let w3: usize = b2 + h;
        dense(
            w.h1.as_slice(),
            slice_subrange(p, w2, b2),
            slice_subrange(p, b2, w3),
            &mut w.h2,
            true,
        );
        let b3: usize = w3 + self.output * h;
        dense(
            w.h2.as_slice(),
            slice_subrange(p, w3, b3),
            slice_subrange(p, b3, size),
            &mut w.output,
            false,
        );
        w.output.as_slice()
    }

    /// Adds the parameter derivatives to `grad` and returns the derivatives with respect to the
    /// input. Must follow a forward pass in `w`.
    pub fn backward<'a>(
        &self,
        w: &'a mut Workspace<S>,
        output_gradient: &[S],
        grad: &mut MlpGrad<S>,
    ) -> (r: &'a [S])
        requires
            self@.wf(),
            old(w).fits(self@),
            output_gradient@.len() == self@.output,
            old(grad).data@.len() == self@.p.len(),
        ensures
            r@ == final(w).input_gradient@,
            r@.len() == self@.input,
            final(w).fits(self@),
            final(w).input == old(w).input,
            final(w).h1 == old(w).h1,
            final(w).h2 == old(w).h2,
            final(w).output == old(w).output,
            final(grad).data@.len() == old(grad).data@.len(),
            num::repeatable::<S>() ==> r@ == self@.delta0(
                old(w).h1@,
                old(w).h2@,
                output_gradient@,
            ),
            num::repeatable::<S>() ==> final(grad).data@ == self@.gradient_at(
                old(grad).data@,
                old(w).input@,
                old(w).h1@,
                old(w).h2@,
                output_gradient@,
            ),
    {
        let h: usize = self.hidden;
        let size: usize = self.parameters.len();
        proof {
            lemma_offsets(self@);
        }
        let b1: usize = h * self.input;
        let w2: usize = b1 + h;
        let b2: usize = w2 + h * h;
        let w3: usize = b2 + h;
        let b3: usize = w3 + self.output * h;
        num::fill(&mut w.d2, S::from_count(0));
        layer_backward(
            &self.parameters,
            &mut grad.data,
            w3,
            b3,
            w.h2.as_slice(),
            output_gradient,
            &mut w.d2,
        );
        squash_backward(&mut w.d2, &w.h2);
        num::fill(&mut w.d1, S::from_count(0));
        layer_backward(
            &self.parameters,
            &mut grad.data,
            w2,
            b2,
            w.h1.as_slice(),
            w.d2.as_slice(),
            &mut w.d1,
        );
        squash_backward(&mut w.d1, &w.h1);
        num::fill(&mut w.input_gradient, S::from_count(0));
        layer_backward(
            &self.parameters,
            &mut grad.data,
            0,
            b1,
            w.input.as_slice(),
            w.d1.as_slice(),
            &mut w.input_gradient,
        );
        w.input_gradient.as_slice()
    }

    /// Moves the parameters towards those of `source` by the share `tau`.
    pub fn soft_update(&mut self, source: &Mlp<S>, tau: S)
        requires
            old(self)@.wf(),
            source@.wf(),
            old(self)@.same_shape(source@),
            num::repeatable::<S>() ==> num::within(tau, num::zero(), num::one()),
        ensures
            final(self)@.same_shape(old(self)@),
            final(self)@.wf(),
            num::repeatable::<S>() ==> final(self)@ == old(self)@.blended(source@, tau),
    {
        let n: usize = self.parameters.len();
        for i in 0..n
            invariant
                n == self.parameters@.len() == source.parameters@.len() == old(self)@.p.len(),
                self@.same_shape(old(self)@),
                num::repeatable::<S>() ==> forall|k: int|
                    0 <= k < n ==> #[trigger] self.parameters@[k] == (if k < i {
                        old(self)@.blended(source@, tau).p[k]
                    } else {
                        old(self)@.p[k]
                    }),
        {
            self.parameters[i] =
            S::from_count(1).minus(tau).times(self.parameters[i]).plus(
                tau.times(source.parameters[i]),
            );
        }
        proof {
            if num::repeatable::<S>() {
                assert(self.parameters@ =~= old(self)@.blended(source@, tau).p);
            }
        }
    }

    /// Whether every parameter is finite.
    pub fn is_finite(&self) -> (r: bool)
        ensures
            num::repeatable::<S>() ==> r == num::all_finite(self@.p),
    {
        num::every_finite(self.parameters.as_slice())
    }
}

/// The layers lie in the parameters one after the other.
proof fn lemma_offsets<S: Scalar>(net: Net<S>)
    requires
        net.wf(),
    ensures
        0 < net.b1() < net.w2() < net.b2() < net.w3() < net.b3() < net.p.len(),
        net.p.len() - net.b3() == net.output,
        net.b2() - net.w2() == net.hidden * net.hidden,
        net.b3() - net.w3() == net.output * net.hidden,
{
    assert(net.hidden * net.input > 0 && net.hidden * net.hidden > 0 && net.output * net.hidden > 0)
        by (nonlinear_arith)
        requires
            net.hidden > 0,
            net.input > 0,
            net.output > 0,
    ;
}

} // verus!
