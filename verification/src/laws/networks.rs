//! What networks compute, and what is passed back through them.
use crate::laws::algebra;
use crate::laws::exact::exact;
use crate::laws::sampling;
use crate::num::{Meaning, Scalar};
use crate::rl::neural::{self, Net};
use crate::rl::rng::{self, Rng};
use vstd::prelude::*;

verus! {

/// The first `n` products of the numbers of `x` with the numbers of `p` from the place `at` on, added
/// up.
pub open spec fn dot<S: Scalar>(v: spec_fn(S) -> real, p: Seq<S>, at: int, x: Seq<S>, n: nat) -> real
    decreases n,
{
    if n == 0 {
        0real
    } else {
        dot(v, p, at, x, (n - 1) as nat) + v(x[n - 1]) * v(p[at + n - 1])
    }
}

/// A weighted sum reads as its start and the products.
proof fn lemma_weighted<S: Scalar>(
    v: spec_fn(S) -> real,
    start: S,
    x: Seq<S>,
    w: Seq<S>,
    row: int,
    n: nat,
)
    requires
        exact(v),
    ensures
        v(neural::weighted(start, x, w, row, n)) == v(start) + dot(v, w, row, x, n),
    decreases n,
{
    if n > 0 {
        lemma_weighted(v, start, x, w, row, (n - 1) as nat);
    }
}

/// An output of a layer is its bias and the products of the inputs with the weights of its row; a
/// hidden one is squashed, so that it lies between minus one and one.
pub proof fn law_layers_weigh_inputs<S: Scalar>(
    v: spec_fn(S) -> real,
    x: Seq<S>,
    w: Seq<S>,
    b: Seq<S>,
    j: int,
)
    requires
        exact(v),
        0 <= j < b.len(),
    ensures
        v(neural::layer(x, w, b, false)[j]) == v(b[j]) + dot(v, w, j * x.len(), x, x.len()),
        neural::layer(x, w, b, true)[j] == neural::layer(x, w, b, false)[j].hyperbolic_tangent(),
        -1real < v(neural::layer(x, w, b, true)[j]) < 1real,
{
    lemma_weighted(v, b[j], x, w, j * x.len(), x.len());
}

/// What the first `m` inputs are times what is passed back to them from the first `n` outputs.
pub open spec fn received<S: Scalar>(
    v: spec_fn(S) -> real,
    p: Seq<S>,
    w: int,
    ins: nat,
    d: Seq<S>,
    n: nat,
    x: Seq<S>,
    m: nat,
) -> real
    decreases m,
{
    if m == 0 {
        0real
    } else {
        received(v, p, w, ins, d, n, x, (m - 1) as nat) + v(x[m - 1]) * v(
            neural::pulled_back(p, w, ins, d, m - 1, n),
        )
    }
}

/// What the first `n` derivatives are times what the inputs contribute to their outputs.
pub open spec fn sent<S: Scalar>(
    v: spec_fn(S) -> real,
    p: Seq<S>,
    w: int,
    ins: nat,
    d: Seq<S>,
    n: nat,
    x: Seq<S>,
) -> real
    decreases n,
{
    if n == 0 {
        0real
    } else {
        sent(v, p, w, ins, d, (n - 1) as nat, x) + v(d[n - 1]) * dot(
            v,
            p,
            w + (n - 1) * ins,
            x,
            ins,
        )
    }
}

/// One more output.
proof fn lemma_one_more_output<S: Scalar>(
    v: spec_fn(S) -> real,
    p: Seq<S>,
    w: int,
    ins: nat,
    d: Seq<S>,
    n: nat,
    x: Seq<S>,
    m: nat,
)
    requires
        exact(v),
        n > 0,
    ensures
        received(v, p, w, ins, d, n, x, m) == received(v, p, w, ins, d, (n - 1) as nat, x, m) + v(
            d[n - 1],
        ) * dot(v, p, w + (n - 1) * ins, x, m),
    decreases m,
{
    let e = v(d[n - 1]);
    let at = w + (n - 1) * ins;
    if m == 0 {
        algebra::lemma_units(e);
    } else {
        lemma_one_more_output(v, p, w, ins, d, n, x, (m - 1) as nat);
        let y = v(x[m - 1]);
        let q = v(p[w + (n - 1) * ins + (m - 1)]);
        assert(at + m - 1 == w + (n - 1) * ins + (m - 1));
        let before = v(neural::pulled_back(p, w, ins, d, m - 1, (n - 1) as nat));
        assert(v(neural::pulled_back(p, w, ins, d, m - 1, n)) == before + q * e);
        algebra::lemma_distributes(before, q * e, y);
        algebra::lemma_swap(y, q, e);
        algebra::lemma_signs(y * q, e);
        algebra::lemma_distributes(dot(v, p, at, x, (m - 1) as nat), y * q, e);
    }
}

/// Nothing is passed back from no outputs.
proof fn lemma_no_output<S: Scalar>(
    v: spec_fn(S) -> real,
    p: Seq<S>,
    w: int,
    ins: nat,
    d: Seq<S>,
    x: Seq<S>,
    m: nat,
)
    requires
        exact(v),
    ensures
        received(v, p, w, ins, d, 0, x, m) == 0real,
    decreases m,
{
    if m > 0 {
        lemma_no_output(v, p, w, ins, d, x, (m - 1) as nat);
        algebra::lemma_units(v(x[m - 1]));
    }
}

/// What is passed back through a layer is the transpose of what it computes: the inputs times what is
/// passed back to them are the derivatives times what the inputs contribute to the outputs.
pub proof fn law_passing_back_is_transposed<S: Scalar>(
    v: spec_fn(S) -> real,
    p: Seq<S>,
    w: int,
    ins: nat,
    d: Seq<S>,
    n: nat,
    x: Seq<S>,
)
    requires
        exact(v),
    ensures
        received(v, p, w, ins, d, n, x, ins) == sent(v, p, w, ins, d, n, x),
    decreases n,
{
    if n == 0 {
        lemma_no_output(v, p, w, ins, d, x, ins);
    } else {
        law_passing_back_is_transposed(v, p, w, ins, d, (n - 1) as nat, x);
        lemma_one_more_output(v, p, w, ins, d, n, x, ins);
    }
}

/// What is passed back through tanh is multiplied by one less its square: it keeps its sign, and does
/// not grow.
pub proof fn law_tanh_flattens<S: Scalar>(
    v: spec_fn(S) -> real,
    d: Seq<S>,
    h: Seq<S>,
    k: int,
)
    requires
        exact(v),
        0 <= k < d.len(),
        -1real < v(h[k]) < 1real,
    ensures
        ({
            let a = v(d[k]);
            let b = v(neural::through_tanh(d, h)[k]);
            &&& b == a * (1real - v(h[k]) * v(h[k]))
            &&& a > 0real ==> 0real < b <= a
            &&& a < 0real ==> 0real > b >= a
            &&& a == 0real ==> b == 0real
            &&& v(h[k]) == 0real ==> b == a
        }),
{
    let x = v(h[k]);
    let a = v(d[k]);
    algebra::lemma_positive(1real - x, 1real + x);
    algebra::lemma_distributes(1real, x, 1real + x);
    algebra::lemma_distributes(1real, x, x);
    algebra::lemma_units(x);
    algebra::lemma_units(a);
    algebra::lemma_units(1real + x);
    algebra::lemma_not_negative(x);
    let room = 1real - x * x;
    assert(0real < room <= 1real);
    algebra::lemma_signs(a, room);
    algebra::lemma_sign_of_factor(room, a);
    algebra::lemma_scaled_order(room, 1real, a);
    algebra::lemma_units(0real);
}

/// The place of a weight in its matrix.
proof fn lemma_place(j: int, k: int, rows: nat, n: nat)
    requires
        0 <= j < rows,
        0 <= k < n,
    ensures
        0 <= j * n + k < rows * n,
        (j * n + k) / n as int == j,
        (j * n + k) % n as int == k,
{
    vstd::arithmetic::mul::lemma_mul_inequality(j + 1, rows as int, n as int);
    vstd::arithmetic::mul::lemma_mul_is_distributive_add_other_way(n as int, j, 1);
    vstd::arithmetic::mul::lemma_mul_nonnegative(j, n as int);
    vstd::arithmetic::div_mod::lemma_fundamental_div_mod_converse(j * n + k, n as int, j, k);
}

/// The derivative with respect to a weight is that of its output times its input, and the one with
/// respect to a bias is that of its output; both are added to what was there.
pub proof fn law_weights_learn_from_their_inputs<S: Scalar>(
    v: spec_fn(S) -> real,
    g: Seq<S>,
    w: int,
    b: int,
    x: Seq<S>,
    d: Seq<S>,
    j: int,
    k: int,
)
    requires
        exact(v),
        0 <= w,
        w + d.len() * x.len() <= b,
        b + d.len() <= g.len(),
        0 <= j < d.len(),
        0 <= k < x.len(),
    ensures
        ({
            let r = neural::layer_gradient(g, w, b, x, d);
            let i = w + j * x.len() + k;
            &&& v(r[i]) == v(g[i]) + v(d[j]) * v(x[k])
            &&& v(r[b + j]) == v(g[b + j]) + v(d[j])
        }),
{
    lemma_place(j, k, d.len(), x.len());
    let i = w + j * x.len() + k;
    assert(i - w == j * x.len() + k);
}

/// What lies outside a layer's parameters is not touched.
proof fn lemma_untouched<S: Scalar>(g: Seq<S>, w: int, b: int, x: Seq<S>, d: Seq<S>, i: int)
    requires
        0 <= i < g.len(),
        !(w <= i < w + d.len() * x.len()),
        !(b <= i < b + d.len()),
    ensures
        neural::layer_gradient(g, w, b, x, d)[i] == g[i],
{
}

/// The parameters stand layer by layer: weights, then biases.
proof fn lemma_layout<S: Scalar>(net: Net<S>)
    requires
        net.wf(),
    ensures
        net.b1() == net.hidden * net.input,
        net.w2() == net.b1() + net.hidden,
        net.b2() == net.w2() + net.hidden * net.hidden,
        net.w3() == net.b2() + net.hidden,
        net.b3() == net.w3() + net.output * net.hidden,
        net.p.len() == net.b3() + net.output,
        net.b1() >= 0,
        net.b2() >= net.w2(),
        net.b3() >= net.w3(),
{
    vstd::arithmetic::mul::lemma_mul_is_commutative(net.input as int, net.hidden as int);
    vstd::arithmetic::mul::lemma_mul_is_commutative(net.output as int, net.hidden as int);
    vstd::arithmetic::mul::lemma_mul_nonnegative(net.hidden as int, net.input as int);
    vstd::arithmetic::mul::lemma_mul_nonnegative(net.hidden as int, net.hidden as int);
    vstd::arithmetic::mul::lemma_mul_nonnegative(net.output as int, net.hidden as int);
}

/// The last layer learns from the derivatives at the outputs and from the second hidden layer.
pub proof fn law_last_layer_learns<S: Scalar>(
    v: spec_fn(S) -> real,
    net: Net<S>,
    g: Seq<S>,
    x: Seq<S>,
    d: Seq<S>,
    j: int,
    k: int,
)
    requires
        exact(v),
        net.wf(),
        g.len() == net.p.len(),
        x.len() == net.input,
        d.len() == net.output,
        0 <= j < net.output,
        0 <= k < net.hidden,
    ensures
        ({
            let r = net.gradient(g, x, d);
            let i = net.w3() + j * net.hidden + k;
            &&& v(r[i]) == v(g[i]) + v(d[j]) * v(net.second(x)[k])
            &&& v(r[net.b3() + j]) == v(g[net.b3() + j]) + v(d[j])
        }),
{
    lemma_layout(net);
    let h1 = net.first(x);
    let h2 = net.second(x);
    let g3 = neural::layer_gradient(g, net.w3(), net.b3(), h2, d);
    let d2 = net.delta2(h2, d);
    let g2 = neural::layer_gradient(g3, net.w2(), net.b2(), h1, d2);
    let d1 = net.delta1(h1, h2, d);
    assert(h1.len() == net.hidden);
    assert(h2.len() == net.hidden);
    law_weights_learn_from_their_inputs(v, g, net.w3(), net.b3(), h2, d, j, k);
    lemma_place(j, k, net.output, net.hidden);
    let i = net.w3() + j * net.hidden + k;
    lemma_untouched(g3, net.w2(), net.b2(), h1, d2, i);
    lemma_untouched(g3, net.w2(), net.b2(), h1, d2, net.b3() + j);
    vstd::arithmetic::mul::lemma_mul_is_commutative(net.hidden as int, net.input as int);
    lemma_untouched(g2, 0, net.b1(), x, d1, i);
    lemma_untouched(g2, 0, net.b1(), x, d1, net.b3() + j);
}

/// The second layer learns from what is passed back to it and from the first hidden layer.
pub proof fn law_second_layer_learns<S: Scalar>(
    v: spec_fn(S) -> real,
    net: Net<S>,
    g: Seq<S>,
    x: Seq<S>,
    d: Seq<S>,
    j: int,
    k: int,
)
    requires
        exact(v),
        net.wf(),
        g.len() == net.p.len(),
        x.len() == net.input,
        d.len() == net.output,
        0 <= j < net.hidden,
        0 <= k < net.hidden,
    ensures
        ({
            let r = net.gradient(g, x, d);
            let i = net.w2() + j * net.hidden + k;
            let h = v(net.second(x)[j]);
            let back = v(
                neural::pulled_back(net.p, net.w3(), net.hidden, d, j, net.output),
            ) * (1real - h * h);
            &&& v(r[i]) == v(g[i]) + back * v(net.first(x)[k])
            &&& v(r[net.b2() + j]) == v(g[net.b2() + j]) + back
        }),
{
    lemma_layout(net);
    let h1 = net.first(x);
    let h2 = net.second(x);
    let g3 = neural::layer_gradient(g, net.w3(), net.b3(), h2, d);
    let d2 = net.delta2(h2, d);
    let g2 = neural::layer_gradient(g3, net.w2(), net.b2(), h1, d2);
    let d1 = net.delta1(h1, h2, d);
    assert(h1.len() == net.hidden);
    assert(h2.len() == net.hidden);
    lemma_place(j, k, net.hidden, net.hidden);
    let i = net.w2() + j * net.hidden + k;
    lemma_untouched(g, net.w3(), net.b3(), h2, d, i);
    lemma_untouched(g, net.w3(), net.b3(), h2, d, net.b2() + j);
    law_weights_learn_from_their_inputs(v, g3, net.w2(), net.b2(), h1, d2, j, k);
    vstd::arithmetic::mul::lemma_mul_is_commutative(net.hidden as int, net.input as int);
    lemma_untouched(g2, 0, net.b1(), x, d1, i);
    lemma_untouched(g2, 0, net.b1(), x, d1, net.b2() + j);
}

/// The first layer learns from what is passed back to it and from the inputs, and the inputs are
/// passed the derivatives that are passed back through it.
pub proof fn law_first_layer_learns<S: Scalar>(
    v: spec_fn(S) -> real,
    net: Net<S>,
    g: Seq<S>,
    x: Seq<S>,
    d: Seq<S>,
    j: int,
    k: int,
)
    requires
        exact(v),
        net.wf(),
        g.len() == net.p.len(),
        x.len() == net.input,
        d.len() == net.output,
        0 <= j < net.hidden,
        0 <= k < net.input,
    ensures
        ({
            let r = net.gradient(g, x, d);
            let i = j * net.input + k;
            let h = v(net.first(x)[j]);
            let d2 = net.delta2(net.second(x), d);
            let d1 = net.delta1(net.first(x), net.second(x), d);
            let back = v(
                neural::pulled_back(net.p, net.w2(), net.hidden, d2, j, net.hidden),
            ) * (1real - h * h);
            &&& v(d1[j]) == back
            &&& v(r[i]) == v(g[i]) + back * v(x[k])
            &&& v(r[net.b1() + j]) == v(g[net.b1() + j]) + back
            &&& net.input_gradient(x, d)[k] == neural::pulled_back(
                net.p,
                0,
                net.input,
                d1,
                k,
                net.hidden,
            )
        }),
{
    lemma_layout(net);
    let h1 = net.first(x);
    let h2 = net.second(x);
    let g3 = neural::layer_gradient(g, net.w3(), net.b3(), h2, d);
    let d2 = net.delta2(h2, d);
    let g2 = neural::layer_gradient(g3, net.w2(), net.b2(), h1, d2);
    let d1 = net.delta1(h1, h2, d);
    assert(h1.len() == net.hidden);
    assert(h2.len() == net.hidden);
    lemma_place(j, k, net.hidden, net.input);
    let i = j * net.input + k;
    assert(0 + j * net.input + k == i);
    lemma_untouched(g, net.w3(), net.b3(), h2, d, i);
    lemma_untouched(g, net.w3(), net.b3(), h2, d, net.b1() + j);
    lemma_untouched(g3, net.w2(), net.b2(), h1, d2, i);
    lemma_untouched(g3, net.w2(), net.b2(), h1, d2, net.b1() + j);
    law_weights_learn_from_their_inputs(v, g2, 0, net.b1(), x, d1, j, k);
}

/// The first weights of a layer lie within the root of six over the number of its inputs and outputs.
pub proof fn law_first_weights_are_small<S: Scalar>(
    v: spec_fn(S) -> real,
    state: u64,
    k: nat,
    ins: nat,
    outs: nat,
)
    requires
        exact(v),
        0 < ins + outs <= u64::MAX,
    ensures
        ({
            let scale = v(neural::weight_scale::<S>(ins, outs));
            let w = v(neural::weight_draw(state, k, neural::weight_scale::<S>(ins, outs)));
            &&& scale > 0real
            &&& (scale * scale) * ((ins + outs) as real) == 6real
            &&& 0real - scale < w < scale
        }),
{
    let n = (ins + outs) as real;
    assert(v(S::counted((ins + outs) as u64)) == n);
    algebra::lemma_divided(6real, n);
    let q = 6real / n;
    algebra::lemma_signs(q, n);
    algebra::lemma_sign_of_factor(n, q);
    let scale = v(neural::weight_scale::<S>(ins, outs));
    assert(scale * scale == q);
    algebra::lemma_units(scale);
    let r = Rng::<S> { state: rng::advanced(state, k), spare: None };
    sampling::law_uniform_samples_lie_between(v, r);
    lemma_stream_step(state, k);
    let u = 2real * v(r.unit()) - 1real;
    algebra::lemma_scaled_order(1real, u, scale);
    algebra::lemma_scaled_order(u, -1real, scale);
    algebra::lemma_signs(1real, scale);
}

/// One more step of a stream.
proof fn lemma_stream_step(state: u64, k: nat)
    ensures
        rng::advanced(state, k + 1) == rng::advance(rng::advanced(state, k)),
{
}

/// The first biases are zero.
pub proof fn law_first_biases_are_zero<S: Scalar>(
    v: spec_fn(S) -> real,
    state: u64,
    input: nat,
    hidden: nat,
    output: nat,
    i: int,
)
    requires
        exact(v),
        ({
            let net = neural::initial_net::<S>(state, input, hidden, output);
            ||| net.b1() <= i < net.w2()
            ||| net.b2() <= i < net.w3()
            ||| net.b3() <= i < net.p.len()
        }),
        input > 0,
        hidden > 0,
        output > 0,
    ensures
        v(neural::initial_net::<S>(state, input, hidden, output).p[i]) == 0real,
{
    let net = neural::initial_net::<S>(state, input, hidden, output);
    lemma_layout(net);
}

} // verus!
