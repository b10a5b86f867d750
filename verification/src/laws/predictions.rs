//! What the learned model is taught, what it predicts and how it is measured.
use crate::laws::algebra;
use crate::laws::exact::{self, exact};
use crate::num::{self, Meaning, Scalar};
use crate::rl::neural::{self, Net};
use crate::rl::rng;
use crate::stages::compare;
use crate::world::dataset::{Dataset, Transition};
use crate::world::ensemble::{self, Tally};
use crate::world::model::{self, Dynamics, WorldConfig};
use crate::world::scaling;
use crate::world::training::{self, Lesson, Search};
use vstd::prelude::*;

verus! {

/// The networks are asked in the units in which they were taught: what they are given for the state
/// and the action of a transition is what they were given of that transition.
pub proof fn law_asked_as_taught<S: Scalar>(d: Dynamics<S>, t: Transition<S>)
    ensures
        d.input(t.state@, t.action@) == scaling::input_row(
            t,
            d.state_dim,
            d.input_mean,
            d.input_std,
        ),
{
    assert(d.input(t.state@, t.action@) =~= scaling::input_row(
        t,
        d.state_dim,
        d.input_mean,
        d.input_std,
    ));
}

/// What the networks are given is how far a number is from its mean, in units of its deviation.
pub proof fn law_inputs_are_standardized<S: Scalar>(
    v: spec_fn(S) -> real,
    d: Dynamics<S>,
    state: Seq<S>,
    action: Seq<S>,
    i: int,
)
    requires
        exact(v),
        0 <= i < d.state_dim + 2,
        v(d.input_std[i]) > 0real,
    ensures
        ({
            let x = if i < d.state_dim {
                state[i]
            } else {
                action[i - d.state_dim]
            };
            v(d.input(state, action)[i]) * v(d.input_std[i]) == v(x) - v(d.input_mean[i])
        }),
{
    let x = if i < d.state_dim {
        state[i]
    } else {
        action[i - d.state_dim]
    };
    algebra::lemma_divided(v(x) - v(d.input_mean[i]), v(d.input_std[i]));
}

/// A model that says of a field what it was taught of a transition predicts that field of the next
/// state: what is learned is undone where it is used.
pub proof fn law_good_pupils_predict<S: Scalar>(
    v: spec_fn(S) -> real,
    d: Dynamics<S>,
    t: Transition<S>,
    member: Option<usize>,
    k: int,
)
    requires
        exact(v),
        d.wf(),
        t.state@.len() >= d.state_dim,
        0 <= k < d.predicted.len(),
        forall|j: int|
            0 <= j < d.predicted.len() && j != k ==> #[trigger] d.predicted[j] != d.predicted[k],
        d.time_index != Some(d.predicted[k]),
        d.hold_index != Some(d.predicted[k]),
        v(d.delta_std[k]) > 0real,
        v(d.prediction(t.state@, t.action@, member, k)) == v(
            scaling::delta_row(t, d.predicted, d.delta_mean, d.delta_std)[k],
        ),
    ensures
        ({
            let i = d.predicted[k] as int;
            v(d.next(t.state@, t.action@, member)[i]) == v(t.next_state@[i])
        }),
{
    let i = d.predicted[k] as int;
    let s = v(d.delta_std[k]);
    lemma_predicted_field(d, t.state@, t.action@, member, k, d.predicted.len());
    algebra::lemma_divided(v(t.next_state@[i]) - v(t.state@[i]) - v(d.delta_mean[k]), s);
    let p = v(d.prediction(t.state@, t.action@, member, k));
    assert(p * s == v(t.next_state@[i]) - v(t.state@[i]) - v(d.delta_mean[k]));
}

/// A predicted field is moved by what is predicted of it alone.
proof fn lemma_predicted_field<S: Scalar>(
    d: Dynamics<S>,
    state: Seq<S>,
    action: Seq<S>,
    member: Option<usize>,
    k: int,
    n: nat,
)
    requires
        d.wf(),
        state.len() >= d.state_dim,
        0 <= k < n <= d.predicted.len(),
        forall|j: int|
            0 <= j < d.predicted.len() && j != k ==> #[trigger] d.predicted[j] != d.predicted[k],
    ensures
        d.moved(state, action, member, n).len() == state.len(),
        d.moved(state, action, member, n)[d.predicted[k] as int] == state[d.predicted[k] as int].sum(
            d.prediction(state, action, member, k).product(d.delta_std[k]),
        ).sum(d.delta_mean[k]),
    decreases n,
{
    model::lemma_moved(d, state, action, member, (n - 1) as nat);
    if k < n - 1 {
        lemma_predicted_field(d, state, action, member, k, (n - 1) as nat);
        assert(d.predicted[n - 1] != d.predicted[k]);
    }
}

/// An average, times the number of values, is what they add up to.
pub proof fn law_average_is_mean<S: Scalar>(v: spec_fn(S) -> real, values: Seq<S>)
    requires
        exact(v),
        0 < values.len() <= u64::MAX,
    ensures
        v(model::average(values)) * (values.len() as real) == exact::added(
            v,
            values,
            values.len(),
        ),
{
    let n = values.len() as real;
    exact::lemma_total_reads(v, values, values.len());
    assert(v(S::counted(values.len() as u64)) == n);
    algebra::lemma_divided(v(num::total(values, values.len())), n);
}

/// What equal readings add up to.
proof fn lemma_equal_sum<S: Scalar>(v: spec_fn(S) -> real, values: Seq<S>, x: real, n: nat)
    requires
        n <= values.len(),
        forall|i: int| 0 <= i < values.len() ==> v(#[trigger] values[i]) == x,
    ensures
        exact::added(v, values, n) == x * (n as real),
    decreases n,
{
    if n == 0 {
        algebra::lemma_units(x);
    } else {
        lemma_equal_sum(v, values, x, (n - 1) as nat);
        assert(v(values[n - 1]) == x);
        algebra::lemma_distributes((n - 1) as real, 1real, x);
        algebra::lemma_units(x);
    }
}

/// Where all values are the same, so is their average.
pub proof fn law_unanimous_average<S: Scalar>(v: spec_fn(S) -> real, values: Seq<S>, x: real)
    requires
        exact(v),
        0 < values.len() <= u64::MAX,
        forall|i: int| 0 <= i < values.len() ==> v(#[trigger] values[i]) == x,
    ensures
        v(model::average(values)) == x,
{
    let n = values.len() as real;
    law_average_is_mean(v, values);
    lemma_equal_sum(v, values, x, values.len());
    let a = v(model::average(values));
    algebra::lemma_quotient(x * n, n, a);
    algebra::lemma_quotient(x * n, n, x);
}

/// Where all members say the same of a field, that is what is predicted of it, and they are not apart
/// in it.
pub proof fn law_unanimous_members<S: Scalar>(
    v: spec_fn(S) -> real,
    d: Dynamics<S>,
    state: Seq<S>,
    action: Seq<S>,
    k: int,
    x: real,
)
    requires
        exact(v),
        0 < d.members.len() <= u64::MAX,
        forall|m: int|
            0 <= m < d.members.len() ==> v(
                (#[trigger] d.members[m]).value(d.input(state, action))[k],
            ) == x,
    ensures
        v(d.prediction(state, action, None, k)) == x,
        v(d.spread(state, action, k)) == 0real,
{
    let votes = d.votes(state, action, k);
    assert forall|i: int| 0 <= i < votes.len() implies v(#[trigger] votes[i]) == x by {
        assert(v(d.members[i].value(d.input(state, action))[k]) == x);
    }
    law_unanimous_average(v, votes, x);
    let squares = model::squares_around(votes, d.mean(state, action, k));
    algebra::lemma_units(0real);
    assert forall|i: int| 0 <= i < squares.len() implies v(#[trigger] squares[i]) == 0real by {
        assert(v(votes[i]) == x);
    }
    law_unanimous_average(v, squares, 0real);
}

/// How far the members are apart in a field is the mean of the squared distances of what they say from
/// what they say on average.
pub proof fn law_spread_is_variance<S: Scalar>(
    v: spec_fn(S) -> real,
    d: Dynamics<S>,
    state: Seq<S>,
    action: Seq<S>,
    k: int,
)
    requires
        exact(v),
        0 < d.members.len() <= u64::MAX,
    ensures
        ({
            let n = d.members.len();
            let votes = d.votes(state, action, k);
            &&& v(d.mean(state, action, k)) * (n as real) == exact::added(v, votes, n)
            &&& v(d.spread(state, action, k)) * (n as real) == squares(
                v,
                votes,
                v(d.mean(state, action, k)),
                n,
            )
            &&& v(d.spread(state, action, k)) >= 0real
        }),
{
    let n = d.members.len();
    let votes = d.votes(state, action, k);
    let mean = d.mean(state, action, k);
    law_average_is_mean(v, votes);
    law_average_is_mean(v, model::squares_around(votes, mean));
    lemma_squares(v, votes, mean, n);
    let s = v(d.spread(state, action, k));
    algebra::lemma_signs(s, n as real);
    algebra::lemma_sign_of_factor(n as real, s);
}

/// The squared distances of the first `n` readings from `center`, added up.
pub open spec fn squares<S: Scalar>(
    v: spec_fn(S) -> real,
    values: Seq<S>,
    center: real,
    n: nat,
) -> real
    decreases n,
{
    if n == 0 {
        0real
    } else {
        squares(v, values, center, (n - 1) as nat) + (v(values[n - 1]) - center) * (v(values[n - 1])
            - center)
    }
}

/// What the squares around a center add up to.
proof fn lemma_squares<S: Scalar>(v: spec_fn(S) -> real, values: Seq<S>, center: S, n: nat)
    requires
        exact(v),
        n <= values.len(),
    ensures
        exact::added(v, model::squares_around(values, center), n) == squares(
            v,
            values,
            v(center),
            n,
        ),
        squares(v, values, v(center), n) >= 0real,
    decreases n,
{
    if n > 0 {
        lemma_squares(v, values, center, (n - 1) as nat);
        algebra::lemma_not_negative(v(values[n - 1]) - v(center));
    }
}

/// The uncertainty is the root of the mean of how far the members are apart in the predicted fields:
/// it is zero where they are not apart in any.
pub proof fn law_uncertainty_is_disagreement<S: Scalar>(
    v: spec_fn(S) -> real,
    d: Dynamics<S>,
    state: Seq<S>,
    action: Seq<S>,
)
    requires
        exact(v),
        0 < d.members.len() <= u64::MAX,
        0 < d.predicted.len() <= u64::MAX,
    ensures
        ({
            let u = v(d.uncertainty(state, action));
            let n = d.predicted.len();
            &&& u >= 0real
            &&& (u * u) * (n as real) == exact::added(v, d.spreads(state, action), n)
            &&& exact::added(v, d.spreads(state, action), n) == 0real ==> u == 0real
        }),
{
    let n = d.predicted.len();
    let k = n as real;
    let spreads = d.spreads(state, action);
    exact::lemma_total_reads(v, spreads, n);
    lemma_spreads_add_up(v, d, state, action, n);
    assert(v(S::counted(n as u64)) == k);
    let t = v(num::total(spreads, n));
    let q = v(num::total(spreads, n).quotient(S::counted(n as u64)));
    algebra::lemma_divided(t, k);
    algebra::lemma_signs(q, k);
    algebra::lemma_sign_of_factor(k, q);
    let u = v(d.uncertainty(state, action));
    assert(u * u == q);
    if u != 0real {
        algebra::lemma_square(u);
    }
}

/// Spreads add up to something that is not negative.
proof fn lemma_spreads_add_up<S: Scalar>(
    v: spec_fn(S) -> real,
    d: Dynamics<S>,
    state: Seq<S>,
    action: Seq<S>,
    n: nat,
)
    requires
        exact(v),
        0 < d.members.len() <= u64::MAX,
        n <= d.predicted.len(),
    ensures
        exact::added(v, d.spreads(state, action), n) >= 0real,
    decreases n,
{
    if n > 0 {
        lemma_spreads_add_up(v, d, state, action, (n - 1) as nat);
        law_spread_is_variance(v, d, state, action, n - 1);
    }
}

/// The derivatives that a member learns by have the sign of its errors: times the number of outputs,
/// each is twice what the network says too much.
pub proof fn law_members_descend_on_errors<S: Scalar>(
    v: spec_fn(S) -> real,
    net: Net<S>,
    x: Seq<S>,
    y: Seq<S>,
    k: int,
)
    requires
        exact(v),
        0 <= k < y.len() <= u64::MAX,
    ensures
        ({
            let e = v(training::output_errors(net, x, y)[k]);
            let miss = v(net.value(x)[k]) - v(y[k]);
            &&& e * (y.len() as real) == 2real * miss
            &&& miss > 0real ==> e > 0real
            &&& miss < 0real ==> e < 0real
            &&& miss == 0real ==> e == 0real
        }),
{
    let n = y.len() as real;
    let e = v(training::output_errors(net, x, y)[k]);
    let miss = v(net.value(x)[k]) - v(y[k]);
    assert(v(S::counted(y.len() as u64)) == n);
    algebra::lemma_divided(2real * miss, n);
    algebra::lemma_signs(e, n);
    algebra::lemma_sign_of_factor(n, e);
}

/// The network that a member keeps is one whose validation loss is the least seen: what is kept as
/// the best loss is the validation loss of the network that is kept, and never rises.
pub proof fn law_best_networks_are_kept<S: Scalar>(
    v: spec_fn(S) -> real,
    lesson: Lesson<S>,
    s: Search<S>,
)
    requires
        exact(v),
    ensures
        ({
            let t = lesson.after_epoch(s);
            let loss = training::mse(t.learner.net, lesson.val_xs, lesson.val_ys);
            &&& v(t.best_loss) <= v(s.best_loss)
            &&& loss.finite() ==> v(t.best_loss) <= v(loss)
            &&& t.best_loss == s.best_loss && t.best == s.best || t.best_loss == loss && t.best
                == t.learner.net
            &&& s.best_loss == training::mse(s.best, lesson.val_xs, lesson.val_ys) ==> t.best_loss
                == training::mse(t.best, lesson.val_xs, lesson.val_ys)
        }),
{
}

/// What the squared errors of a row add up to: nothing exactly where the network is right.
pub proof fn law_mean_squared_error<S: Scalar>(
    v: spec_fn(S) -> real,
    net: Net<S>,
    xs: Seq<Seq<S>>,
    ys: Seq<Seq<S>>,
)
    requires
        exact(v),
        0 < xs.len() * net.output <= u64::MAX,
    ensures
        v(training::mse(net, xs, ys)) * ((xs.len() * net.output) as real) == row_errors(
            v,
            net,
            xs,
            ys,
            xs.len(),
        ),
        v(training::mse(net, xs, ys)) >= 0real,
{
    let n = (xs.len() * net.output) as real;
    lemma_row_errors(v, net, xs, ys, xs.len());
    assert(v(S::counted((xs.len() * net.output) as u64)) == n);
    let e = v(training::mse(net, xs, ys));
    algebra::lemma_divided(v(training::squared_errors(net, xs, ys, xs.len())), n);
    algebra::lemma_signs(e, n);
    algebra::lemma_sign_of_factor(n, e);
}

/// The squared errors of the first `n` rows, added up.
pub open spec fn row_errors<S: Scalar>(
    v: spec_fn(S) -> real,
    net: Net<S>,
    xs: Seq<Seq<S>>,
    ys: Seq<Seq<S>>,
    n: nat,
) -> real
    decreases n,
{
    if n == 0 {
        0real
    } else {
        row_errors(v, net, xs, ys, (n - 1) as nat) + gaps(
            v,
            net.value(xs[n - 1]),
            ys[n - 1],
            ys[n - 1].len(),
        )
    }
}

/// The squared differences of the first `n` numbers of two rows, added up.
pub open spec fn gaps<S: Scalar>(v: spec_fn(S) -> real, a: Seq<S>, b: Seq<S>, n: nat) -> real
    decreases n,
{
    if n == 0 {
        0real
    } else {
        gaps(v, a, b, (n - 1) as nat) + (v(a[n - 1]) - v(b[n - 1])) * (v(a[n - 1]) - v(b[n - 1]))
    }
}

/// Squared differences add up to something that is not negative, and to nothing exactly where there
/// are no differences.
pub proof fn law_gaps_show_differences<S: Scalar>(
    v: spec_fn(S) -> real,
    a: Seq<S>,
    b: Seq<S>,
    n: nat,
)
    ensures
        gaps(v, a, b, n) >= 0real,
        gaps(v, a, b, n) == 0real <==> forall|i: int|
            0 <= i < n ==> v(#[trigger] a[i]) == v(b[i]),
    decreases n,
{
    if n > 0 {
        law_gaps_show_differences(v, a, b, (n - 1) as nat);
        let d = v(a[n - 1]) - v(b[n - 1]);
        algebra::lemma_not_negative(d);
        if d != 0real {
            algebra::lemma_square(d);
            assert(v(a[n - 1]) != v(b[n - 1]));
        } else {
            algebra::lemma_units(0real);
        }
    }
}

/// What squared differences read as.
proof fn lemma_gaps<S: Scalar>(
    v: spec_fn(S) -> real,
    squared: Seq<S>,
    a: Seq<S>,
    b: Seq<S>,
    n: nat,
)
    requires
        exact(v),
        n <= squared.len(),
        forall|i: int|
            0 <= i < n ==> #[trigger] squared[i] == a[i].difference(b[i]).squared(),
    ensures
        v(num::total(squared, n)) == gaps(v, a, b, n),
    decreases n,
{
    if n > 0 {
        lemma_gaps(v, squared, a, b, (n - 1) as nat);
        assert(squared[n - 1] == a[n - 1].difference(b[n - 1]).squared());
    }
}

/// What the squared errors of rows read as.
proof fn lemma_row_errors<S: Scalar>(
    v: spec_fn(S) -> real,
    net: Net<S>,
    xs: Seq<Seq<S>>,
    ys: Seq<Seq<S>>,
    n: nat,
)
    requires
        exact(v),
    ensures
        v(training::squared_errors(net, xs, ys, n)) == row_errors(v, net, xs, ys, n),
        row_errors(v, net, xs, ys, n) >= 0real,
    decreases n,
{
    if n > 0 {
        lemma_row_errors(v, net, xs, ys, (n - 1) as nat);
        let a = net.value(xs[n - 1]);
        let b = ys[n - 1];
        lemma_gaps(v, training::squared_distances(a, b), a, b, b.len());
        law_gaps_show_differences(v, a, b, b.len());
    }
}

/// A comparison's error after an action, times the length of a state, is what the squared differences
/// of the foreseen and the recorded state add up to.
pub proof fn law_comparisons_measure_differences<S: Scalar>(
    v: spec_fn(S) -> real,
    d: Dynamics<S>,
    ts: Seq<Transition<S>>,
    i: int,
)
    requires
        exact(v),
        0 <= i,
        0 < d.state_dim <= u64::MAX,
        d.foreseen(ts, (i + 1) as nat).len() == d.state_dim,
    ensures
        v(d.gap(ts, i)) * (d.state_dim as real) == gaps(
            v,
            d.foreseen(ts, (i + 1) as nat),
            ts[i].next_state@,
            d.state_dim,
        ),
{
    let a = d.foreseen(ts, (i + 1) as nat);
    let b = ts[i].next_state@;
    lemma_gaps(v, compare::squared_gaps(a, b), a, b, d.state_dim);
    assert(v(S::counted(d.state_dim as u64)) == d.state_dim as real);
    algebra::lemma_divided(
        v(num::total(compare::squared_gaps(a, b), d.state_dim)),
        d.state_dim as real,
    );
}

/// Whether a model predicts each recorded transition, and each one starts where the last one led.
pub open spec fn perfect<S: Scalar>(d: Dynamics<S>, ts: Seq<Transition<S>>) -> bool {
    &&& forall|i: int|
        0 <= i < ts.len() ==> d.next((#[trigger] ts[i]).state@, ts[i].action@, None)
            == ts[i].next_state@
    &&& forall|i: int, j: int|
        0 <= i < ts.len() && j == i + 1 && j < ts.len() ==> (#[trigger] ts[j]).state@ == (
        #[trigger] ts[i]).next_state@
}

/// A model that predicts each transition foresees the whole episode, from its first state and its
/// actions alone.
pub proof fn law_perfect_models_foresee<S: Scalar>(
    d: Dynamics<S>,
    ts: Seq<Transition<S>>,
    i: int,
)
    requires
        perfect(d, ts),
        0 <= i < ts.len(),
    ensures
        d.foreseen(ts, (i + 1) as nat) == ts[i].next_state@,
        d.foreseen(ts, i as nat) == ts[i].state@,
    decreases i,
{
    if i > 0 {
        law_perfect_models_foresee(d, ts, i - 1);
        assert(ts[i].state@ == ts[i - 1].next_state@);
    }
    assert(d.next(ts[i].state@, ts[i].action@, None) == ts[i].next_state@);
    let n = (i + 1) as nat;
    assert((n - 1) as nat == i as nat);
    assert(d.foreseen(ts, n) == d.next(d.foreseen(ts, (n - 1) as nat), ts[n - 1].action@, None));
}

/// A model that predicts each transition makes no error over any stretch: the squared errors stay
/// what they were, and each predicted field of each step counts.
pub proof fn law_perfect_models_make_no_errors<S: Scalar>(
    v: spec_fn(S) -> real,
    d: Dynamics<S>,
    ts: Seq<Transition<S>>,
    tally: Tally<S>,
    start: int,
    j: nat,
)
    requires
        exact(v),
        perfect(d, ts),
        0 <= start,
        start + j <= ts.len(),
        start < ts.len(),
    ensures
        j == 0 ==> d.stretched(ts, tally, start, j).0 == ts[start].state@,
        j > 0 ==> d.stretched(ts, tally, start, j).0 == ts[start + j - 1].next_state@,
        v(d.stretched(ts, tally, start, j).1.sq) == v(tally.sq),
    decreases j,
{
    if j > 0 {
        law_perfect_models_make_no_errors(v, d, ts, tally, start, (j - 1) as nat);
        let step = ts[start + j - 1];
        let before = d.stretched(ts, tally, start, (j - 1) as nat);
        if j > 1 {
            assert(ts[start + j - 1].state@ == ts[start + j - 2].next_state@);
        }
        assert(before.0 == step.state@);
        let next = d.next(before.0, step.action@, None);
        assert(d.next(ts[start + j - 1].state@, ts[start + j - 1].action@, None) == ts[start + j
            - 1].next_state@);
        assert(next == step.next_state@);
        lemma_no_field_errors(v, before.1, next, d.predicted, d.predicted.len());
    }
}

/// Equal states have no errors.
proof fn lemma_no_field_errors<S: Scalar>(
    v: spec_fn(S) -> real,
    tally: Tally<S>,
    state: Seq<S>,
    predicted: Seq<usize>,
    k: nat,
)
    requires
        exact(v),
    ensures
        v(tally.with_fields(state, state, predicted, k).sq) == v(tally.sq),
    decreases k,
{
    if k > 0 {
        lemma_no_field_errors(v, tally, state, predicted, (k - 1) as nat);
        algebra::lemma_units(0real);
    }
}

/// Each predicted field adds the square of its error, and counts once.
pub proof fn law_field_errors_add_up<S: Scalar>(
    v: spec_fn(S) -> real,
    tally: Tally<S>,
    next: Seq<S>,
    target: Seq<S>,
    predicted: Seq<usize>,
    k: nat,
)
    requires
        exact(v),
        0 < k <= predicted.len(),
    ensures
        ({
            let before = tally.with_fields(next, target, predicted, (k - 1) as nat);
            let after = tally.with_fields(next, target, predicted, k);
            let i = predicted[k - 1] as int;
            let miss = v(next[i]) - v(target[i]);
            &&& v(after.sq) == v(before.sq) + miss * miss
            &&& after.n == before.n.wrapping_add(1)
        }),
{
}

/// The mean of a tally, times what it counted, is what it added up.
pub proof fn law_tallies_average<S: Scalar>(v: spec_fn(S) -> real, tally: Tally<S>)
    requires
        exact(v),
        tally.n > 0,
    ensures
        v(tally.mean()) * (tally.n as real) == v(tally.sq),
{
    assert(v(S::counted(tally.n as u64)) == tally.n as real);
    algebra::lemma_divided(v(tally.sq), tally.n as real);
}

/// A deviation is at least its floor; above the floor its square is the mean square less the squared
/// mean.
pub proof fn law_deviation_is_root_of_variance<S: Scalar>(
    v: spec_fn(S) -> real,
    values: Seq<S>,
    least: S,
)
    requires
        exact(v),
    ensures
        ({
            let d = v(scaling::deviation(values, least));
            let m = v(model::average(values));
            let q = v(model::average(scaling::products(values)));
            &&& d >= v(least)
            &&& d > v(least) ==> d >= 0real && d * d == exact::most(q - m * m, 0real)
        }),
{
}

/// A batch is learned from as a whole: each row adds the gradient of its own errors, and the step goes
/// along their sum, divided by the number of rows.
pub proof fn law_batches_average<S: Scalar>(
    v: spec_fn(S) -> real,
    l: training::Learner<S>,
    xs: Seq<Seq<S>>,
    ys: Seq<Seq<S>>,
    batch: Seq<usize>,
)
    requires
        exact(v),
        0 < batch.len() <= u64::MAX,
    ensures
        exists|f: S|
            {
                let g = #[trigger] neural::scaled(
                    training::batch_gradient(l.net, xs, ys, batch, batch.len()),
                    f,
                );
                &&& v(f) * (batch.len() as real) == 1real
                &&& l.after_batch(xs, ys, batch).net.p == l.moments.applied(l.net.p, g)
                &&& l.after_batch(xs, ys, batch).moments == l.moments.after(l.net.p, g)
            },
        ({
            let n = batch.len();
            let i = batch[n - 1] as int;
            training::batch_gradient(l.net, xs, ys, batch, n) == l.net.gradient(
                training::batch_gradient(l.net, xs, ys, batch, (n - 1) as nat),
                xs[i],
                training::output_errors(l.net, xs[i], ys[i]),
            )
        }),
{
    let n = batch.len() as real;
    let f = num::one::<S>().quotient(S::counted(batch.len() as u64));
    assert(v(S::counted(batch.len() as u64)) == n);
    algebra::lemma_divided(1real, n);
    let sum = training::batch_gradient(l.net, xs, ys, batch, batch.len());
    let g = neural::scaled(sum, f);
    assert(l.after_batch(xs, ys, batch).net.p == l.moments.applied(l.net.p, g));
}

/// Each transition of a comparison adds its own error, and counts once.
pub proof fn law_comparisons_add_up<S: Scalar>(
    v: spec_fn(S) -> real,
    d: Dynamics<S>,
    ts: Seq<Transition<S>>,
    sum: compare::ErrorSum<S>,
    n: nat,
)
    requires
        exact(v),
        0 < n <= ts.len(),
    ensures
        ({
            let before = d.with_gaps(ts, sum, (n - 1) as nat);
            let after = d.with_gaps(ts, sum, n);
            &&& v(after.sq) == v(before.sq) + v(d.gap(ts, n - 1))
            &&& after.count == before.count.wrapping_add(1)
        }),
{
}

/// The rows that a member learns from are rows that there are.
pub proof fn law_members_learn_from_rows(state: u64, lens: Seq<usize>, n: nat)
    requires
        lens.len() > 0,
        training::offset(lens, lens.len()) <= usize::MAX,
    ensures
        forall|i: int|
            0 <= i < training::bootstrapped(state, lens, n).1.len() ==> (
            #[trigger] training::bootstrapped(state, lens, n).1[i]) < training::offset(
                lens,
                lens.len(),
            ),
    decreases n,
{
    if n > 0 {
        law_members_learn_from_rows(state, lens, (n - 1) as nat);
        let (before, rows) = training::bootstrapped(state, lens, (n - 1) as nat);
        let e = rng::scramble(rng::advance(before)) as nat % lens.len();
        training::lemma_offset(lens, (e + 1) as nat, lens.len());
        assert(training::offset(lens, (e + 1) as nat) == training::offset(lens, e)
            + lens[e as int] as nat);
        let more = training::span(training::offset(lens, e), lens[e as int] as nat);
        let all = training::bootstrapped(state, lens, n).1;
        assert(all == rows + more);
        assert forall|i: int| 0 <= i < all.len() implies #[trigger] all[i] < training::offset(
            lens,
            lens.len(),
        ) by {
            if i < rows.len() {
                assert(all[i] == rows[i]);
            } else {
                assert(all[i] == more[i - rows.len()]);
            }
        }
    }
}

/// A trained model is asked of the transitions that it was trained and chosen on as its networks were:
/// the rows of both parts are scaled alike, by what was found in the part that it was trained on.
pub proof fn law_models_are_asked_as_trained<S: Scalar>(
    data: &Dataset<S>,
    config: &WorldConfig<S>,
    seed: u64,
    nets: Seq<Net<S>>,
    t: int,
)
    ensures
        ({
            let n = data.episodes@.len();
            let lesson = ensemble::lesson_of(data, config, seed);
            let d = ensemble::assembled(data, config, seed, nets);
            let train = ensemble::train_part(n, seed);
            let validation = ensemble::validation_part(n, seed);
            let ts = scaling::gathered(data.episodes@, train, train.len());
            let vs = scaling::gathered(data.episodes@, validation, validation.len());
            &&& lesson.xs.len() == ts.len() && lesson.ys.len() == ts.len()
            &&& lesson.val_xs.len() == vs.len() && lesson.val_ys.len() == vs.len()
            &&& 0 <= t < ts.len() ==> lesson.xs[t] == d.input(ts[t].state@, ts[t].action@)
                && lesson.ys[t] == scaling::delta_row(
                ts[t],
                d.predicted,
                d.delta_mean,
                d.delta_std,
            )
            &&& 0 <= t < vs.len() ==> lesson.val_xs[t] == d.input(vs[t].state@, vs[t].action@)
                && lesson.val_ys[t] == scaling::delta_row(
                vs[t],
                d.predicted,
                d.delta_mean,
                d.delta_std,
            )
        }),
{
    let n = data.episodes@.len();
    let d = ensemble::assembled(data, config, seed, nets);
    let train = ensemble::train_part(n, seed);
    let validation = ensemble::validation_part(n, seed);
    let ts = scaling::gathered(data.episodes@, train, train.len());
    let vs = scaling::gathered(data.episodes@, validation, validation.len());
    law_asked_as_taught(d, ts[t]);
    law_asked_as_taught(d, vs[t]);
}

} // verus!
