//! Transitions as rows of scaled numbers.
use crate::num::{self, Meaning, Scalar};
use crate::world::dataset::{Dataset, Episode, Transition};
use crate::world::model;
use vstd::prelude::*;

verus! {

/// Means and deviations of what the networks are given and of what they learn.
#[derive(Debug)]
pub struct Scaling<S> {
    pub input_mean: Vec<S>,
    pub input_std: Vec<S>,
    pub delta_mean: Vec<S>,
    pub delta_std: Vec<S>,
}

/// The transitions of the first `n` episodes that `part` lists.
pub open spec fn gathered<S>(
    episodes: Seq<Episode<S>>,
    part: Seq<usize>,
    n: nat,
) -> Seq<Transition<S>>
    decreases n,
{
    if n == 0 {
        Seq::empty()
    } else {
        gathered(episodes, part, (n - 1) as nat) + episodes[part[n - 1] as int].transitions@
    }
}

/// The number with the place `i` in a transition's state of the length `dim`, followed by its
/// action.
pub open spec fn feature<S>(t: Transition<S>, dim: nat, i: int) -> S {
    if i < dim {
        t.state@[i]
    } else {
        t.action@[i - dim]
    }
}

/// How much a field of the state changes in a transition.
pub open spec fn change<S: Scalar>(t: Transition<S>, i: int) -> S {
    t.next_state@[i].difference(t.state@[i])
}

/// The numbers with the place `i`.
pub open spec fn features<S>(ts: Seq<Transition<S>>, dim: nat, i: int) -> Seq<S> {
    Seq::new(ts.len(), |t: int| feature(ts[t], dim, i))
}

/// How much a field of the state changes in each transition.
pub open spec fn changes<S: Scalar>(ts: Seq<Transition<S>>, i: int) -> Seq<S> {
    Seq::new(ts.len(), |t: int| change(ts[t], i))
}

/// Each number multiplied by itself.
pub open spec fn products<S: Scalar>(values: Seq<S>) -> Seq<S> {
    Seq::new(values.len(), |i: int| values[i].product(values[i]))
}

/// The standard deviation of the numbers, but at least `least`.
pub open spec fn deviation<S: Scalar>(values: Seq<S>, least: S) -> S {
    let mean = model::average(values);
    model::average(products(values)).difference(mean.product(mean)).larger(
        num::zero(),
    ).root().larger(least)
}

/// The means of what the networks are given.
pub open spec fn input_means<S: Scalar>(ts: Seq<Transition<S>>, dim: nat) -> Seq<S> {
    Seq::new(dim + 2, |i: int| model::average(features(ts, dim, i)))
}

/// The deviations of what the networks are given.
pub open spec fn input_deviations<S: Scalar>(ts: Seq<Transition<S>>, dim: nat) -> Seq<S> {
    Seq::new(dim + 2, |i: int| deviation(features(ts, dim, i), S::fraction(1, 1000)))
}

/// The means of what the networks learn.
pub open spec fn delta_means<S: Scalar>(
    ts: Seq<Transition<S>>,
    predicted: Seq<usize>,
) -> Seq<S> {
    Seq::new(predicted.len(), |j: int| model::average(changes(ts, predicted[j] as int)))
}

/// The deviations of what the networks learn.
pub open spec fn delta_deviations<S: Scalar>(
    ts: Seq<Transition<S>>,
    predicted: Seq<usize>,
) -> Seq<S> {
    Seq::new(
        predicted.len(),
        |j: int| deviation(changes(ts, predicted[j] as int), S::fraction(1, 10000)),
    )
}

/// What the networks are given of a transition.
pub open spec fn input_row<S: Scalar>(
    t: Transition<S>,
    dim: nat,
    mean: Seq<S>,
    std: Seq<S>,
) -> Seq<S> {
    Seq::new(dim + 2, |i: int| feature(t, dim, i).difference(mean[i]).quotient(std[i]))
}

/// What the networks learn of a transition.
pub open spec fn delta_row<S: Scalar>(
    t: Transition<S>,
    predicted: Seq<usize>,
    mean: Seq<S>,
    std: Seq<S>,
) -> Seq<S> {
    Seq::new(
        predicted.len(),
        |j: int| change(t, predicted[j] as int).difference(mean[j]).quotient(std[j]),
    )
}

/// The values of a list of rows.
pub open spec fn rows_of<S>(rows: Seq<Vec<S>>) -> Seq<Seq<S>> {
    Seq::new(rows.len(), |t: int| rows[t]@)
}

/// Whether every row has the length `n`.
pub open spec fn wide<S>(rows: Seq<Seq<S>>, n: nat) -> bool {
    forall|t: int| 0 <= t < rows.len() ==> (#[trigger] rows[t]).len() == n
}

/// The transitions that are referred to.
pub open spec fn behind<S>(refs: Seq<&Transition<S>>) -> Seq<Transition<S>> {
    Seq::new(refs.len(), |t: int| *refs[t])
}

/// Whether references to transitions refer to `ts`.
spec fn refers<S>(refs: Seq<&Transition<S>>, ts: Seq<Transition<S>>) -> bool {
    &&& refs.len() == ts.len()
    &&& forall|t: int| 0 <= t < ts.len() ==> *(#[trigger] refs[t]) == ts[t]
}

/// Whether every transition has states of the length `dim`.
pub open spec fn all_shaped<S: Scalar>(ts: Seq<Transition<S>>, dim: usize) -> bool {
    forall|t: int| 0 <= t < ts.len() ==> (#[trigger] ts[t]).shaped(dim)
}

/// The transitions of the episodes that `part` lists.
pub fn gather<'a, S: Scalar>(dataset: &'a Dataset<S>, part: &Vec<usize>) -> (r: Vec<
    &'a Transition<S>,
>)
    requires
        forall|k: int| 0 <= k < part@.len() ==> (#[trigger] part@[k]) < dataset.episodes@.len(),
    ensures
        behind(r@) == gathered(dataset.episodes@, part@, part@.len()),
{
    let n: usize = part.len();
    let mut r: Vec<&'a Transition<S>> = Vec::new();
    for k in 0..n
        invariant
            n == part@.len(),
            forall|k: int| 0 <= k < part@.len() ==> (#[trigger] part@[k]) < dataset.episodes@.len(),
            refers(r@, gathered(dataset.episodes@, part@, k as nat)),
    {
        let episode: &'a Episode<S> = &dataset.episodes[part[k]];
        let count: usize = episode.transitions.len();
        let ghost done = gathered(dataset.episodes@, part@, k as nat);
        for t in 0..count
            invariant
                count == episode.transitions@.len(),
                refers(r@, done + episode.transitions@.take(t as int)),
        {
            r.push(&episode.transitions[t]);
            assert(done + episode.transitions@.take(t + 1) =~= (done + episode.transitions@.take(
                t as int,
            )).push(episode.transitions@[t as int]));
        }
        assert(episode.transitions@.take(count as int) =~= episode.transitions@);
    }
    assert(behind(r@) =~= gathered(dataset.episodes@, part@, n as nat));
    r
}

/// The number with the place `i` in a transition's state, followed by its action.
fn read_feature<S: Scalar>(t: &Transition<S>, dim: usize, i: usize) -> (r: S)
    requires
        t.shaped(dim),
        i < dim + 2,
    ensures
        r == feature(*t, dim as nat, i as int),
{
    if i < dim {
        t.state[i]
    } else {
        t.action[i - dim]
    }
}

/// How much a field of the state changes in a transition.
fn read_change<S: Scalar>(t: &Transition<S>, dim: usize, i: usize) -> (r: S)
    requires
        t.shaped(dim),
        i < dim,
    ensures
        num::repeatable::<S>() ==> r == change(*t, i as int),
{
    t.next_state[i].minus(t.state[i])
}

/// The mean of the numbers and their deviation, which is at least `least`.
fn moments_of<S: Scalar>(values: &Vec<S>, least: S) -> (r: (S, S))
    ensures
        num::repeatable::<S>() ==> r.0 == model::average(values@),
        num::repeatable::<S>() ==> r.1 == deviation(values@, least),
{
    let n: usize = values.len();
    let mut sum: S = S::from_count(0);
    let mut sq: S = S::from_count(0);
    for i in 0..n
        invariant
            n == values@.len(),
            num::repeatable::<S>() ==> sum == num::total(values@, i as nat),
            num::repeatable::<S>() ==> sq == num::total(products(values@), i as nat),
    {
        let x: S = values[i];
        sum = sum.plus(x);
        sq = sq.plus(x.times(x));
    }
    let count: S = S::from_count(n as u64);
    let mean: S = sum.over(count);
    let std: S = sq.over(count).minus(mean.times(mean)).max(S::from_count(0)).sqrt().max(least);
    (mean, std)
}

impl<S: Scalar> Scaling<S> {
    /// Whether the scaling is for states of the length `dim` with `predicted` learned fields.
    pub open spec fn fits(&self, dim: nat, predicted: nat) -> bool {
        &&& self.input_mean@.len() == dim + 2
        &&& self.input_std@.len() == dim + 2
        &&& self.delta_mean@.len() == predicted
        &&& self.delta_std@.len() == predicted
    }

    /// Whether the scaling is that of `ts`.
    pub open spec fn describes(
        &self,
        ts: Seq<Transition<S>>,
        dim: nat,
        predicted: Seq<usize>,
    ) -> bool {
        &&& self.input_mean@ == input_means(ts, dim)
        &&& self.input_std@ == input_deviations(ts, dim)
        &&& self.delta_mean@ == delta_means(ts, predicted)
        &&& self.delta_std@ == delta_deviations(ts, predicted)
    }

    /// The scaling of the given transitions.
    pub fn of(
        ts: &Vec<&Transition<S>>,
        dim: usize,
        predicted: &Vec<usize>,
    ) -> (r: Self)
        requires
            all_shaped(behind(ts@), dim),
            dim + 2 <= usize::MAX,
            forall|k: int| 0 <= k < predicted@.len() ==> (#[trigger] predicted@[k]) < dim,
        ensures
            r.fits(dim as nat, predicted@.len()),
            num::repeatable::<S>() ==> r.describes(behind(ts@), dim as nat, predicted@),
    {
        let ghost values = behind(ts@);
        let mut input_mean: Vec<S> = Vec::new();
        let mut input_std: Vec<S> = Vec::new();
        let mut delta_mean: Vec<S> = Vec::new();
        let mut delta_std: Vec<S> = Vec::new();
        let count: usize = ts.len();
        for i in 0..dim + 2
            invariant
                refers(ts@, values),
                all_shaped(values, dim),
                dim + 2 <= usize::MAX,
                count == ts@.len(),
                input_mean@.len() == i,
                input_std@.len() == i,
                num::repeatable::<S>() ==> forall|k: int|
                    0 <= k < i ==> input_mean@[k] == input_means(values, dim as nat)[k],
                num::repeatable::<S>() ==> forall|k: int|
                    0 <= k < i ==> input_std@[k] == input_deviations(values, dim as nat)[k],
        {
            let mut column: Vec<S> = Vec::with_capacity(count);
            for t in 0..count
                invariant
                    refers(ts@, values),
                    all_shaped(values, dim),
                    i < dim + 2,
                    count == ts@.len(),
                    column@ == features(values, dim as nat, i as int).take(t as int),
            {
                assert(values[t as int].shaped(dim));
                column.push(read_feature(ts[t], dim, i));
                assert(column@ =~= features(values, dim as nat, i as int).take(t + 1));
            }
            assert(column@ =~= features(values, dim as nat, i as int));
            let (mean, std) = moments_of(&column, S::from_ratio(1, 1000));
            input_mean.push(mean);
            input_std.push(std);
        }
        let learned: usize = predicted.len();
        for j in 0..learned
            invariant
                refers(ts@, values),
                all_shaped(values, dim),
                forall|k: int| 0 <= k < predicted@.len() ==> (#[trigger] predicted@[k]) < dim,
                count == ts@.len(),
                learned == predicted@.len(),
                delta_mean@.len() == j,
                delta_std@.len() == j,
                num::repeatable::<S>() ==> forall|k: int|
                    0 <= k < j ==> delta_mean@[k] == delta_means(values, predicted@)[k],
                num::repeatable::<S>() ==> forall|k: int|
                    0 <= k < j ==> delta_std@[k] == delta_deviations(values, predicted@)[k],
        {
            let field: usize = predicted[j];
            let mut column: Vec<S> = Vec::with_capacity(count);
            for t in 0..count
                invariant
                    refers(ts@, values),
                    all_shaped(values, dim),
                    field < dim,
                    count == ts@.len(),
                    column@.len() == t,
                    num::repeatable::<S>() ==> column@ == changes(values, field as int).take(
                        t as int,
                    ),
            {
                assert(values[t as int].shaped(dim));
                column.push(read_change(ts[t], dim, field));
                assert(num::repeatable::<S>() ==> column@ =~= changes(values, field as int).take(
                    t + 1,
                ));
            }
            assert(num::repeatable::<S>() ==> column@ =~= changes(values, field as int));
            let (mean, std) = moments_of(&column, S::from_ratio(1, 10000));
            delta_mean.push(mean);
            delta_std.push(std);
        }
        proof {
            if num::repeatable::<S>() {
                assert(input_mean@ =~= input_means(values, dim as nat));
                assert(input_std@ =~= input_deviations(values, dim as nat));
                assert(delta_mean@ =~= delta_means(values, predicted@));
                assert(delta_std@ =~= delta_deviations(values, predicted@));
            }
        }
        Scaling { input_mean, input_std, delta_mean, delta_std }
    }

    /// The rows that the networks are given of the transitions.
    pub open spec fn inputs(&self, ts: Seq<Transition<S>>, dim: nat) -> Seq<Seq<S>> {
        Seq::new(ts.len(), |t: int| input_row(ts[t], dim, self.input_mean@, self.input_std@))
    }

    /// The rows that the networks learn of the transitions.
    pub open spec fn deltas(&self, ts: Seq<Transition<S>>, predicted: Seq<usize>) -> Seq<Seq<S>> {
        Seq::new(
            ts.len(),
            |t: int| delta_row(ts[t], predicted, self.delta_mean@, self.delta_std@),
        )
    }

    /// The rows that the networks are given of the transitions, and those that they learn.
    pub fn normalize(
        &self,
        ts: &Vec<&Transition<S>>,
        dim: usize,
        predicted: &Vec<usize>,
    ) -> (r: (Vec<Vec<S>>, Vec<Vec<S>>))
        requires
            self.fits(dim as nat, predicted@.len()),
            all_shaped(behind(ts@), dim),
            dim + 2 <= usize::MAX,
            forall|k: int| 0 <= k < predicted@.len() ==> (#[trigger] predicted@[k]) < dim,
        ensures
            r.0@.len() == ts@.len(),
            r.1@.len() == ts@.len(),
            wide(rows_of(r.0@), (dim + 2) as nat),
            wide(rows_of(r.1@), predicted@.len()),
            num::repeatable::<S>() ==> rows_of(r.0@) == self.inputs(behind(ts@), dim as nat),
            num::repeatable::<S>() ==> rows_of(r.1@) == self.deltas(behind(ts@), predicted@),
    {
        let ghost values = behind(ts@);
        let count: usize = ts.len();
        let learned: usize = predicted.len();
        let mut xs: Vec<Vec<S>> = Vec::with_capacity(count);
        let mut ys: Vec<Vec<S>> = Vec::with_capacity(count);
        for t in 0..count
            invariant
                self.fits(dim as nat, predicted@.len()),
                refers(ts@, values),
                all_shaped(values, dim),
                dim + 2 <= usize::MAX,
                forall|k: int| 0 <= k < predicted@.len() ==> (#[trigger] predicted@[k]) < dim,
                count == ts@.len(),
                learned == predicted@.len(),
                xs@.len() == t,
                ys@.len() == t,
                forall|k: int| 0 <= k < t ==> (#[trigger] xs@[k])@.len() == dim + 2,
                forall|k: int| 0 <= k < t ==> (#[trigger] ys@[k])@.len() == learned,
                num::repeatable::<S>() ==> forall|k: int|
                    0 <= k < t ==> (#[trigger] xs@[k])@ == self.inputs(values, dim as nat)[k],
                num::repeatable::<S>() ==> forall|k: int|
                    0 <= k < t ==> (#[trigger] ys@[k])@ == self.deltas(values, predicted@)[k],
        {
            assert(values[t as int].shaped(dim));
            let ghost want_x = input_row(
                values[t as int],
                dim as nat,
                self.input_mean@,
                self.input_std@,
            );
            let ghost want_y = delta_row(
                values[t as int],
                predicted@,
                self.delta_mean@,
                self.delta_std@,
            );
            let mut x: Vec<S> = Vec::with_capacity(dim + 2);
            for i in 0..dim + 2
                invariant
                    self.fits(dim as nat, predicted@.len()),
                    refers(ts@, values),
                    values[t as int].shaped(dim),
                    dim + 2 <= usize::MAX,
                    t < count == ts@.len(),
                    want_x == input_row(
                        values[t as int],
                        dim as nat,
                        self.input_mean@,
                        self.input_std@,
                    ),
                    x@.len() == i,
                    num::repeatable::<S>() ==> forall|k: int| 0 <= k < i ==> x@[k] == want_x[k],
            {
                x.push(read_feature(ts[t], dim, i).minus(self.input_mean[i]).over(self.input_std[i]));
            }
            let mut y: Vec<S> = Vec::with_capacity(learned);
            for j in 0..learned
                invariant
                    self.fits(dim as nat, predicted@.len()),
                    refers(ts@, values),
                    values[t as int].shaped(dim),
                    forall|k: int| 0 <= k < predicted@.len() ==> (#[trigger] predicted@[k]) < dim,
                    t < count == ts@.len(),
                    learned == predicted@.len(),
                    want_y == delta_row(
                        values[t as int],
                        predicted@,
                        self.delta_mean@,
                        self.delta_std@,
                    ),
                    y@.len() == j,
                    num::repeatable::<S>() ==> forall|k: int| 0 <= k < j ==> y@[k] == want_y[k],
            {
                y.push(
                    read_change(ts[t], dim, predicted[j]).minus(self.delta_mean[j]).over(
                        self.delta_std[j],
                    ),
                );
            }
            proof {
                if num::repeatable::<S>() {
                    assert(x@ =~= want_x);
                    assert(y@ =~= want_y);
                }
            }
            xs.push(x);
            ys.push(y);
        }
        proof {
            if num::repeatable::<S>() {
                assert(rows_of(xs@) =~= self.inputs(values, dim as nat));
                assert(rows_of(ys@) =~= self.deltas(values, predicted@));
            }
        }
        (xs, ys)
    }
}

/// Whether `least` is not above the larger of any number and itself.
pub open spec fn is_floor<S: Scalar>(least: S) -> bool {
    forall|x: S| least.is_at_most(#[trigger] x.larger(least))
}

/// Whether the numbers that deviations are kept from falling below are floors.
pub open spec fn floors_hold<S: Scalar>() -> bool {
    is_floor(S::fraction(1, 1000)) && is_floor(S::fraction(1, 10000))
}

/// No deviation is below its floor: a thousandth for what the networks are given, and a tenth of
/// that for what they learn. Of the numbers it takes only that the larger of two is not below such a
/// floor where one of them is the floor.
pub proof fn lemma_deviations_have_floors<S: Scalar>(
    ts: Seq<Transition<S>>,
    dim: nat,
    predicted: Seq<usize>,
)
    requires
        floors_hold::<S>(),
    ensures
        forall|i: int|
            0 <= i < dim + 2 ==> S::fraction(1, 1000).is_at_most(
                #[trigger] input_deviations(ts, dim)[i],
            ),
        forall|j: int|
            0 <= j < predicted.len() ==> S::fraction(1, 10000).is_at_most(
                #[trigger] delta_deviations(ts, predicted)[j],
            ),
{
}

} // verus!
