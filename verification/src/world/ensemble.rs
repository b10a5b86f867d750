//! Training an ensemble, and how far its predictions drift from what was recorded.
use crate::num::{self, Meaning, Scalar};
use crate::rl::neural::{self, Mlp};
use crate::rl::rng::Rng;
use crate::world::dataset::{self, Dataset, Episode, EpisodeSplit, Transition};
use crate::world::model::{
    self, Dynamics, PredictionWorkspace, WorldConfig, WorldMetrics, WorldModel,
};
use crate::world::scaling::{self, Scaling};
use crate::world::training::{self, network_mse, train_member, Lesson};
use vstd::prelude::*;

verus! {

/// Squared errors, and how many were added up. The count is a 32-bit one and wraps around.
pub struct Tally<S> {
    pub sq: S,
    pub n: i32,
}

impl<S: Scalar> Tally<S> {
    /// The tally with the errors of the first `k` predicted fields added.
    pub open spec fn with_fields(
        self,
        next: Seq<S>,
        target: Seq<S>,
        predicted: Seq<usize>,
        k: nat,
    ) -> Self
        decreases k,
    {
        if k == 0 {
            self
        } else {
            let t = self.with_fields(next, target, predicted, (k - 1) as nat);
            let i = predicted[k - 1] as int;
            Tally {
                sq: t.sq.sum(next[i].difference(target[i]).squared()),
                n: t.n.wrapping_add(1),
            }
        }
    }

    /// The mean of what was added up.
    pub open spec fn mean(self) -> S {
        self.sq.quotient(
            S::counted(
                (if self.n < 1 {
                    1i32
                } else {
                    self.n
                }) as u64,
            ),
        )
    }
}

impl<S: Scalar> Dynamics<S> {
    /// The predicted state, and the tally, after `j` steps from the transition `start` on. The
    /// model goes on from its own predictions.
    pub open spec fn stretched(
        self,
        ts: Seq<Transition<S>>,
        tally: Tally<S>,
        start: int,
        j: nat,
    ) -> (Seq<S>, Tally<S>)
        decreases j,
    {
        if j == 0 {
            (ts[start].state@, tally)
        } else {
            let (state, t) = self.stretched(ts, tally, start, (j - 1) as nat);
            let step = ts[start + j - 1];
            let next = self.next(state, step.action@, None);
            (next, t.with_fields(next, step.next_state@, self.predicted, self.predicted.len()))
        }
    }

    /// The tally after an episode that is cut into stretches of the length `horizon`, from the
    /// transition `start` on.
    pub open spec fn rolled(
        self,
        ts: Seq<Transition<S>>,
        tally: Tally<S>,
        horizon: nat,
        start: nat,
    ) -> Tally<S>
        decreases ts.len() - start,
    {
        if start >= ts.len() || horizon == 0 {
            tally
        } else {
            let end = training::chunk_end(ts.len(), horizon, start);
            let t = self.stretched(ts, tally, start as int, (end - start) as nat).1;
            self.rolled(ts, t, horizon, end)
        }
    }

    /// The tally after the first `n` episodes that `part` lists.
    pub open spec fn rolled_all(
        self,
        episodes: Seq<Episode<S>>,
        part: Seq<usize>,
        horizon: nat,
        n: nat,
    ) -> Tally<S>
        decreases n,
    {
        if n == 0 {
            Tally { sq: num::zero(), n: 0 }
        } else {
            let t = self.rolled_all(episodes, part, horizon, (n - 1) as nat);
            self.rolled(episodes[part[n - 1] as int].transitions@, t, horizon, 0)
        }
    }

    /// The mean squared error of predictions over stretches of the length `horizon`.
    pub open spec fn rollout_error(
        self,
        episodes: Seq<Episode<S>>,
        part: Seq<usize>,
        horizon: nat,
    ) -> S {
        self.rolled_all(episodes, part, horizon, part.len()).mean()
    }
}

impl<S: Scalar> WorldConfig<S> {
    /// Whether the sizes are such that an ensemble can be built for states of the length `dim`.
    pub open spec fn shaped(&self, dim: usize) -> bool {
        &&& self.members >= 2
        &&& self.hidden > 0
        &&& self.epochs > 0
        &&& self.batch_size > 0
        &&& self.predicted_indices@.len() > 0
        &&& forall|k: int|
            0 <= k < self.predicted_indices@.len() ==> (#[trigger] self.predicted_indices@[k]) < dim
    }

    /// Whether an ensemble can be trained for states of the length `dim`.
    pub open spec fn valid(&self, dim: usize) -> bool {
        self.shaped(dim) && num::positive(self.learning_rate)
    }

    /// Whether the configuration can pass for valid.
    pub open spec fn passes(&self, dim: usize) -> bool {
        &&& self.shaped(dim)
        &&& num::repeatable::<S>() ==> num::positive(self.learning_rate)
    }

    /// Whether an ensemble can be trained for states of the length `dim`.
    pub fn is_valid(&self, dim: usize) -> (r: bool)
        ensures
            r ==> self.passes(dim),
            num::repeatable::<S>() ==> r == self.valid(dim),
    {
        let n: usize = self.predicted_indices.len();
        if self.members < 2 || self.hidden == 0 || self.epochs == 0 || self.batch_size == 0 || n
            == 0 {
            return false;
        }
        for k in 0..n
            invariant
                n == self.predicted_indices@.len(),
                forall|i: int| 0 <= i < k ==> (#[trigger] self.predicted_indices@[i]) < dim,
        {
            if self.predicted_indices[k] >= dim {
                assert(!(self.predicted_indices@[k as int] < dim));
                return false;
            }
        }
        self.learning_rate.is_finite() && S::from_count(0).less(self.learning_rate)
    }

    /// Whether everything that training an ensemble on `dataset` builds can be counted, and the
    /// clocks are fields of the state.
    pub fn is_manageable(&self, dataset: &Dataset<S>) -> (r: bool)
        requires
            dataset::transition_count(dataset.episodes@, dataset.episodes@.len()) <= usize::MAX,
        ensures
            r == self.manageable(dataset),
    {
        let dim: usize = dataset.state_dim;
        let outputs: usize = self.predicted_indices.len();
        let rows: usize = dataset.transitions();
        if dim > usize::MAX - 2 {
            return false;
        }
        let clocked: bool = match self.time_index {
            Some(i) => i < dim,
            None => true,
        };
        let held: bool = match self.hold_index {
            Some(i) => i < dim,
            None => true,
        };
        clocked && held && neural::checked_count(dim + 2, self.hidden, outputs).is_some()
            && self.members.checked_mul(outputs).is_some() && rows.checked_mul(outputs).is_some()
    }

    /// Whether everything that training an ensemble on `dataset` builds can be counted, and the
    /// clocks are fields of the state.
    pub open spec fn manageable(&self, dataset: &Dataset<S>) -> bool {
        let dim = dataset.state_dim;
        let outputs = self.predicted_indices@.len();
        let rows = dataset::transition_count(dataset.episodes@, dataset.episodes@.len());
        &&& dim + 2 <= usize::MAX
        &&& neural::parameter_count((dim + 2) as nat, self.hidden as nat, outputs) <= usize::MAX
        &&& self.members * outputs <= usize::MAX
        &&& rows * outputs <= usize::MAX
        &&& self.time_index matches Some(i) ==> i < dim
        &&& self.hold_index matches Some(i) ==> i < dim
    }
}

/// The numbers of transitions of the episodes that `part` lists.
pub open spec fn lens_of<S>(episodes: Seq<Episode<S>>, part: Seq<usize>) -> Seq<usize> {
    Seq::new(part.len(), |k: int| episodes[part[k] as int].transitions@.len() as usize)
}

/// The first part of a division of the episodes.
pub open spec fn train_part(n: nat, seed: u64) -> Seq<usize> {
    dataset::dealt(n, seed).take(n - 2 * dataset::held_out(n))
}

/// The second part of a division of the episodes.
pub open spec fn validation_part(n: nat, seed: u64) -> Seq<usize> {
    dataset::dealt(n, seed).subrange(
        n - 2 * dataset::held_out(n),
        n - dataset::held_out(n),
    )
}

/// The third part of a division of the episodes.
pub open spec fn test_part(n: nat, seed: u64) -> Seq<usize> {
    dataset::dealt(n, seed).skip(n - dataset::held_out(n))
}

/// What an ensemble learns from a dataset under a configuration.
pub open spec fn lesson_of<S: Scalar>(
    data: &Dataset<S>,
    config: &WorldConfig<S>,
    seed: u64,
) -> Lesson<S> {
    let n = data.episodes@.len();
    let dim = data.state_dim as nat;
    let predicted = config.predicted_indices@;
    let train = train_part(n, seed);
    let ts = scaling::gathered(data.episodes@, train, train.len());
    let validation = validation_part(n, seed);
    let vs = scaling::gathered(data.episodes@, validation, validation.len());
    Lesson {
        xs: scaled_inputs(ts, ts, dim),
        ys: scaled_deltas(ts, ts, predicted),
        val_xs: scaled_inputs(vs, ts, dim),
        val_ys: scaled_deltas(vs, ts, predicted),
        lens: lens_of(data.episodes@, train),
        input: dim + 2,
        hidden: config.hidden as nat,
        output: predicted.len(),
        epochs: config.epochs as nat,
        batch: config.batch_size as nat,
        rate: config.learning_rate,
    }
}

/// What the networks are given of `ts`, scaled as `scale` calls for.
pub open spec fn scaled_inputs<S: Scalar>(
    ts: Seq<Transition<S>>,
    scale: Seq<Transition<S>>,
    dim: nat,
) -> Seq<Seq<S>> {
    Seq::new(
        ts.len(),
        |t: int|
            scaling::input_row(
                ts[t],
                dim,
                scaling::input_means(scale, dim),
                scaling::input_deviations(scale, dim),
            ),
    )
}

/// What the networks learn of `ts`, scaled as `scale` calls for.
pub open spec fn scaled_deltas<S: Scalar>(
    ts: Seq<Transition<S>>,
    scale: Seq<Transition<S>>,
    predicted: Seq<usize>,
) -> Seq<Seq<S>> {
    Seq::new(
        ts.len(),
        |t: int|
            scaling::delta_row(
                ts[t],
                predicted,
                scaling::delta_means(scale, predicted),
                scaling::delta_deviations(scale, predicted),
            ),
    )
}

/// The networks that come of training, unless the loss of one of them is not finite.
pub open spec fn trained_nets<S: Scalar>(
    data: &Dataset<S>,
    config: &WorldConfig<S>,
    seed: u64,
) -> Option<Seq<neural::Net<S>>> {
    match lesson_of(data, config, seed).raised(
        seed ^ 0xDEADBEEF,
        config.members as nat,
    ) {
        Some((_, nets)) => Some(nets),
        None => None,
    }
}

/// The ensemble that these networks make up.
pub open spec fn assembled<S: Scalar>(
    data: &Dataset<S>,
    config: &WorldConfig<S>,
    seed: u64,
    nets: Seq<neural::Net<S>>,
) -> Dynamics<S> {
    let n = data.episodes@.len();
    let dim = data.state_dim as nat;
    let predicted = config.predicted_indices@;
    let train = train_part(n, seed);
    let ts = scaling::gathered(data.episodes@, train, train.len());
    Dynamics {
        state_dim: dim,
        predicted,
        time_index: config.time_index,
        hold_index: config.hold_index,
        decision_dt: config.decision_dt,
        members: nets,
        input_mean: scaling::input_means(ts, dim),
        input_std: scaling::input_deviations(ts, dim),
        delta_mean: scaling::delta_means(ts, predicted),
        delta_std: scaling::delta_deviations(ts, predicted),
    }
}

/// The errors of the networks of an ensemble.
pub open spec fn losses<S: Scalar>(
    nets: Seq<neural::Net<S>>,
    xs: Seq<Seq<S>>,
    ys: Seq<Seq<S>>,
) -> Seq<S> {
    Seq::new(nets.len(), |m: int| training::mse(nets[m], xs, ys))
}

/// How well these networks have learned.
pub open spec fn measured<S: Scalar>(
    data: &Dataset<S>,
    config: &WorldConfig<S>,
    seed: u64,
    nets: Seq<neural::Net<S>>,
) -> WorldMetrics<S> {
    let n = data.episodes@.len();
    let lesson = lesson_of(data, config, seed);
    let dynamics = assembled(data, config, seed, nets);
    let test = test_part(n, seed);
    WorldMetrics {
        train_normalized_mse: model::average(losses(nets, lesson.xs, lesson.ys)),
        validation_normalized_mse: model::average(losses(nets, lesson.val_xs, lesson.val_ys)),
        test_one_step_mse: dynamics.rollout_error(data.episodes@, test, 1),
        test_five_step_mse: dynamics.rollout_error(data.episodes@, test, 5),
        train_episodes: train_part(n, seed).len() as usize,
        validation_episodes: validation_part(n, seed).len() as usize,
        test_episodes: test.len() as usize,
    }
}

/// The parts that an ensemble is trained, chosen and tested on are those that [`Dataset::split`]
/// gives for the same seed.
pub proof fn lemma_trained_on_the_split(split: EpisodeSplit, n: nat, seed: u64)
    requires
        n >= 3,
        n <= usize::MAX,
        split.all() == dataset::dealt(n, seed),
        split.validation@.len() == dataset::held_out(n),
        split.test@.len() == dataset::held_out(n),
    ensures
        split.train@ == train_part(n, seed),
        split.validation@ == validation_part(n, seed),
        split.test@ == test_part(n, seed),
{
    dataset::lemma_dealt(n, seed);
    assert(split.all().len() == n);
    assert(split.train@ =~= split.all().take(n - 2 * dataset::held_out(n)));
    assert(split.validation@ =~= split.all().subrange(
        n - 2 * dataset::held_out(n),
        n - dataset::held_out(n),
    ));
    assert(split.test@ =~= split.all().skip(n - dataset::held_out(n)));
}

/// The transitions that are gathered have the shape that those of the episodes have, and the
/// numbers of transitions add up to their number.
proof fn lemma_gathered<S: Scalar>(
    episodes: Seq<Episode<S>>,
    part: Seq<usize>,
    dim: usize,
    n: nat,
)
    requires
        n <= part.len(),
        forall|k: int| 0 <= k < part.len() ==> (#[trigger] part[k]) < episodes.len(),
        forall|i: int| 0 <= i < episodes.len() ==> (#[trigger] episodes[i]).shaped(dim),
    ensures
        scaling::all_shaped(scaling::gathered(episodes, part, n), dim),
        training::offset(lens_of(episodes, part), n) == scaling::gathered(episodes, part, n).len(),
    decreases n,
{
    if n > 0 {
        lemma_gathered(episodes, part, dim, (n - 1) as nat);
        assert(part[n - 1] < episodes.len());
        let e = episodes[part[n - 1] as int];
        assert(e.shaped(dim));
        assert(e.transitions.len() == e.transitions@.len());
    }
}

/// Episodes that are listed once each do not hold more transitions than all together.
proof fn lemma_gathered_count<S>(episodes: Seq<Episode<S>>, part: Seq<usize>, n: nat)
    requires
        part.no_duplicates(),
        forall|k: int| 0 <= k < part.len() ==> (#[trigger] part[k]) < n,
        n <= episodes.len(),
        n <= usize::MAX,
    ensures
        scaling::gathered(episodes, part, part.len()).len() <= dataset::transition_count(
            episodes,
            n,
        ),
    decreases n,
{
    if n == 0 {
        if part.len() > 0 {
            assert(part[0] < 0);
        }
    } else if part.contains((n - 1) as usize) {
        let last = (n - 1) as usize;
        let at = choose|at: int| 0 <= at < part.len() && part[at] == last;
        assert(part[at] < n);
        let rest = part.remove(at);
        assert(rest.no_duplicates());
        assert forall|k: int| 0 <= k < rest.len() implies (#[trigger] rest[k]) < n - 1 by {
            if k < at {
                assert(rest[k] == part[k]);
            } else {
                assert(rest[k] == part[k + 1]);
            }
            assert(rest[k] != last);
        }
        lemma_gathered_count(episodes, rest, (n - 1) as nat);
        lemma_gathered_without(episodes, part, at, part.len());
    } else {
        assert forall|k: int| 0 <= k < part.len() implies (#[trigger] part[k]) < n - 1 by {
            assert(part[k] < n);
            assert(part.contains(part[k]));
        }
        lemma_gathered_count(episodes, part, (n - 1) as nat);
    }
}

/// How many transitions an episode contributes.
proof fn lemma_gathered_without<S>(episodes: Seq<Episode<S>>, part: Seq<usize>, at: int, n: nat)
    requires
        0 <= at < n <= part.len(),
    ensures
        scaling::gathered(episodes, part, n).len() == scaling::gathered(
            episodes,
            part.remove(at),
            (n - 1) as nat,
        ).len() + episodes[part[at] as int].transitions@.len(),
    decreases n,
{
    let rest = part.remove(at);
    if at == n - 1 {
        lemma_gathered_agrees(episodes, part, rest, (n - 1) as nat);
    } else {
        lemma_gathered_without(episodes, part, at, (n - 1) as nat);
        assert(rest[n - 2] == part[n - 1]);
    }
}

/// What is gathered depends on what is listed.
proof fn lemma_gathered_agrees<S>(
    episodes: Seq<Episode<S>>,
    a: Seq<usize>,
    b: Seq<usize>,
    n: nat,
)
    requires
        n <= a.len(),
        n <= b.len(),
        forall|k: int| 0 <= k < n ==> a[k] == b[k],
    ensures
        scaling::gathered(episodes, a, n) == scaling::gathered(episodes, b, n),
    decreases n,
{
    if n > 0 {
        lemma_gathered_agrees(episodes, a, b, (n - 1) as nat);
    }
}

/// The mean of the errors of the networks of an ensemble.
fn mean_loss<S: Scalar>(members: &Vec<Mlp<S>>, xs: &Vec<Vec<S>>, ys: &Vec<Vec<S>>) -> (r: S)
    requires
        xs@.len() == ys@.len(),
        forall|m: int|
            0 <= m < members@.len() ==> {
                &&& (#[trigger] members@[m])@.wf()
                &&& scaling::wide(scaling::rows_of(xs@), members@[m]@.input)
                &&& scaling::wide(scaling::rows_of(ys@), members@[m]@.output)
                &&& xs@.len() * members@[m]@.output <= usize::MAX
            },
    ensures
        num::repeatable::<S>() ==> r == model::average(
            losses(model::nets_of(members@), scaling::rows_of(xs@), scaling::rows_of(ys@)),
        ),
{
    let n: usize = members.len();
    let mut sum: S = S::from_count(0);
    let ghost all = losses(
        model::nets_of(members@),
        scaling::rows_of(xs@),
        scaling::rows_of(ys@),
    );
    for m in 0..n
        invariant
            n == members@.len(),
            xs@.len() == ys@.len(),
            forall|m: int|
                0 <= m < members@.len() ==> {
                    &&& (#[trigger] members@[m])@.wf()
                    &&& scaling::wide(scaling::rows_of(xs@), members@[m]@.input)
                    &&& scaling::wide(scaling::rows_of(ys@), members@[m]@.output)
                    &&& xs@.len() * members@[m]@.output <= usize::MAX
                },
            all == losses(
                model::nets_of(members@),
                scaling::rows_of(xs@),
                scaling::rows_of(ys@),
            ),
            num::repeatable::<S>() ==> sum == num::total(all, m as nat),
    {
        sum = sum.plus(network_mse(&members[m], xs, ys));
    }
    sum.over(S::from_count(n as u64))
}

/// Adds the errors of the predicted fields to a tally.
fn tally_fields<S: Scalar>(
    next: &Vec<S>,
    target: &Vec<S>,
    predicted: &Vec<usize>,
    tally: Tally<S>,
) -> (r: Tally<S>)
    requires
        forall|k: int|
            0 <= k < predicted@.len() ==> (#[trigger] predicted@[k]) < next@.len()
                && predicted@[k] < target@.len(),
    ensures
        num::repeatable::<S>() ==> r == tally.with_fields(
            next@,
            target@,
            predicted@,
            predicted@.len(),
        ),
{
    let count: usize = predicted.len();
    let mut sq: S = tally.sq;
    let mut n: i32 = tally.n;
    for k in 0..count
        invariant
            count == predicted@.len(),
            forall|k: int|
                0 <= k < predicted@.len() ==> (#[trigger] predicted@[k]) < next@.len()
                    && predicted@[k] < target@.len(),
            num::repeatable::<S>() ==> (Tally { sq, n }) == tally.with_fields(
                next@,
                target@,
                predicted@,
                k as nat,
            ),
    {
        let i: usize = predicted[k];
        sq = sq.plus(next[i].minus(target[i]).square());
        n = n.wrapping_add(1);
    }
    Tally { sq, n }
}

impl<S: Scalar> WorldModel<S> {
    /// Predicts one episode stretch by stretch, and adds the errors to a tally.
    fn roll<'a>(
        &self,
        ts: &'a Vec<Transition<S>>,
        horizon: usize,
        ws: &mut PredictionWorkspace<S>,
        tally: Tally<S>,
    ) -> (r: Tally<S>)
        requires
            self@.wf(),
            old(ws).fits(self@),
            horizon > 0,
            forall|t: int| 0 <= t < ts@.len() ==> (#[trigger] ts@[t]).shaped(self.state_dim),
        ensures
            final(ws).fits(self@),
            num::repeatable::<S>() ==> r == self@.rolled(ts@, tally, horizon as nat, 0),
    {
        let n: usize = ts.len();
        let mut tally: Tally<S> = tally;
        let ghost target = self@.rolled(ts@, tally, horizon as nat, 0);
        let mut start: usize = 0;
        while start < n
            invariant
                start <= n == ts@.len(),
                self@.wf(),
                ws.fits(self@),
                horizon > 0,
                forall|t: int| 0 <= t < ts@.len() ==> (#[trigger] ts@[t]).shaped(self.state_dim),
                num::repeatable::<S>() ==> target == self@.rolled(
                    ts@,
                    tally,
                    horizon as nat,
                    start as nat,
                ),
            decreases n - start,
        {
            let end: usize = if horizon < n - start {
                start + horizon
            } else {
                n
            };
            let ghost before = tally;
            assert(ts@[start as int].shaped(self.state_dim));
            let mut pred: Vec<S> = vstd::slice::slice_to_vec(ts[start].state.as_slice());
            let mut next: Vec<S> = num::repeat(S::from_count(0), self.state_dim);
            for t in start..end
                invariant
                    start < end <= n == ts@.len(),
                    self@.wf(),
                    ws.fits(self@),
                    forall|t: int|
                        0 <= t < ts@.len() ==> (#[trigger] ts@[t]).shaped(self.state_dim),
                    pred@.len() == self.state_dim,
                    next@.len() == self.state_dim,
                    num::repeatable::<S>() ==> (pred@, tally) == self@.stretched(
                        ts@,
                        before,
                        start as int,
                        (t - start) as nat,
                    ),
            {
                assert(ts@[t as int].shaped(self.state_dim));
                let step: &'a Transition<S> = &ts[t];
                self.predict(pred.as_slice(), step.action, next.as_mut_slice(), None, ws);
                assert(self@.predicted == self.config.predicted_indices@);
                tally = tally_fields(
                    &next,
                    &step.next_state,
                    &self.config.predicted_indices,
                    tally,
                );
                std::mem::swap(&mut pred, &mut next);
            }
            start = end;
        }
        tally
    }

    /// The mean squared error of predictions over stretches of the length `horizon`, on the
    /// episodes that were kept for testing.
    pub fn rollout_mse(&self, dataset: &Dataset<S>, horizon: usize) -> (r: S)
        requires
            self@.wf(),
            horizon > 0,
            forall|k: int|
                0 <= k < self.split.test@.len() ==> (#[trigger] self.split.test@[k])
                    < dataset.episodes@.len()
                    && dataset.episodes@[self.split.test@[k] as int].shaped(self.state_dim),
        ensures
            num::repeatable::<S>() ==> r == self@.rollout_error(
                dataset.episodes@,
                self.split.test@,
                horizon as nat,
            ),
    {
        let mut ws: PredictionWorkspace<S> = self.workspace();
        let mut tally: Tally<S> = Tally { sq: S::from_count(0), n: 0 };
        let n: usize = self.split.test.len();
        for k in 0..n
            invariant
                n == self.split.test@.len(),
                self@.wf(),
                ws.fits(self@),
                horizon > 0,
                forall|k: int|
                    0 <= k < self.split.test@.len() ==> (#[trigger] self.split.test@[k])
                        < dataset.episodes@.len()
                        && dataset.episodes@[self.split.test@[k] as int].shaped(self.state_dim),
                num::repeatable::<S>() ==> tally == self@.rolled_all(
                    dataset.episodes@,
                    self.split.test@,
                    horizon as nat,
                    k as nat,
                ),
        {
            let e: usize = self.split.test[k];
            assert(dataset.episodes@[self.split.test@[k as int] as int].shaped(self.state_dim));
            tally = self.roll(&dataset.episodes[e].transitions, horizon, &mut ws, tally);
        }
        let count: i32 = if tally.n < 1 {
            1
        } else {
            tally.n
        };
        tally.sq.over(S::from_count(count as u64))
    }

    /// Trains an ensemble on a dataset.
    pub fn train(dataset: &Dataset<S>, config: WorldConfig<S>, seed: u64) -> (r: Result<
        Self,
        String,
    >)
        requires
            dataset.passes() && config.passes(dataset.state_dim) ==> config.manageable(dataset),
        ensures
            r matches Ok(model) ==> {
                &&& dataset.passes()
                &&& config.passes(dataset.state_dim)
                &&& model@.wf()
                &&& model.state_dim == dataset.state_dim
                &&& model.config == config
                &&& model.members@.len() == config.members
                &&& model.version@ == "push-delta-ensemble-v1"@
                &&& model.config_hash@ == dataset.config_hash@
                &&& model.split.train@ == train_part(dataset.episodes@.len(), seed)
                &&& model.split.validation@ == validation_part(dataset.episodes@.len(), seed)
                &&& model.split.test@ == test_part(dataset.episodes@.len(), seed)
                &&& forall|m: int|
                    0 <= m < model@.members.len() ==> {
                        &&& (#[trigger] model@.members[m]).input == dataset.state_dim + 2
                        &&& model@.members[m].hidden == config.hidden
                        &&& model@.members[m].output == config.predicted_indices@.len()
                    }
                &&& model.input_mean@.len() == dataset.state_dim + 2
                &&& model.input_std@.len() == dataset.state_dim + 2
                &&& model.delta_mean@.len() == config.predicted_indices@.len()
                &&& model.delta_std@.len() == config.predicted_indices@.len()
                &&& num::repeatable::<S>() && scaling::floors_hold::<S>() ==> {
                    &&& forall|i: int|
                        0 <= i < model.input_std@.len() ==> S::fraction(1, 1000).is_at_most(
                            #[trigger] model.input_std@[i],
                        )
                    &&& forall|j: int|
                        0 <= j < model.delta_std@.len() ==> S::fraction(1, 10000).is_at_most(
                            #[trigger] model.delta_std@[j],
                        )
                }
                &&& model.metrics.train_episodes == model.split.train@.len()
                &&& model.metrics.validation_episodes == model.split.validation@.len()
                &&& model.metrics.test_episodes == model.split.test@.len()
                &&& num::repeatable::<S>() ==> model.metrics.test_one_step_mse
                    == model@.rollout_error(dataset.episodes@, model.split.test@, 1)
                &&& num::repeatable::<S>() ==> model.metrics.test_five_step_mse
                    == model@.rollout_error(dataset.episodes@, model.split.test@, 5)
            },
            num::repeatable::<S>() ==> match dataset.complaint() {
                Some(message) => r matches Err(e) && e@ == message,
                None => if !config.valid(dataset.state_dim) {
                    r matches Err(e) && e@ == "invalid world configuration"@
                } else {
                    match trained_nets(dataset, &config, seed) {
                        None => r matches Err(e) && e@ == "nonfinite world-model loss"@,
                        Some(nets) => {
                            &&& r is Ok
                            &&& r->Ok_0@ == assembled(dataset, &config, seed, nets)
                            &&& r->Ok_0.metrics == measured(dataset, &config, seed, nets)
                        },
                    }
                },
            },
    {
        match dataset.validate() {
            Err(e) => return Err(e),
            Ok(_) => {},
        }
        if !config.is_valid(dataset.state_dim) {
            return Err("invalid world configuration".to_owned());
        }
        let dim: usize = dataset.state_dim;
        let outputs: usize = config.predicted_indices.len();
        let held: usize = dataset.episodes.len();
        let split: EpisodeSplit = dataset.split(seed);
        let ghost count = dataset.episodes@.len();
        proof {
            lemma_trained_on_the_split(split, count, seed);
            dataset::lemma_dealt(count, seed);
            lemma_split_parts(split, count);
        }
        let training: Vec<&Transition<S>> = scaling::gather(dataset, &split.train);
        let validation: Vec<&Transition<S>> = scaling::gather(dataset, &split.validation);
        let ghost ts = scaling::behind(training@);
        let ghost vs = scaling::behind(validation@);
        proof {
            lemma_gathered(dataset.episodes@, split.train@, dim, split.train@.len());
            lemma_gathered(dataset.episodes@, split.validation@, dim, split.validation@.len());
            lemma_gathered_count(dataset.episodes@, split.train@, count);
            lemma_gathered_count(dataset.episodes@, split.validation@, count);
        }
        let scale: Scaling<S> = Scaling::of(&training, dim, &config.predicted_indices);
        let (train_x, train_y) = scale.normalize(&training, dim, &config.predicted_indices);
        let (val_x, val_y) = scale.normalize(&validation, dim, &config.predicted_indices);
        let ghost lesson = lesson_of(dataset, &config, seed);
        proof {
            let rows = dataset::transition_count(dataset.episodes@, count);
            assert(ts.len() * outputs <= rows * outputs && vs.len() * outputs <= rows * outputs)
                by (nonlinear_arith)
                requires
                    ts.len() <= rows,
                    vs.len() <= rows,
            ;
            if num::repeatable::<S>() {
                assert(scaling::rows_of(train_x@) =~= lesson.xs);
                assert(scaling::rows_of(train_y@) =~= lesson.ys);
                assert(scaling::rows_of(val_x@) =~= lesson.val_xs);
                assert(scaling::rows_of(val_y@) =~= lesson.val_ys);
            }
        }
        let mut lens: Vec<usize> = Vec::with_capacity(split.train.len());
        let parts: usize = split.train.len();
        for k in 0..parts
            invariant
                parts == split.train@.len(),
                forall|i: int|
                    0 <= i < split.train@.len() ==> (#[trigger] split.train@[i])
                        < dataset.episodes@.len(),
                lens@ == lens_of(dataset.episodes@, split.train@).take(k as int),
        {
            lens.push(dataset.episodes[split.train[k]].transitions.len());
            assert(lens@ =~= lens_of(dataset.episodes@, split.train@).take(k + 1));
        }
        assert(lens@ =~= lens_of(dataset.episodes@, split.train@));
        let mut rng: Rng<S> = Rng::new(seed ^ 0xDEADBEEF);
        let mut members: Vec<Mlp<S>> = Vec::with_capacity(config.members);
        let widths: (usize, usize, usize) = (dim + 2, config.hidden, outputs);
        for m in 0..config.members
            invariant
                config.passes(dim),
                widths == ((dim + 2) as usize, config.hidden, outputs),
                dim + 2 <= usize::MAX,
                outputs == config.predicted_indices@.len(),
                neural::parameter_count((dim + 2) as nat, config.hidden as nat, outputs as nat)
                    <= usize::MAX,
                train_x@.len() == train_y@.len(),
                val_x@.len() == val_y@.len(),
                scaling::wide(scaling::rows_of(train_x@), (dim + 2) as nat),
                scaling::wide(scaling::rows_of(train_y@), outputs as nat),
                scaling::wide(scaling::rows_of(val_x@), (dim + 2) as nat),
                scaling::wide(scaling::rows_of(val_y@), outputs as nat),
                val_x@.len() * outputs <= usize::MAX,
                training::offset(lens@, lens@.len()) == train_x@.len(),
                lesson == lesson_of(dataset, &config, seed),
                dim == dataset.state_dim,
                lens@ == lesson.lens,
                num::repeatable::<S>() ==> dataset.complaint() is None && config.valid(dim),
                num::repeatable::<S>() ==> {
                    &&& scaling::rows_of(train_x@) == lesson.xs
                    &&& scaling::rows_of(train_y@) == lesson.ys
                    &&& scaling::rows_of(val_x@) == lesson.val_xs
                    &&& scaling::rows_of(val_y@) == lesson.val_ys
                },
                members@.len() == m,
                forall|i: int|
                    0 <= i < m ==> {
                        &&& (#[trigger] members@[i])@.wf()
                        &&& members@[i]@.input == dim + 2
                        &&& members@[i]@.hidden == config.hidden
                        &&& members@[i]@.output == outputs
                    },
                num::repeatable::<S>() ==> lesson.raised(seed ^ 0xDEADBEEF, m as nat) == Some(
                    (rng.state, model::nets_of(members@)),
                ),
        {
            let ghost before = model::nets_of(members@);
            let (best, best_loss) = train_member(
                &train_x,
                &train_y,
                &val_x,
                &val_y,
                &lens,
                widths,
                config.epochs,
                config.batch_size,
                config.learning_rate,
                &mut rng,
            );
            if !best_loss.is_finite() {
                proof {
                    if num::repeatable::<S>() {
                        training::lemma_raised_fails(
                            lesson,
                            seed ^ 0xDEADBEEF,
                            (m + 1) as nat,
                            config.members as nat,
                        );
                    }
                }
                return Err("nonfinite world-model loss".to_owned());
            }
            members.push(best);
            proof {
                assert(model::nets_of(members@) =~= before.push(best@));
            }
        }
        let train_loss: S = mean_loss(&members, &train_x, &train_y);
        let validation_loss: S = mean_loss(&members, &val_x, &val_y);
        let train_episodes: usize = split.train.len();
        let validation_episodes: usize = split.validation.len();
        let test_episodes: usize = split.test.len();
        let mut model: Self = WorldModel {
            version: "push-delta-ensemble-v1".to_owned(),
            config_hash: dataset.config_hash.as_str().to_owned(),
            config,
            state_dim: dim,
            members,
            input_mean: scale.input_mean,
            input_std: scale.input_std,
            delta_mean: scale.delta_mean,
            delta_std: scale.delta_std,
            split,
            metrics: WorldMetrics::default(),
        };
        model.metrics.train_normalized_mse = train_loss;
        model.metrics.validation_normalized_mse = validation_loss;
        model.metrics.train_episodes = train_episodes;
        model.metrics.validation_episodes = validation_episodes;
        model.metrics.test_episodes = test_episodes;
        proof {
            assert forall|k: int| 0 <= k < model@.members.len() implies {
                &&& (#[trigger] model@.members[k]).wf()
                &&& model@.members[k].input == model@.state_dim + 2
                &&& model@.members[k].hidden == config.hidden
                &&& model@.members[k].output == model@.predicted.len()
            } by {
                assert(model@.members[k] == model.members@[k]@);
            }
        }
        let one_step: S = model.rollout_mse(dataset, 1);
        let five_step: S = model.rollout_mse(dataset, 5);
        model.metrics.test_one_step_mse = one_step;
        model.metrics.test_five_step_mse = five_step;
        proof {
            if num::repeatable::<S>() && scaling::floors_hold::<S>() {
                scaling::lemma_deviations_have_floors(
                    ts,
                    dim as nat,
                    config.predicted_indices@,
                );
            }
        }
        Ok(model)
    }
}

/// The parts of a division list episodes that exist, each once.
proof fn lemma_split_parts(split: EpisodeSplit, n: nat)
    requires
        split.divides(n),
    ensures
        split.train@.no_duplicates(),
        split.validation@.no_duplicates(),
        forall|k: int| 0 <= k < split.train@.len() ==> (#[trigger] split.train@[k]) < n,
        forall|k: int| 0 <= k < split.validation@.len() ==> (#[trigger] split.validation@[k]) < n,
        forall|k: int| 0 <= k < split.test@.len() ==> (#[trigger] split.test@[k]) < n,
{
    let all = split.all();
    let a = split.train@.len() as int;
    let b = a + split.validation@.len();
    assert forall|k: int| 0 <= k < split.train@.len() implies (#[trigger] split.train@[k]) < n by {
        assert(all[k] == split.train@[k]);
        assert(all.contains(all[k]));
    }
    assert forall|k: int| 0 <= k < split.validation@.len() implies (#[trigger] split.validation@[k])
        < n by {
        assert(all[a + k] == split.validation@[k]);
        assert(all.contains(all[a + k]));
    }
    assert forall|k: int| 0 <= k < split.test@.len() implies (#[trigger] split.test@[k]) < n by {
        assert(all[b + k] == split.test@[k]);
        assert(all.contains(all[b + k]));
    }
    assert(split.train@.no_duplicates()) by {
        assert forall|i: int, j: int|
            0 <= i < split.train@.len() && 0 <= j < split.train@.len() && i != j implies
            split.train@[i] != split.train@[j] by {
            assert(all[i] != all[j]);
        }
    }
    assert(split.validation@.no_duplicates()) by {
        assert forall|i: int, j: int|
            0 <= i < split.validation@.len() && 0 <= j < split.validation@.len() && i != j implies
            split.validation@[i] != split.validation@[j] by {
            assert(all[a + i] != all[a + j]);
        }
    }
}

} // verus!
