//! What a model predicts beside what was recorded.
use crate::num::{self, Meaning, Scalar};
use crate::world::dataset::{Dataset, Episode, Transition};
use crate::world::model::{self, Dynamics, PredictionWorkspace, WorldModel};
use crate::stages::adapters;
use vstd::prelude::*;

verus! {

/// One episode as it was recorded, and as a model predicts it from the same start with the same
/// actions. The model goes on from its own predictions, so that errors add up.
#[derive(Debug)]
pub struct ComparedEpisode<S> {
    pub id: u64,
    pub seed: u64,
    pub real_states: Vec<Vec<S>>,
    pub predicted_states: Vec<Vec<S>>,
    pub actions: Vec<[S; 2]>,
    pub rewards: Vec<S>,
    pub uncertainties: Vec<S>,
}

/// All episodes of a dataset beside the predictions of a model.
#[derive(Debug)]
pub struct Comparison<S> {
    pub episodes: Vec<ComparedEpisode<S>>,
    pub transitions: usize,
    pub mean_mse: S,
}

/// The squared errors so far, and how many transitions they come from.
#[derive(Clone, Copy)]
pub struct ErrorSum<S> {
    pub sq: S,
    pub count: usize,
}

/// The squares of the differences of two states.
pub open spec fn squared_gaps<S: Scalar>(a: Seq<S>, b: Seq<S>) -> Seq<S> {
    Seq::new(a.len(), |i: int| a[i].difference(b[i]).squared())
}

impl<S: Scalar> Dynamics<S> {
    /// The state that is predicted after the first `n` actions of an episode.
    pub open spec fn foreseen(self, ts: Seq<Transition<S>>, n: nat) -> Seq<S>
        decreases n,
    {
        if n == 0 {
            ts[0].state@
        } else {
            self.next(self.foreseen(ts, (n - 1) as nat), ts[n - 1].action@, None)
        }
    }

    /// How far the prediction is off after the action with the number `i`.
    pub open spec fn gap(self, ts: Seq<Transition<S>>, i: int) -> S {
        let gaps = squared_gaps(self.foreseen(ts, (i + 1) as nat), ts[i].next_state@);
        num::total(gaps, gaps.len()).quotient(S::counted(self.state_dim as u64))
    }

    /// The errors after the first `n` transitions of an episode.
    pub open spec fn with_gaps(
        self,
        ts: Seq<Transition<S>>,
        sum: ErrorSum<S>,
        n: nat,
    ) -> ErrorSum<S>
        decreases n,
    {
        if n == 0 {
            sum
        } else {
            let s = self.with_gaps(ts, sum, (n - 1) as nat);
            ErrorSum { sq: s.sq.sum(self.gap(ts, n - 1)), count: s.count.wrapping_add(1) }
        }
    }

    /// The errors after the first `n` episodes.
    pub open spec fn all_gaps(self, episodes: Seq<Episode<S>>, n: nat) -> ErrorSum<S>
        decreases n,
    {
        if n == 0 {
            ErrorSum { sq: num::zero(), count: 0 }
        } else {
            let ts = episodes[n - 1].transitions@;
            self.with_gaps(ts, self.all_gaps(episodes, (n - 1) as nat), ts.len())
        }
    }
}

impl<S: Scalar> ComparedEpisode<S> {
    /// Whether this is the comparison of the given episode. The first state of an episode, and its
    /// next states, are what was recorded.
    pub open spec fn compares(&self, model: Dynamics<S>, e: Episode<S>) -> bool {
        let ts = e.transitions@;
        let n = ts.len();
        let shown = if n == 0 {
            0
        } else {
            n + 1
        };
        let actual = adapters::states_of(self.real_states@);
        let foreseen = adapters::states_of(self.predicted_states@);
        &&& self.id == e.id
        &&& self.seed == e.seed
        &&& actual.len() == shown
        &&& foreseen.len() == shown
        &&& n > 0 ==> actual[0] == ts[0].state@ && foreseen[0] == ts[0].state@
        &&& forall|i: int| 0 <= i < n ==> #[trigger] actual[i + 1] == ts[i].next_state@
        &&& self.actions@ == Seq::new(n, |i: int| ts[i].action)
        &&& self.rewards@ == Seq::new(n, |i: int| ts[i].reward)
        &&& self.uncertainties@.len() == n
        &&& num::repeatable::<S>() ==> forall|i: int|
            0 <= i < shown ==> #[trigger] foreseen[i] == model.foreseen(ts, i as nat)
        &&& num::repeatable::<S>() ==> forall|i: int|
            0 <= i < n ==> #[trigger] self.uncertainties@[i] == model.uncertainty(
                model.foreseen(ts, i as nat),
                ts[i].action@,
            )
    }
}

/// The mean squared difference of two states.
fn state_gap<S: Scalar>(a: &Vec<S>, b: &Vec<S>, dim: usize) -> (r: S)
    requires
        a@.len() == b@.len(),
    ensures
        num::repeatable::<S>() ==> r == num::total(
            squared_gaps(a@, b@),
            squared_gaps(a@, b@).len(),
        ).quotient(S::counted(dim as u64)),
{
    let n: usize = a.len();
    let mut sum: S = S::from_count(0);
    for i in 0..n
        invariant
            n == a@.len() == b@.len(),
            num::repeatable::<S>() ==> sum == num::total(squared_gaps(a@, b@), i as nat),
    {
        sum = sum.plus(a[i].minus(b[i]).square());
    }
    sum.over(S::from_count(dim as u64))
}

/// Puts the predictions for an episode beside it, and adds up the errors.
fn compare_episode<S: Scalar>(
    model: &WorldModel<S>,
    e: &Episode<S>,
    sum: ErrorSum<S>,
    ws: &mut PredictionWorkspace<S>,
) -> (r: (ComparedEpisode<S>, ErrorSum<S>))
    requires
        model@.wf(),
        old(ws).fits(model@),
        e.shaped(model.state_dim),
    ensures
        final(ws).fits(model@),
        r.0.compares(model@, *e),
        num::repeatable::<S>() ==> r.1 == model@.with_gaps(
            e.transitions@,
            sum,
            e.transitions@.len(),
        ),
{
    let n: usize = e.transitions.len();
    let ghost ts = e.transitions@;
    let mut actual: Vec<Vec<S>> = Vec::new();
    let mut foreseen: Vec<Vec<S>> = Vec::new();
    let mut actions: Vec<[S; 2]> = Vec::with_capacity(n);
    let mut rewards: Vec<S> = Vec::with_capacity(n);
    let mut uncertainties: Vec<S> = Vec::with_capacity(n);
    let mut sum: ErrorSum<S> = sum;
    let ghost first = sum;
    if n > 0 {
        assert(ts[0].shaped(model.state_dim));
        actual.push(vstd::slice::slice_to_vec(e.transitions[0].state.as_slice()));
        foreseen.push(vstd::slice::slice_to_vec(e.transitions[0].state.as_slice()));
    }
    for i in 0..n
        invariant
            n == ts.len(),
            ts == e.transitions@,
            e.shaped(model.state_dim),
            model@.wf(),
            ws.fits(model@),
            n > 0 ==> actual@.len() == i + 1 && foreseen@.len() == i + 1,
            n == 0 ==> actual@.len() == 0 && foreseen@.len() == 0,
            n > 0 ==> actual@[0]@ == ts[0].state@ && foreseen@[0]@ == ts[0].state@,
            forall|k: int|
                0 <= k < foreseen@.len() ==> (#[trigger] foreseen@[k])@.len() == model.state_dim,
            forall|k: int| 1 <= k <= i ==> (#[trigger] actual@[k])@ == ts[k - 1].next_state@,
            actions@ == Seq::new(i as nat, |k: int| ts[k].action),
            rewards@ == Seq::new(i as nat, |k: int| ts[k].reward),
            uncertainties@.len() == i,
            num::repeatable::<S>() ==> {
                &&& forall|k: int|
                    0 <= k < foreseen@.len() ==> (#[trigger] foreseen@[k])@ == model@.foreseen(
                        ts,
                        k as nat,
                    )
                &&& forall|k: int|
                    0 <= k < i ==> #[trigger] uncertainties@[k] == model@.uncertainty(
                        model@.foreseen(ts, k as nat),
                        ts[k].action@,
                    )
                &&& sum == model@.with_gaps(ts, first, i as nat)
            },
    {
        let t: &Transition<S> = &e.transitions[i];
        assert(ts[i as int].shaped(model.state_dim));
        let ghost shown = foreseen@;
        let ghost doubts = uncertainties@;
        let mut next: Vec<S> = num::repeat(S::from_count(0), model.state_dim);
        let doubt: S = model.predict(
            foreseen[i].as_slice(),
            t.action,
            next.as_mut_slice(),
            None,
            ws,
        );
        let gap: S = state_gap(&next, &t.next_state, model.state_dim);
        proof {
            if num::repeatable::<S>() {
                assert(next@ == model@.foreseen(ts, (i + 1) as nat));
                assert(gap == model@.gap(ts, i as int));
            }
        }
        sum = ErrorSum { sq: sum.sq.plus(gap), count: sum.count.wrapping_add(1) };
        actual.push(vstd::slice::slice_to_vec(t.next_state.as_slice()));
        foreseen.push(next);
        actions.push(t.action);
        rewards.push(t.reward);
        uncertainties.push(doubt);
        proof {
            assert(actions@ =~= Seq::new((i + 1) as nat, |k: int| ts[k].action));
            assert(rewards@ =~= Seq::new((i + 1) as nat, |k: int| ts[k].reward));
            if num::repeatable::<S>() {
                assert forall|k: int| 0 <= k < i + 1 implies #[trigger] uncertainties@[k]
                    == model@.uncertainty(model@.foreseen(ts, k as nat), ts[k].action@) by {
                    if k < i {
                        assert(uncertainties@[k] == doubts[k]);
                    } else {
                        assert(shown[i as int]@ == model@.foreseen(ts, i as nat));
                    }
                }
            }
        }
    }
    let r: ComparedEpisode<S> = ComparedEpisode {
        id: e.id,
        seed: e.seed,
        real_states: actual,
        predicted_states: foreseen,
        actions,
        rewards,
        uncertainties,
    };
    proof {
        let shown = adapters::states_of(r.real_states@);
        assert forall|i: int| 0 <= i < n implies #[trigger] shown[i + 1] == ts[i].next_state@ by {
            assert(r.real_states@[i + 1]@ == ts[i].next_state@);
        }
    }
    (r, sum)
}

/// Puts the predictions of a model beside all episodes of a dataset.
pub fn compare_world<S: Scalar>(dataset: &Dataset<S>, model: &WorldModel<S>) -> (r: Comparison<S>)
    requires
        model@.wf(),
        forall|e: int|
            0 <= e < dataset.episodes@.len() ==> (#[trigger] dataset.episodes@[e]).shaped(
                model.state_dim,
            ),
    ensures
        r.episodes@.len() == dataset.episodes@.len(),
        forall|e: int|
            0 <= e < r.episodes@.len() ==> (#[trigger] r.episodes@[e]).compares(
                model@,
                dataset.episodes@[e],
            ),
        num::repeatable::<S>() ==> ({
            let sum = model@.all_gaps(dataset.episodes@, dataset.episodes@.len());
            &&& r.transitions == sum.count
            &&& r.mean_mse == sum.sq.quotient(
                S::counted(
                    (if sum.count == 0 {
                        1
                    } else {
                        sum.count
                    }) as u64,
                ),
            )
        }),
{
    let n: usize = dataset.episodes.len();
    let mut ws: PredictionWorkspace<S> = model.workspace();
    let mut all: Vec<ComparedEpisode<S>> = Vec::with_capacity(n);
    let mut sum: ErrorSum<S> = ErrorSum { sq: S::from_count(0), count: 0 };
    for e in 0..n
        invariant
            n == dataset.episodes@.len(),
            model@.wf(),
            ws.fits(model@),
            forall|e: int|
                0 <= e < dataset.episodes@.len() ==> (#[trigger] dataset.episodes@[e]).shaped(
                    model.state_dim,
                ),
            all@.len() == e,
            forall|k: int|
                0 <= k < e ==> (#[trigger] all@[k]).compares(model@, dataset.episodes@[k]),
            num::repeatable::<S>() ==> sum == model@.all_gaps(dataset.episodes@, e as nat),
    {
        assert(dataset.episodes@[e as int].shaped(model.state_dim));
        let (compared, total) = compare_episode(model, &dataset.episodes[e], sum, &mut ws);
        sum = total;
        all.push(compared);
    }
    let count: usize = if sum.count == 0 {
        1
    } else {
        sum.count
    };
    Comparison {
        episodes: all,
        transitions: sum.count,
        mean_mse: sum.sq.over(S::from_count(count as u64)),
    }
}

} // verus!
