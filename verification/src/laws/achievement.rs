//! What the averages of an evaluation say.
use crate::env::state::{self, FullState};
use crate::laws::algebra;
use crate::laws::exact::{self, exact};
use crate::num::{self, Meaning, Scalar};
use crate::stages::dreams::Vision;
use crate::stages::evaluation::{self, EpisodeReport};
use vstd::prelude::*;

verus! {

/// The places of the first `n` reports that are marked successful.
pub open spec fn solved<S>(reports: Seq<EpisodeReport<S>>, n: nat) -> Set<int> {
    Set::new(|i: int| 0 <= i < n && reports[i].success)
}

/// The number of successes is that of the reports marked successful.
pub proof fn law_successes_are_counted<S>(reports: Seq<EpisodeReport<S>>, n: nat)
    ensures
        solved(reports, n).finite(),
        evaluation::successes(reports, n) == solved(reports, n).len(),
        evaluation::successes(reports, n) <= n,
    decreases n,
{
    if n == 0 {
        assert(solved(reports, 0) =~= Set::empty());
    } else {
        law_successes_are_counted(reports, (n - 1) as nat);
        let before = solved(reports, (n - 1) as nat);
        if reports[n - 1].success {
            assert(solved(reports, n) =~= before.insert(n - 1));
        } else {
            assert(solved(reports, n) =~= before);
        }
    }
}

/// The reported success rate is the number of reports marked successful, divided by the number of
/// episodes.
pub proof fn law_success_rate_is_share<S: Scalar>(
    v: spec_fn(S) -> real,
    reports: Seq<EpisodeReport<S>>,
)
    requires
        exact(v),
        0 < reports.len() <= u64::MAX,
    ensures
        ({
            let rate = v(evaluation::averaged(reports, reports.len()).success_rate);
            &&& rate * (reports.len() as real) == solved(reports, reports.len()).len() as real
            &&& 0real <= rate <= 1real
        }),
{
    let n = reports.len();
    law_successes_are_counted(reports, n);
    let d = n as real;
    let k = evaluation::successes(reports, n) as real;
    let rate = v(evaluation::averaged(reports, n).success_rate);
    assert(v(S::counted(n as u64)) == d);
    assert(rate == k / d);
    algebra::lemma_divided(k, d);
    algebra::lemma_signs(rate, d);
    algebra::lemma_sign_of_factor(d, rate);
    algebra::lemma_scaled_order(rate, 1real, d);
    algebra::lemma_units(d);
}

/// Where every episode is a success, the success rate is the number of episodes divided by itself,
/// and where none is, it is zero divided by that number.
pub proof fn law_unanimous_success_rates<S: Scalar>(reports: Seq<EpisodeReport<S>>)
    requires
        0 < reports.len() <= u64::MAX,
    ensures
        ({
            let n = reports.len();
            let rate = evaluation::averaged(reports, n).success_rate;
            let d = S::counted(n as u64);
            &&& (forall|i: int| 0 <= i < n ==> (#[trigger] reports[i]).success) ==> rate
                == d.quotient(d)
            &&& (forall|i: int| 0 <= i < n ==> !(#[trigger] reports[i]).success) ==> rate
                == num::zero::<S>().quotient(d)
        }),
{
    let n = reports.len();
    if forall|i: int| 0 <= i < n ==> (#[trigger] reports[i]).success {
        lemma_all_solved(reports, n);
    }
    if forall|i: int| 0 <= i < n ==> !(#[trigger] reports[i]).success {
        lemma_none_solved(reports, n);
    }
}

/// Where all reports are marked successful, all are counted.
proof fn lemma_all_solved<S>(reports: Seq<EpisodeReport<S>>, n: nat)
    requires
        forall|i: int| 0 <= i < n ==> (#[trigger] reports[i]).success,
    ensures
        evaluation::successes(reports, n) == n,
    decreases n,
{
    if n > 0 {
        assert(reports[n - 1].success);
        lemma_all_solved(reports, (n - 1) as nat);
    }
}

/// Where no report is marked successful, none is counted.
proof fn lemma_none_solved<S>(reports: Seq<EpisodeReport<S>>, n: nat)
    requires
        forall|i: int| 0 <= i < n ==> !(#[trigger] reports[i]).success,
    ensures
        evaluation::successes(reports, n) == 0,
    decreases n,
{
    if n > 0 {
        assert(!reports[n - 1].success);
        lemma_none_solved(reports, (n - 1) as nat);
    }
}

/// Each average depends on nothing but the values it is an average of: reports that agree in their
/// success marks have the same success rate, whatever else differs, and so on for the scores, the
/// steps and the two distances.
pub proof fn law_averages_stand_apart<S: Scalar>(
    reports: Seq<EpisodeReport<S>>,
    others: Seq<EpisodeReport<S>>,
    count: nat,
)
    requires
        reports.len() == others.len(),
    ensures
        ({
            let n = reports.len();
            let a = evaluation::averaged(reports, count);
            let b = evaluation::averaged(others, count);
            &&& (forall|i: int| 0 <= i < n ==> (#[trigger] reports[i]).success == others[i].success)
                ==> a.success_rate == b.success_rate
            &&& (forall|i: int| 0 <= i < n ==> (#[trigger] reports[i]).score == others[i].score)
                ==> a.mean_return == b.mean_return
            &&& (forall|i: int| 0 <= i < n ==> (#[trigger] reports[i]).steps == others[i].steps)
                ==> a.mean_steps == b.mean_steps
            &&& (forall|i: int|
                0 <= i < n ==> (#[trigger] reports[i]).final_distance == others[i].final_distance)
                ==> a.mean_final_distance == b.mean_final_distance
            &&& (forall|i: int|
                0 <= i < n ==> (#[trigger] reports[i]).min_distance == others[i].min_distance)
                ==> a.mean_min_distance == b.mean_min_distance
        }),
{
    let n = reports.len();
    if forall|i: int| 0 <= i < n ==> (#[trigger] reports[i]).success == others[i].success {
        lemma_same_successes(reports, others, n);
    }
    if forall|i: int| 0 <= i < n ==> (#[trigger] reports[i]).score == others[i].score {
        assert(Seq::new(n, |i: int| reports[i].score) =~= Seq::new(n, |i: int| others[i].score));
    }
    if forall|i: int| 0 <= i < n ==> (#[trigger] reports[i]).steps == others[i].steps {
        lemma_same_steps(reports, others, n);
    }
    if forall|i: int|
        0 <= i < n ==> (#[trigger] reports[i]).final_distance == others[i].final_distance {
        assert(Seq::new(n, |i: int| reports[i].final_distance) =~= Seq::new(
            n,
            |i: int| others[i].final_distance,
        ));
    }
    if forall|i: int|
        0 <= i < n ==> (#[trigger] reports[i]).min_distance == others[i].min_distance {
        assert(Seq::new(n, |i: int| reports[i].min_distance) =~= Seq::new(
            n,
            |i: int| others[i].min_distance,
        ));
    }
}

/// Reports with the same success marks have as many successes.
proof fn lemma_same_successes<S>(
    reports: Seq<EpisodeReport<S>>,
    others: Seq<EpisodeReport<S>>,
    n: nat,
)
    requires
        forall|i: int| 0 <= i < n ==> (#[trigger] reports[i]).success == others[i].success,
    ensures
        evaluation::successes(reports, n) == evaluation::successes(others, n),
    decreases n,
{
    if n > 0 {
        assert(reports[n - 1].success == others[n - 1].success);
        lemma_same_successes(reports, others, (n - 1) as nat);
    }
}

/// Reports with the same steps have the same sum of steps.
proof fn lemma_same_steps<S>(
    reports: Seq<EpisodeReport<S>>,
    others: Seq<EpisodeReport<S>>,
    n: nat,
)
    requires
        forall|i: int| 0 <= i < n ==> (#[trigger] reports[i]).steps == others[i].steps,
    ensures
        evaluation::steps_total(reports, n) == evaluation::steps_total(others, n),
    decreases n,
{
    if n > 0 {
        assert(reports[n - 1].steps == others[n - 1].steps);
        lemma_same_steps(reports, others, (n - 1) as nat);
    }
}

/// The other averages, times the number of episodes, are what the episodes' values add up to.
pub proof fn law_averages_are_means<S: Scalar>(
    v: spec_fn(S) -> real,
    reports: Seq<EpisodeReport<S>>,
)
    requires
        exact(v),
        0 < reports.len() <= u64::MAX,
    ensures
        ({
            let n = reports.len();
            let d = n as real;
            let a = evaluation::averaged(reports, n);
            &&& v(a.mean_return) * d == exact::added(
                v,
                Seq::new(n, |i: int| reports[i].score),
                n,
            )
            &&& v(a.mean_steps) * d == evaluation::steps_total(reports, n) as real
            &&& v(a.mean_final_distance) * d == exact::added(
                v,
                Seq::new(n, |i: int| reports[i].final_distance),
                n,
            )
            &&& v(a.mean_min_distance) * d == exact::added(
                v,
                Seq::new(n, |i: int| reports[i].min_distance),
                n,
            )
        }),
{
    let n = reports.len();
    let d = n as real;
    assert(v(S::counted(n as u64)) == d);
    let scores = Seq::new(n, |i: int| reports[i].score);
    let lasts = Seq::new(n, |i: int| reports[i].final_distance);
    let leasts = Seq::new(n, |i: int| reports[i].min_distance);
    exact::lemma_total_reads(v, scores, n);
    exact::lemma_total_reads(v, lasts, n);
    exact::lemma_total_reads(v, leasts, n);
    algebra::lemma_divided(v(num::total(scores, n)), d);
    algebra::lemma_divided(v(num::total(lasts, n)), d);
    algebra::lemma_divided(v(num::total(leasts, n)), d);
    algebra::lemma_divided(evaluation::steps_total(reports, n) as real, d);
}

/// The steps add up without loss as long as the sum fits a machine word.
pub proof fn law_steps_add_up<S>(reports: Seq<EpisodeReport<S>>, n: nat)
    requires
        0 < n,
        evaluation::steps_total(reports, (n - 1) as nat) + reports[n - 1].steps <= usize::MAX,
    ensures
        evaluation::steps_total(reports, n) == evaluation::steps_total(reports, (n - 1) as nat)
            + reports[n - 1].steps,
{
}

/// The least of some numbers is one of them, and none is below it.
pub proof fn law_least_is_least<S: Scalar>(v: spec_fn(S) -> real, values: Seq<S>, n: nat)
    requires
        exact(v),
        0 < n <= values.len(),
        forall|i: int|
            0 <= i < values.len() ==> v(#[trigger] values[i]) <= v(S::fraction(1, 0)),
    ensures
        forall|i: int|
            0 <= i < n ==> v(evaluation::least(values, n)) <= v(#[trigger] values[i]),
        exists|i: int| 0 <= i < n && v(evaluation::least(values, n)) == v(#[trigger] values[i]),
    decreases n,
{
    let x = values[n - 1];
    assert(v(x) <= v(S::fraction(1, 0)));
    let m = (n - 1) as nat;
    assert(v(evaluation::least(values, n)) == exact::least(
        v(evaluation::least(values, m)),
        v(x),
    ));
    if m > 0 {
        law_least_is_least(v, values, m);
    }
    if v(evaluation::least(values, n)) == v(x) {
        assert(v(evaluation::least(values, n)) == v(values[n - 1]));
    } else {
        let i = choose|i: int|
            0 <= i < m && v(evaluation::least(values, m)) == v(#[trigger] values[i]);
        assert(v(evaluation::least(values, n)) == v(values[i]));
    }
}

/// The distance that a report speaks of is that of the block from the goal.
pub proof fn law_remaining_distance<S: Scalar>(s: FullState<S>)
    ensures
        evaluation::remaining(state::encoded(s)) == s.block.distance(s.goal),
{
    state::lemma_decode_of_encode(s);
}

/// The places of the first `n` steps in which the model was in doubt.
pub open spec fn doubtful<S>(vision: Vision<S>, n: nat) -> Set<int> {
    Set::new(|i: int| 0 <= i < n && vision.guards[i])
}

/// The steps in doubt are counted one by one.
pub proof fn law_doubts_are_counted<S: Scalar>(vision: Vision<S>, n: nat)
    ensures
        doubtful(vision, n).finite(),
        vision.doubts(n) == doubtful(vision, n).len(),
    decreases n,
{
    if n == 0 {
        assert(doubtful(vision, 0) =~= Set::empty());
    } else {
        law_doubts_are_counted(vision, (n - 1) as nat);
        let before = doubtful(vision, (n - 1) as nat);
        if vision.guards[n - 1] {
            assert(doubtful(vision, n) =~= before.insert(n - 1));
        } else {
            assert(doubtful(vision, n) =~= before);
        }
    }
}

} // verus!
