//! How well a policy does in the simulator.
use crate::env::observation::ObsLayout;
use crate::env::reward::EnvConfig;
use crate::env::simulator::{self, Env};
use crate::env::state::{self, decode_state, FullState, STATE_DIM};
use crate::num::{self, Meaning, Scalar};
use crate::rl::environment::Agent;
use crate::stages::adapters::{self, state_array};
use crate::stages::episodes::{self, play, Course, Play};
use vstd::prelude::*;

verus! {

/// What an agent achieved in one episode.
#[derive(Debug)]
pub struct EpisodeReport<S> {
    pub seed: u64,
    pub success: bool,
    pub score: S,
    pub steps: usize,
    pub final_distance: S,
    pub min_distance: S,
    pub states: Vec<Vec<S>>,
    pub actions: Vec<[S; 2]>,
    pub rewards: Vec<S>,
}

/// What an agent achieved on average.
#[derive(Clone, Copy, Debug)]
pub struct Averages<S> {
    pub success_rate: S,
    pub mean_return: S,
    pub mean_steps: S,
    pub mean_final_distance: S,
    pub mean_min_distance: S,
}

/// What an agent achieved in the simulator.
#[derive(Debug)]
pub struct Evaluation<S> {
    pub episodes: Vec<EpisodeReport<S>>,
    pub averages: Averages<S>,
}

/// The distance of the block from the goal in an encoded state.
pub open spec fn remaining<S: Scalar>(state: Seq<S>) -> S {
    let s = state::decoded(state);
    s.block.distance(s.goal)
}

/// The distance of the block from the goal in an encoded state.
pub(crate) fn distance_left<S: Scalar>(state: &[S]) -> (r: S)
    requires
        state@.len() == STATE_DIM,
    ensures
        num::repeatable::<S>() ==> r == remaining(state@),
{
    let s: FullState<S> = decode_state(state_array(state));
    s.block.dist(s.goal)
}

/// The least of the first `n` numbers.
pub open spec fn least<S: Scalar>(values: Seq<S>, n: nat) -> S
    decreases n,
{
    if n == 0 {
        S::fraction(1, 0)
    } else {
        least(values, (n - 1) as nat).smaller(values[n - 1])
    }
}

/// The least of the numbers.
pub(crate) fn least_of<S: Scalar>(values: &Vec<S>) -> (r: S)
    ensures
        num::repeatable::<S>() ==> r == least(values@, values@.len()),
{
    let n: usize = values.len();
    let mut r: S = S::from_ratio(1, 0);
    for i in 0..n
        invariant
            n == values@.len(),
            num::repeatable::<S>() ==> r == least(values@, i as nat),
    {
        r = r.min(values[i]);
    }
    r
}

/// The last of the numbers.
pub open spec fn last_of<S: Scalar>(values: Seq<S>) -> S {
    if values.len() == 0 {
        S::fraction(1, 0)
    } else {
        values.last()
    }
}

impl<S: Scalar> Course<S> {
    /// The rewards.
    pub open spec fn rewards(self) -> Seq<S> {
        Seq::new(self.results.len(), |i: int| self.results[i].reward)
    }

    /// The distances of the block from the goal after each action.
    pub open spec fn distances(self) -> Seq<S> {
        Seq::new(self.actions.len(), |i: int| remaining(self.states[i + 1]))
    }

    /// Whether the task was solved.
    pub open spec fn success(self) -> bool {
        exists|i: int| 0 <= i < self.results.len() && (#[trigger] self.results[i]).success
    }
}

impl<S: Scalar> EpisodeReport<S> {
    /// Whether the report is about this course.
    pub open spec fn tells(&self, course: Course<S>) -> bool {
        &&& self.steps == course.actions.len()
        &&& self.actions@ == course.actions
        &&& self.success == course.success()
        &&& adapters::states_of(self.states@) == course.states.take(course.actions.len() as int)
        &&& self.rewards@ == course.rewards()
        &&& num::repeatable::<S>() ==> {
            &&& self.score == num::total(course.rewards(), course.rewards().len())
            &&& self.final_distance == last_of(course.distances())
            &&& self.min_distance == least(course.distances(), course.distances().len())
        }
    }
}

/// The number of successes among the first `n` reports.
pub open spec fn successes<S>(reports: Seq<EpisodeReport<S>>, n: nat) -> nat
    decreases n,
{
    if n == 0 {
        0
    } else {
        successes(reports, (n - 1) as nat) + if reports[n - 1].success {
            1nat
        } else {
            0nat
        }
    }
}

/// The steps of the first `n` reports, added up modulo the size of a machine word.
pub open spec fn steps_total<S>(reports: Seq<EpisodeReport<S>>, n: nat) -> usize
    decreases n,
{
    if n == 0 {
        0
    } else {
        steps_total(reports, (n - 1) as nat).wrapping_add(reports[n - 1].steps)
    }
}

/// The averages of these reports, over `count` of them.
pub open spec fn averaged<S: Scalar>(reports: Seq<EpisodeReport<S>>, count: nat) -> Averages<S> {
    let n = reports.len();
    let d = S::counted(
        (if count == 0 {
            1
        } else {
            count
        }) as u64,
    );
    Averages {
        success_rate: S::counted(successes(reports, n) as u64).quotient(d),
        mean_return: num::total(Seq::new(n, |i: int| reports[i].score), n).quotient(d),
        mean_steps: S::counted(steps_total(reports, n) as u64).quotient(d),
        mean_final_distance: num::total(
            Seq::new(n, |i: int| reports[i].final_distance),
            n,
        ).quotient(d),
        mean_min_distance: num::total(Seq::new(n, |i: int| reports[i].min_distance), n).quotient(d),
    }
}

/// The averages of these reports, over `count` of them.
pub(crate) fn average_reports<S: Scalar>(reports: &Vec<EpisodeReport<S>>, count: usize) -> (r: Averages<S>)
    ensures
        num::repeatable::<S>() ==> r == averaged(reports@, count as nat),
{
    let n: usize = reports.len();
    let zero: S = S::from_count(0);
    let mut solved: usize = 0;
    let mut steps: usize = 0;
    let mut score: S = zero;
    let mut last: S = zero;
    let mut nearest: S = zero;
    let ghost scores = Seq::new(n as nat, |i: int| reports@[i].score);
    let ghost lasts = Seq::new(n as nat, |i: int| reports@[i].final_distance);
    let ghost leasts = Seq::new(n as nat, |i: int| reports@[i].min_distance);
    for i in 0..n
        invariant
            n == reports@.len(),
            solved <= i,
            solved == successes(reports@, i as nat),
            steps == steps_total(reports@, i as nat),
            scores == Seq::new(n as nat, |i: int| reports@[i].score),
            lasts == Seq::new(n as nat, |i: int| reports@[i].final_distance),
            leasts == Seq::new(n as nat, |i: int| reports@[i].min_distance),
            num::repeatable::<S>() ==> score == num::total(scores, i as nat),
            num::repeatable::<S>() ==> last == num::total(lasts, i as nat),
            num::repeatable::<S>() ==> nearest == num::total(leasts, i as nat),
    {
        let report: &EpisodeReport<S> = &reports[i];
        if report.success {
            solved = solved + 1;
        }
        steps = steps.wrapping_add(report.steps);
        score = score.plus(report.score);
        last = last.plus(report.final_distance);
        nearest = nearest.plus(report.min_distance);
    }
    let d: S = S::from_count(
        (if count == 0 {
            1
        } else {
            count
        }) as u64,
    );
    Averages {
        success_rate: S::from_count(solved as u64).over(d),
        mean_return: score.over(d),
        mean_steps: S::from_count(steps as u64).over(d),
        mean_final_distance: last.over(d),
        mean_min_distance: nearest.over(d),
    }
}

/// The report of an episode.
fn report_of<S: Scalar>(seed: u64, p: Play<S>) -> (r: EpisodeReport<S>)
    requires
        p@.states.len() == p@.actions.len() + 1,
        p@.results.len() == p@.actions.len(),
        forall|i: int| 0 <= i < p@.states.len() ==> (#[trigger] p@.states[i]).len() == STATE_DIM,
    ensures
        r.seed == seed,
        r.tells(p@),
{
    let n: usize = p.actions.len();
    let ghost course = p@;
    let mut rewards: Vec<S> = Vec::with_capacity(n);
    let mut distances: Vec<S> = Vec::with_capacity(n);
    let mut states: Vec<Vec<S>> = Vec::with_capacity(n);
    let mut success: bool = false;
    for i in 0..n
        invariant
            n == p@.actions.len(),
            course == p@,
            course.states.len() == n + 1,
            course.results.len() == n,
            forall|k: int|
                0 <= k < course.states.len() ==> (#[trigger] course.states[k]).len() == STATE_DIM,
            states@.len() == i,
            forall|k: int| 0 <= k < i ==> (#[trigger] states@[k])@ == course.states[k],
            rewards@ == course.rewards().take(i as int),
            success == (exists|k: int| 0 <= k < i && (#[trigger] course.results[k]).success),
            distances@.len() == i,
            num::repeatable::<S>() ==> distances@ == course.distances().take(i as int),
    {
        let ghost before = success;
        assert(course.states[i as int] == p.states@[i as int]@);
        assert(course.states[i + 1] == p.states@[i + 1]@);
        states.push(vstd::slice::slice_to_vec(p.states[i].as_slice()));
        rewards.push(p.results[i].reward);
        if p.results[i].success {
            success = true;
        }
        distances.push(distance_left(p.states[i + 1].as_slice()));
        proof {
            assert(rewards@ =~= course.rewards().take(i + 1));
            if num::repeatable::<S>() {
                assert(distances@ =~= course.distances().take(i + 1));
            }
            if course.results[i as int].success {
                assert(exists|k: int| 0 <= k < i + 1 && (#[trigger] course.results[k]).success);
            }
        }
    }
    let final_distance: S = if n > 0 {
        distances[n - 1]
    } else {
        S::from_ratio(1, 0)
    };
    let min_distance: S = least_of(&distances);
    let score: S = num::sum_of(rewards.as_slice());
    let r: EpisodeReport<S> = EpisodeReport {
        seed,
        success,
        score,
        steps: n,
        final_distance,
        min_distance,
        states,
        actions: p.actions,
        rewards,
    };
    proof {
        assert(r.rewards@ =~= course.rewards());
        assert(adapters::states_of(r.states@) =~= course.states.take(n as int));
        if num::repeatable::<S>() {
            assert(distances@ =~= course.distances());
        }
    }
    r
}

/// Whether these are reports on as many episodes, one after the other from `seed` on, while an
/// agent goes from `before` to `after`.
pub open spec fn all_reported<S: Scalar, A: Agent<S>>(
    seed: u64,
    config: EnvConfig,
    keys: Seq<crate::env::observation::ObservationKey>,
    before: A,
    after: A,
    agents: Seq<A>,
    courses: Seq<Course<S>>,
    reports: Seq<EpisodeReport<S>>,
) -> bool {
    &&& courses.len() == reports.len()
    &&& agents.len() == reports.len() + 1
    &&& agents[0] == before
    &&& agents[reports.len() as int] == after
    &&& forall|k: int|
        0 <= k < reports.len() ==> {
            &&& (#[trigger] reports[k]).seed == seed.wrapping_add(k as u64)
            &&& reports[k].tells(courses[k])
            &&& episodes::played(
                simulator::first_episode::<S>(seed.wrapping_add(k as u64), config),
                keys,
                config.max_decisions as nat,
                agents[k],
                agents[k + 1],
                courses[k],
            )
        }
}

/// Lets an agent act in episodes from the seed `seed` on, and reports on them.
pub fn evaluate_policy<S: Scalar, A: Agent<S>>(
    episodes: usize,
    seed: u64,
    env_config: EnvConfig,
    layout: &ObsLayout,
    agent: &mut A,
) -> (r: Evaluation<S>)
    requires
        layout.wf(),
        env_config.max_decisions > 0,
        old(agent).acts_on(layout.dim as nat),
    ensures
        final(agent).acts_on(layout.dim as nat),
        r.episodes@.len() == episodes,
        exists|agents: Seq<A>, courses: Seq<Course<S>>| #[trigger]
            all_reported(
                seed,
                env_config,
                layout.keys@,
                *old(agent),
                *final(agent),
                agents,
                courses,
                r.episodes@,
            ),
        num::repeatable::<S>() ==> r.averages == averaged(r.episodes@, episodes as nat),
{
    let mut all: Vec<EpisodeReport<S>> = Vec::with_capacity(episodes);
    let ghost mut agents: Seq<A> = seq![*agent];
    let ghost mut courses: Seq<Course<S>> = Seq::empty();
    for k in 0..episodes
        invariant
            layout.wf(),
            env_config.max_decisions > 0,
            agent.acts_on(layout.dim as nat),
            all@.len() == k,
            all_reported(
                seed,
                env_config,
                layout.keys@,
                *old(agent),
                *agent,
                agents,
                courses,
                all@,
            ),
    {
        let ghost known = agents;
        let ghost seen = courses;
        let ghost past = all@;
        let episode_seed: u64 = seed.wrapping_add(k as u64);
        let env: Env<S> = Env::with_config(episode_seed, env_config);
        let p: Play<S> = play(env, layout, agent);
        let ghost course = p@;
        let report: EpisodeReport<S> = report_of(episode_seed, p);
        all.push(report);
        proof {
            agents = known.push(*agent);
            courses = seen.push(course);
            assert forall|i: int| 0 <= i < k + 1 implies {
                &&& (#[trigger] all@[i]).seed == seed.wrapping_add(i as u64)
                &&& all@[i].tells(courses[i])
                &&& episodes::played(
                    simulator::first_episode::<S>(seed.wrapping_add(i as u64), env_config),
                    layout.keys@,
                    env_config.max_decisions as nat,
                    agents[i],
                    agents[i + 1],
                    courses[i],
                )
            } by {
                if i < k {
                    assert(all@[i] == past[i]);
                }
            }
        }
    }
    let averages: Averages<S> = average_reports(&all, episodes);
    Evaluation { episodes: all, averages }
}

} // verus!
