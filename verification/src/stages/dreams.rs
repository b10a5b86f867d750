//! How well a policy does in a learned model of the simulator.
//!
//! The initial states are taken from a dataset, so this is a comparison from fixed starts rather
//! than a benchmark. The simulator makes no step here.
use crate::env::observation::{self, ObsLayout};
use crate::env::state::STATE_DIM;
use crate::num::{self, Meaning, Scalar};
use crate::rl::environment::{Agent, Environment, StepResult};
use crate::stages::adapters::{self, Dream, WorldEnv};
use crate::stages::episodes;
use crate::stages::evaluation::{
    self, average_reports, distance_left, least_of, Averages, EpisodeReport,
};
use crate::world::dataset::{Dataset, Episode};
use crate::world::model::{Dynamics, WorldModel};
use vstd::prelude::*;

verus! {

/// What ended the rollouts of one episode, and how often the model was in doubt.
#[derive(Clone, Copy, Debug)]
pub struct WorldNote {
    pub id: u64,
    pub guarded: bool,
    pub guarded_steps: usize,
    pub horizon_truncated: bool,
    pub terminated: bool,
}

/// What an agent achieved in a model.
#[derive(Debug)]
pub struct WorldEvaluation<S> {
    pub episodes: Vec<EpisodeReport<S>>,
    pub notes: Vec<WorldNote>,
    pub averages: Averages<S>,
    pub terminated_episodes: usize,
    pub horizon_truncated_episodes: usize,
    pub uncertainty_guarded_episodes: usize,
    pub uncertainty_guarded_steps: usize,
}

/// One rollout in a model: the states, the actions between them, what these led to, whether the
/// model was in doubt, and whether the horizon was reached.
#[derive(Debug)]
pub struct WorldPlay<S> {
    pub states: Vec<Vec<S>>,
    pub actions: Vec<[S; 2]>,
    pub results: Vec<StepResult<S>>,
    pub guards: Vec<bool>,
    pub cuts: Vec<bool>,
}

/// The value of a [`WorldPlay`].
#[verifier::ext_equal]
pub struct Vision<S> {
    pub states: Seq<Seq<S>>,
    pub actions: Seq<[S; 2]>,
    pub results: Seq<StepResult<S>>,
    pub guards: Seq<bool>,
    pub cuts: Seq<bool>,
}

impl<S: Scalar> View for WorldPlay<S> {
    type V = Vision<S>;

    open spec fn view(&self) -> Vision<S> {
        Vision {
            states: adapters::states_of(self.states@),
            actions: self.actions@,
            results: self.results@,
            guards: self.guards@,
            cuts: self.cuts@,
        }
    }
}

/// What the first `n` of these actions lead to.
pub open spec fn dreamt<S: Scalar>(first: Dream<S>, actions: Seq<[S; 2]>, n: nat) -> Dream<S>
    decreases n,
{
    if n == 0 {
        first
    } else {
        dreamt(first, actions, (n - 1) as nat).stepped(actions[n - 1])
    }
}

impl<S: Scalar> Vision<S> {
    /// Whether the rollout has a state before and after each of at most `max` actions, and ends
    /// where it is over or with the last action that is allowed.
    pub open spec fn shaped(self, max: nat) -> bool {
        let n = self.actions.len();
        &&& n <= max
        &&& self.results.len() == n
        &&& self.guards.len() == n
        &&& self.cuts.len() == n
        &&& self.states.len() == n + 1
        &&& forall|i: int| 0 <= i <= n ==> (#[trigger] self.states[i]).len() == STATE_DIM
        &&& forall|i: int| 0 <= i < n - 1 ==> !(#[trigger] self.results[i]).done()
        &&& n < max ==> n > 0 && self.results[n - 1].done()
    }

    /// Whether the rollout is the one that its actions lead to from `first`.
    pub open spec fn follows(self, first: Dream<S>) -> bool {
        &&& forall|i: int|
            #![trigger self.states[i]]
            0 <= i < self.states.len() ==> self.states[i] == dreamt(
                first,
                self.actions,
                i as nat,
            ).state
        &&& forall|i: int|
            #![trigger self.results[i]]
            0 <= i < self.results.len() ==> {
                let d = dreamt(first, self.actions, i as nat);
                &&& self.results[i] == d.outcome(self.actions[i])
                &&& self.guards[i] == d.stepped(self.actions[i]).guarded
                &&& self.cuts[i] == d.stepped(self.actions[i]).cut
            }
    }

    /// Whether these observations are what the agent sees in the rollout from `first`.
    pub open spec fn sees(self, first: Dream<S>, obs: Seq<Seq<S>>) -> bool {
        forall|i: int|
            #![trigger obs[i]]
            0 <= i < obs.len() ==> obs[i] == dreamt(first, self.actions, i as nat).seen()
    }

    /// The rewards.
    pub open spec fn rewards(self) -> Seq<S> {
        Seq::new(self.results.len(), |i: int| self.results[i].reward)
    }

    /// The distances of the block from the goal after each action.
    pub open spec fn distances(self) -> Seq<S> {
        Seq::new(self.actions.len(), |i: int| evaluation::remaining(self.states[i + 1]))
    }

    /// Whether the task was solved.
    pub open spec fn success(self) -> bool {
        exists|i: int| 0 <= i < self.results.len() && (#[trigger] self.results[i]).success
    }

    /// The number of the first `n` steps in which the model was in doubt.
    pub open spec fn doubts(self, n: nat) -> nat
        decreases n,
    {
        if n == 0 {
            0
        } else {
            self.doubts((n - 1) as nat) + if self.guards[n - 1] {
                1nat
            } else {
                0nat
            }
        }
    }

    /// Whether the horizon was reached.
    pub open spec fn cut(self) -> bool {
        exists|i: int| 0 <= i < self.cuts.len() && #[trigger] self.cuts[i]
    }

    /// Whether the rollout ended by itself.
    pub open spec fn terminated(self) -> bool {
        self.results.len() > 0 && self.results.last().terminated
    }
}

/// Whether an agent can go from `before` to `after` in this rollout, which starts in `first`.
pub open spec fn envisioned<S: Scalar, A: Agent<S>>(
    first: Dream<S>,
    max: nat,
    before: A,
    after: A,
    vision: Vision<S>,
) -> bool {
    &&& vision.shaped(max)
    &&& num::repeatable::<S>() ==> vision.follows(first)
    &&& exists|obs: Seq<Seq<S>>, agents: Seq<A>|
        {
            &&& #[trigger] episodes::chosen(before, after, obs, vision.actions, agents)
            &&& num::repeatable::<S>() ==> vision.sees(first, obs)
        }
}

/// Where the first actions lead does not depend on the later ones.
proof fn lemma_dreamt_agrees<S: Scalar>(first: Dream<S>, a: Seq<[S; 2]>, b: Seq<[S; 2]>, n: nat)
    requires
        n <= a.len(),
        n <= b.len(),
        forall|i: int| 0 <= i < n ==> a[i] == b[i],
    ensures
        dreamt(first, a, n) == dreamt(first, b, n),
    decreases n,
{
    if n > 0 {
        lemma_dreamt_agrees(first, a, b, (n - 1) as nat);
    }
}

/// Lets an agent act in a model for at most `max` steps.
pub fn dream<S: Scalar, A: Agent<S>>(env: WorldEnv<S>, max: usize, agent: &mut A) -> (r: WorldPlay<
    S,
>)
    requires
        env.ready(),
        old(agent).acts_on(env.width()),
    ensures
        final(agent).acts_on(env.width()),
        envisioned(env@, max as nat, *old(agent), *final(agent), r@),
        r@.states[0] == env@.state,
{
    let ghost first = env@;
    let mut env: WorldEnv<S> = env;
    let ghost width = env.width();
    let dim: usize = env.layout.dim;
    let mut states: Vec<Vec<S>> = Vec::new();
    let mut actions: Vec<[S; 2]> = Vec::new();
    let mut results: Vec<StepResult<S>> = Vec::new();
    let mut guards: Vec<bool> = Vec::new();
    let mut cuts: Vec<bool> = Vec::new();
    states.push(vstd::slice::slice_to_vec(env.state.as_slice()));
    let ghost mut agents: Seq<A> = seq![*agent];
    let ghost mut seen: Seq<Seq<S>> = Seq::empty();
    let mut over: bool = false;
    let mut n: usize = 0;
    while n < max && !over
        invariant
            n <= max,
            over ==> n > 0,
            env.ready(),
            env.width() == width == dim,
            agent.acts_on(width),
            actions@.len() == n,
            results@.len() == n,
            guards@.len() == n,
            cuts@.len() == n,
            states@.len() == n + 1,
            states@[0]@ == first.state,
            forall|i: int| 0 <= i <= n ==> (#[trigger] states@[i])@.len() == STATE_DIM,
            forall|i: int| 0 <= i < n - 1 ==> !(#[trigger] results@[i]).done(),
            n > 0 ==> over == results@[n - 1].done(),
            episodes::chosen(*old(agent), *agent, seen, actions@, agents),
            num::repeatable::<S>() ==> {
                &&& env@ == dreamt(first, actions@, n as nat)
                &&& forall|i: int|
                    #![trigger states@[i]]
                    0 <= i <= n ==> states@[i]@ == dreamt(first, actions@, i as nat).state
                &&& forall|i: int|
                    #![trigger results@[i]]
                    0 <= i < n ==> {
                        let d = dreamt(first, actions@, i as nat);
                        &&& results@[i] == d.outcome(actions@[i])
                        &&& guards@[i] == d.stepped(actions@[i]).guarded
                        &&& cuts@[i] == d.stepped(actions@[i]).cut
                    }
                &&& forall|i: int|
                    #![trigger seen[i]]
                    0 <= i < n ==> seen[i] == dreamt(first, actions@, i as nat).seen()
            },
        decreases max - n,
    {
        let ghost taken = actions@;
        let ghost known = agents;
        let ghost views = seen;
        let ghost was = env@;
        let ghost past = states@;
        let ghost outcomes = results@;
        let ghost old_guards = guards@;
        let ghost old_cuts = cuts@;
        let mut obs: Vec<S> = num::repeat(S::from_count(0), dim);
        env.observe(obs.as_mut_slice());
        let action: [S; 2] = agent.action(obs.as_slice());
        let result: StepResult<S> = env.step_env(action);
        actions.push(action);
        results.push(result);
        guards.push(env.last_uncertainty_guarded);
        cuts.push(env.last_horizon_truncated);
        states.push(vstd::slice::slice_to_vec(env.state.as_slice()));
        over = result.terminated || result.truncated;
        proof {
            agents = known.push(*agent);
            seen = views.push(obs@);
            assert(episodes::chosen(*old(agent), *agent, seen, actions@, agents)) by {
                assert forall|i: int| #![trigger actions@[i]] 0 <= i < actions@.len() implies
                    agents[i].chooses(seen[i], actions@[i], &agents[i + 1]) by {
                    if i < n {
                        assert(known[i].chooses(views[i], taken[i], &known[i + 1]));
                    }
                }
            }
            assert forall|i: int| 0 <= i < n implies !(#[trigger] results@[i]).done() by {
                assert(results@[i] == outcomes[i]);
            }
            if num::repeatable::<S>() {
                assert forall|i: nat| i <= n implies #[trigger] dreamt(first, actions@, i)
                    == dreamt(first, taken, i) by {
                    lemma_dreamt_agrees(first, actions@, taken, i);
                }
                assert(dreamt(first, actions@, n as nat) == was);
                assert(dreamt(first, actions@, (n + 1) as nat) == was.stepped(action));
                assert forall|i: int| #![trigger states@[i]] 0 <= i <= n + 1 implies states@[i]@
                    == dreamt(first, actions@, i as nat).state by {
                    if i <= n {
                        assert(states@[i] == past[i]);
                    }
                }
                assert forall|i: int| #![trigger results@[i]] 0 <= i < n + 1 implies {
                    let d = dreamt(first, actions@, i as nat);
                    &&& results@[i] == d.outcome(actions@[i])
                    &&& guards@[i] == d.stepped(actions@[i]).guarded
                    &&& cuts@[i] == d.stepped(actions@[i]).cut
                } by {
                    if i < n {
                        assert(results@[i] == outcomes[i]);
                        assert(guards@[i] == old_guards[i]);
                        assert(cuts@[i] == old_cuts[i]);
                        assert(actions@[i] == taken[i]);
                    }
                }
                assert forall|i: int| #![trigger seen[i]] 0 <= i < n + 1 implies seen[i]
                    == dreamt(first, actions@, i as nat).seen() by {
                    if i < n {
                        assert(seen[i] == views[i]);
                    }
                }
            }
        }
        n = n + 1;
    }
    let r: WorldPlay<S> = WorldPlay { states, actions, results, guards, cuts };
    proof {
        assert forall|i: int| 0 <= i <= n implies (#[trigger] r@.states[i]).len() == STATE_DIM by {
            assert(r@.states[i] == states@[i]@);
        }
        assert(r@.shaped(max as nat));
        assert(episodes::chosen(*old(agent), *agent, seen, r@.actions, agents));
        if num::repeatable::<S>() {
            assert(r@.follows(first)) by {
                assert forall|i: int| #![trigger r@.states[i]] 0 <= i < r@.states.len() implies
                    r@.states[i] == dreamt(first, r@.actions, i as nat).state by {
                    assert(r@.states[i] == states@[i]@);
                }
            }
            assert(r@.sees(first, seen));
        }
    }
    r
}

/// Whether a report and a note are about this rollout.
pub open spec fn describes<S: Scalar>(
    report: EpisodeReport<S>,
    note: WorldNote,
    vision: Vision<S>,
) -> bool {
    &&& report.steps == vision.actions.len()
    &&& report.actions@ == vision.actions
    &&& report.success == vision.success()
    &&& adapters::states_of(report.states@) == vision.states
    &&& report.rewards@ == vision.rewards()
    &&& note.guarded_steps == vision.doubts(vision.guards.len())
    &&& note.guarded == (note.guarded_steps > 0)
    &&& note.horizon_truncated == vision.cut()
    &&& note.terminated == vision.terminated()
    &&& num::repeatable::<S>() ==> {
        &&& report.score == num::total(vision.rewards(), vision.rewards().len())
        &&& report.final_distance == evaluation::last_of(vision.distances())
        &&& report.min_distance == evaluation::least(vision.distances(), vision.distances().len())
    }
}

/// The report and the note of a rollout.
fn describe<S: Scalar>(id: u64, seed: u64, p: WorldPlay<S>, Ghost(max): Ghost<nat>) -> (r: (
    EpisodeReport<S>,
    WorldNote,
))
    requires
        p@.shaped(max),
    ensures
        r.0.seed == seed,
        r.1.id == id,
        describes(r.0, r.1, p@),
{
    let n: usize = p.actions.len();
    let ghost vision = p@;
    let mut rewards: Vec<S> = Vec::with_capacity(n);
    let mut distances: Vec<S> = Vec::with_capacity(n);
    let mut success: bool = false;
    let mut guarded_steps: usize = 0;
    let mut cut: bool = false;
    for i in 0..n
        invariant
            n == vision.actions.len(),
            vision == p@,
            vision.shaped(max),
            rewards@ == vision.rewards().take(i as int),
            success == (exists|k: int| 0 <= k < i && (#[trigger] vision.results[k]).success),
            cut == (exists|k: int| 0 <= k < i && #[trigger] vision.cuts[k]),
            guarded_steps == vision.doubts(i as nat),
            guarded_steps <= i,
            distances@.len() == i,
            num::repeatable::<S>() ==> distances@ == vision.distances().take(i as int),
    {
        assert(vision.states[i + 1] == p.states@[i + 1]@);
        assert(vision.states[i + 1].len() == STATE_DIM);
        rewards.push(p.results[i].reward);
        if p.results[i].success {
            success = true;
        }
        if p.cuts[i] {
            cut = true;
        }
        if p.guards[i] {
            guarded_steps = guarded_steps + 1;
        }
        distances.push(distance_left(p.states[i + 1].as_slice()));
        proof {
            assert(rewards@ =~= vision.rewards().take(i + 1));
            if num::repeatable::<S>() {
                assert(distances@ =~= vision.distances().take(i + 1));
            }
            if vision.results[i as int].success {
                assert(exists|k: int| 0 <= k < i + 1 && (#[trigger] vision.results[k]).success);
            }
            if vision.cuts[i as int] {
                assert(exists|k: int| 0 <= k < i + 1 && #[trigger] vision.cuts[k]);
            }
        }
    }
    let final_distance: S = if n > 0 {
        distances[n - 1]
    } else {
        S::from_ratio(1, 0)
    };
    let terminated: bool = n > 0 && p.results[n - 1].terminated;
    let min_distance: S = least_of(&distances);
    let score: S = num::sum_of(rewards.as_slice());
    let report: EpisodeReport<S> = EpisodeReport {
        seed,
        success,
        score,
        steps: n,
        final_distance,
        min_distance,
        states: p.states,
        actions: p.actions,
        rewards,
    };
    let note: WorldNote = WorldNote {
        id,
        guarded: guarded_steps > 0,
        guarded_steps,
        horizon_truncated: cut,
        terminated,
    };
    proof {
        assert(report.rewards@ =~= vision.rewards());
        if num::repeatable::<S>() {
            assert(distances@ =~= vision.distances());
        }
    }
    (report, note)
}

/// The places of the first `n` episodes that have a transition.
pub open spec fn nonempty<S>(episodes: Seq<Episode<S>>, n: nat) -> Seq<int>
    decreases n,
{
    if n == 0 {
        Seq::empty()
    } else if episodes[n - 1].transitions@.len() == 0 {
        nonempty(episodes, (n - 1) as nat)
    } else {
        nonempty(episodes, (n - 1) as nat).push(n - 1)
    }
}

/// Whether this is a report on a rollout from the start of the episode `e`, while an agent goes from
/// `before` to `after`.
pub open spec fn described<S: Scalar, A: Agent<S>>(
    model: Dynamics<S>,
    keys: Seq<observation::ObservationKey>,
    horizon: usize,
    limit: S,
    e: Episode<S>,
    before: A,
    after: A,
    vision: Vision<S>,
    report: EpisodeReport<S>,
    note: WorldNote,
) -> bool {
    &&& report.seed == e.seed
    &&& note.id == e.id
    &&& describes(report, note, vision)
    &&& vision.states[0] == e.transitions@[0].state@
    &&& envisioned(
        adapters::begun(
            model,
            seq![e.transitions@[0].state@],
            keys,
            horizon,
            limit,
            num::zero(),
        ),
        horizon as nat,
        before,
        after,
        vision,
    )
}

/// Whether these are reports on rollouts from the starts of the listed episodes, while an agent
/// goes from `before` to `after`.
pub open spec fn all_described<S: Scalar, A: Agent<S>>(
    model: Dynamics<S>,
    keys: Seq<observation::ObservationKey>,
    horizon: usize,
    limit: S,
    all: Seq<Episode<S>>,
    places: Seq<int>,
    before: A,
    after: A,
    agents: Seq<A>,
    visions: Seq<Vision<S>>,
    reports: Seq<EpisodeReport<S>>,
    notes: Seq<WorldNote>,
) -> bool {
    let n = places.len();
    &&& reports.len() == n
    &&& notes.len() == n
    &&& visions.len() == n
    &&& agents.len() == n + 1
    &&& agents[0] == before
    &&& agents[n as int] == after
    &&& forall|k: int|
        0 <= k < n ==> described(
            model,
            keys,
            horizon,
            limit,
            all[places[k]],
            agents[k],
            agents[k + 1],
            visions[k],
            #[trigger] reports[k],
            notes[k],
        )
}

/// `n`, or all where there are fewer.
pub open spec fn taken(n: usize, held: nat) -> nat {
    if n < held {
        n as nat
    } else {
        held
    }
}

/// The number of notes of which `f` holds, among the first `n`.
pub open spec fn tally(notes: Seq<WorldNote>, f: spec_fn(WorldNote) -> bool, n: nat) -> nat
    decreases n,
{
    if n == 0 {
        0
    } else {
        tally(notes, f, (n - 1) as nat) + if f(notes[n - 1]) {
            1nat
        } else {
            0nat
        }
    }
}

/// The steps in doubt of the first `n` notes, added up modulo the size of a machine word.
pub open spec fn doubts_total(notes: Seq<WorldNote>, n: nat) -> usize
    decreases n,
{
    if n == 0 {
        0
    } else {
        doubts_total(notes, (n - 1) as nat).wrapping_add(notes[n - 1].guarded_steps)
    }
}

/// The counts over all notes: terminated and truncated episodes, episodes with a step in doubt, and
/// steps in doubt.
fn count_notes(notes: &Vec<WorldNote>) -> (r: (usize, usize, usize, usize))
    ensures
        r.0 == tally(notes@, |n: WorldNote| n.terminated, notes@.len()),
        r.1 == tally(notes@, |n: WorldNote| n.horizon_truncated, notes@.len()),
        r.2 == tally(notes@, |n: WorldNote| n.guarded, notes@.len()),
        r.3 == doubts_total(notes@, notes@.len()),
{
    let n: usize = notes.len();
    let mut terminated: usize = 0;
    let mut cut: usize = 0;
    let mut guarded: usize = 0;
    let mut steps: usize = 0;
    for i in 0..n
        invariant
            n == notes@.len(),
            terminated <= i,
            cut <= i,
            guarded <= i,
            terminated == tally(notes@, |n: WorldNote| n.terminated, i as nat),
            cut == tally(notes@, |n: WorldNote| n.horizon_truncated, i as nat),
            guarded == tally(notes@, |n: WorldNote| n.guarded, i as nat),
            steps == doubts_total(notes@, i as nat),
    {
        let note: WorldNote = notes[i];
        if note.terminated {
            terminated = terminated + 1;
        }
        if note.horizon_truncated {
            cut = cut + 1;
        }
        if note.guarded {
            guarded = guarded + 1;
        }
        steps = steps.wrapping_add(note.guarded_steps);
    }
    (terminated, cut, guarded, steps)
}

/// Lets an agent act inside a model, from the starts of the first `episodes` episodes of a
/// dataset, and reports on the rollouts.
pub fn evaluate_world_policy<S: Scalar, A: Agent<S>>(
    episodes: usize,
    horizon: usize,
    uncertainty_limit: S,
    layout: &ObsLayout,
    dataset: &Dataset<S>,
    model: &WorldModel<S>,
    agent: &mut A,
) -> (r: WorldEvaluation<S>)
    requires
        layout.wf(),
        model@.wf(),
        model@.state_dim <= STATE_DIM,
        old(agent).acts_on(layout.dim as nat),
        forall|e: int|
            0 <= e < dataset.episodes@.len() && (#[trigger] dataset.episodes@[e]).transitions@.len()
                > 0 ==> dataset.episodes@[e].transitions@[0].state@.len() == STATE_DIM,
    ensures
        final(agent).acts_on(layout.dim as nat),
        exists|agents: Seq<A>, visions: Seq<Vision<S>>| #[trigger]
            all_described(
                model@,
                layout.keys@,
                horizon,
                uncertainty_limit,
                dataset.episodes@,
                nonempty(dataset.episodes@, taken(episodes, dataset.episodes@.len())),
                *old(agent),
                *final(agent),
                agents,
                visions,
                r.episodes@,
                r.notes@,
            ),
        num::repeatable::<S>() ==> r.averages == evaluation::averaged(
            r.episodes@,
            r.episodes@.len(),
        ),
        r.terminated_episodes == tally(r.notes@, |n: WorldNote| n.terminated, r.notes@.len()),
        r.horizon_truncated_episodes == tally(
            r.notes@,
            |n: WorldNote| n.horizon_truncated,
            r.notes@.len(),
        ),
        r.uncertainty_guarded_episodes == tally(
            r.notes@,
            |n: WorldNote| n.guarded,
            r.notes@.len(),
        ),
        r.uncertainty_guarded_steps == doubts_total(r.notes@, r.notes@.len()),
{
    let held: usize = dataset.episodes.len();
    let count: usize = if episodes < held {
        episodes
    } else {
        held
    };
    let ghost all = dataset.episodes@;
    let mut reports: Vec<EpisodeReport<S>> = Vec::new();
    let mut notes: Vec<WorldNote> = Vec::new();
    let ghost mut agents: Seq<A> = seq![*agent];
    let ghost mut visions: Seq<Vision<S>> = Seq::empty();
    for e in 0..count
        invariant
            count <= all.len(),
            all == dataset.episodes@,
            layout.wf(),
            model@.wf(),
            model@.state_dim <= STATE_DIM,
            agent.acts_on(layout.dim as nat),
            forall|e: int|
                0 <= e < all.len() && (#[trigger] all[e]).transitions@.len() > 0
                    ==> all[e].transitions@[0].state@.len() == STATE_DIM,
            all_described(
                model@,
                layout.keys@,
                horizon,
                uncertainty_limit,
                all,
                nonempty(all, e as nat),
                *old(agent),
                *agent,
                agents,
                visions,
                reports@,
                notes@,
            ),
    {
        let episode: &Episode<S> = &dataset.episodes[e];
        if episode.transitions.len() > 0 {
            let ghost places = nonempty(all, e as nat);
            let ghost known = agents;
            let ghost seen = visions;
            let ghost past = reports@;
            let ghost remarks = notes@;
            let ghost acting = *agent;
            assert(all[e as int].transitions@[0].state@.len() == STATE_DIM);
            let mut starts: Vec<Vec<S>> = Vec::new();
            starts.push(vstd::slice::slice_to_vec(episode.transitions[0].state.as_slice()));
            let ghost first = seq![episode.transitions@[0].state@];
            assert(adapters::states_of(starts@) =~= first);
            let env: WorldEnv<S> = WorldEnv::new(
                model.clone(),
                starts,
                layout.clone(),
                horizon,
                uncertainty_limit,
            );
            let ghost start = env@;
            let p: WorldPlay<S> = dream(env, horizon, agent);
            let ghost vision = p@;
            let (report, note) = describe(episode.id, episode.seed, p, Ghost(horizon as nat));
            reports.push(report);
            notes.push(note);
            proof {
                agents = known.push(*agent);
                visions = seen.push(vision);
                let n = places.len();
                let now = nonempty(all, (e + 1) as nat);
                assert(now == places.push(e as int));
                let opening = adapters::begun(
                    model@,
                    first,
                    layout.keys@,
                    horizon,
                    uncertainty_limit,
                    num::zero(),
                );
                assert(envisioned(start, horizon as nat, acting, *agent, vision));
                assert(envisioned(opening, horizon as nat, acting, *agent, vision)) by {
                    if num::repeatable::<S>() {
                        assert(start == opening);
                    } else {
                        let (obs, chain) = choose|obs: Seq<Seq<S>>, chain: Seq<A>|
                            {
                                &&& #[trigger] episodes::chosen(
                                    acting,
                                    *agent,
                                    obs,
                                    vision.actions,
                                    chain,
                                )
                                &&& num::repeatable::<S>() ==> vision.sees(start, obs)
                            };
                        assert(episodes::chosen(acting, *agent, obs, vision.actions, chain));
                    }
                }
                assert(described(
                    model@,
                    layout.keys@,
                    horizon,
                    uncertainty_limit,
                    all[e as int],
                    acting,
                    *agent,
                    vision,
                    report,
                    note,
                ));
                assert forall|k: int| 0 <= k < n + 1 implies described(
                    model@,
                    layout.keys@,
                    horizon,
                    uncertainty_limit,
                    all[now[k]],
                    agents[k],
                    agents[k + 1],
                    visions[k],
                    #[trigger] reports@[k],
                    notes@[k],
                ) by {
                    if k < n {
                        assert(reports@[k] == past[k]);
                        assert(notes@[k] == remarks[k]);
                        assert(now[k] == places[k]);
                        assert(agents[k] == known[k] && agents[k + 1] == known[k + 1]);
                        assert(visions[k] == seen[k]);
                    } else {
                        assert(reports@[k] == report && notes@[k] == note && visions[k] == vision);
                        assert(agents[k] == acting && agents[k + 1] == *agent && now[k] == e);
                    }
                }
                assert(agents[n as int + 1] == *agent);
                assert(all_described(
                    model@,
                    layout.keys@,
                    horizon,
                    uncertainty_limit,
                    all,
                    now,
                    *old(agent),
                    *agent,
                    agents,
                    visions,
                    reports@,
                    notes@,
                ));
            }
        }
    }
    let shown: usize = reports.len();
    let averages: Averages<S> = average_reports(&reports, shown);
    let (terminated, cut, guarded, steps) = count_notes(&notes);
    let r: WorldEvaluation<S> = WorldEvaluation {
        episodes: reports,
        notes,
        averages,
        terminated_episodes: terminated,
        horizon_truncated_episodes: cut,
        uncertainty_guarded_episodes: guarded,
        uncertainty_guarded_steps: steps,
    };
    proof {
        let n = taken(episodes, all.len());
        assert(all_described(
            model@,
            layout.keys@,
            horizon,
            uncertainty_limit,
            all,
            nonempty(all, n),
            *old(agent),
            *agent,
            agents,
            visions,
            r.episodes@,
            r.notes@,
        ));
    }
    r
}

} // verus!
