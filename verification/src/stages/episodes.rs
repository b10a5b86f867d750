//! Letting an agent act in the simulator, and keeping a record of it.
use crate::env::observation::{self, ObsLayout};
use crate::env::reward::{EnvConfig, StepResult};
use crate::env::simulator::{self, Env};
use crate::env::state::{self, encode_state, STATE_DIM};
use crate::num::{self, Scalar};
use crate::rl::environment::Agent;
use crate::rl::ppo::Ppo;
use crate::rl::sac::Sac;
use crate::world::dataset::{Dataset, Episode, Transition};
use vstd::prelude::*;

verus! {

/// A policy that always does what it prefers, and draws no random numbers.
#[derive(Debug)]
pub struct Deterministic<P> {
    pub policy: P,
}

/// One episode: the encoded states, the actions between them and what these led to.
#[derive(Debug)]
pub struct Play<S> {
    pub states: Vec<Vec<S>>,
    pub actions: Vec<[S; 2]>,
    pub results: Vec<StepResult<S>>,
}

/// The value of a [`Play`].
#[verifier::ext_equal]
pub struct Course<S> {
    pub states: Seq<Seq<S>>,
    pub actions: Seq<[S; 2]>,
    pub results: Seq<StepResult<S>>,
}

impl<S: Scalar> View for Play<S> {
    type V = Course<S>;

    open spec fn view(&self) -> Course<S> {
        Course {
            states: Seq::new(self.states@.len(), |i: int| self.states@[i]@),
            actions: self.actions@,
            results: self.results@,
        }
    }
}

impl<S> StepResult<S> {
    /// Whether the episode is over.
    pub open spec fn done(self) -> bool {
        self.terminated || self.truncated
    }
}

/// The environment after the first `n` of these actions.
pub open spec fn led<S: Scalar>(first: Env<S>, actions: Seq<[S; 2]>, n: nat) -> Env<S>
    decreases n,
{
    if n == 0 {
        first
    } else {
        led(first, actions, (n - 1) as nat).decided(actions[n - 1])
    }
}

/// Whether an agent can go from `before` to `after` while it chooses these actions for these
/// observations.
pub open spec fn chosen<S: Scalar, A: Agent<S>>(
    before: A,
    after: A,
    obs: Seq<Seq<S>>,
    actions: Seq<[S; 2]>,
    agents: Seq<A>,
) -> bool {
    &&& agents.len() == actions.len() + 1
    &&& obs.len() == actions.len()
    &&& agents[0] == before
    &&& agents[actions.len() as int] == after
    &&& forall|i: int|
        #![trigger actions[i]]
        0 <= i < actions.len() ==> agents[i].chooses(obs[i], actions[i], &agents[i + 1])
}

impl<S: Scalar> Course<S> {
    /// Whether the course has a state before and after each of at most `max` actions, and ends with
    /// the episode or with the last action that is allowed.
    pub open spec fn shaped(self, max: nat) -> bool {
        let n = self.actions.len();
        &&& 1 <= n <= max
        &&& self.results.len() == n
        &&& self.states.len() == n + 1
        &&& forall|i: int| 0 <= i <= n ==> (#[trigger] self.states[i]).len() == STATE_DIM
        &&& forall|i: int| 0 <= i < n - 1 ==> !(#[trigger] self.results[i]).done()
        &&& n < max ==> self.results[n - 1].done()
    }

    /// Whether the course is the one that its actions lead to from `first`.
    pub open spec fn follows(self, first: Env<S>) -> bool {
        &&& forall|i: int|
            #![trigger self.states[i]]
            0 <= i < self.states.len() ==> self.states[i] == state::encoded(
                led(first, self.actions, i as nat).state(),
            )
        &&& forall|i: int|
            #![trigger self.results[i]]
            0 <= i < self.results.len() ==> self.results[i] == led(
                first,
                self.actions,
                i as nat,
            ).outcome(self.actions[i])
    }

    /// Whether these observations are what the agent sees in the course from `first`.
    pub open spec fn sees(
        self,
        first: Env<S>,
        keys: Seq<observation::ObservationKey>,
        obs: Seq<Seq<S>>,
    ) -> bool {
        forall|i: int|
            #![trigger obs[i]]
            0 <= i < obs.len() ==> obs[i] == led(first, self.actions, i as nat).seen(keys)
    }
}

/// Whether an agent can go from `before` to `after` on this course, which starts in `first`.
pub open spec fn played<S: Scalar, A: Agent<S>>(
    first: Env<S>,
    keys: Seq<observation::ObservationKey>,
    max: nat,
    before: A,
    after: A,
    course: Course<S>,
) -> bool {
    &&& course.shaped(max)
    &&& num::repeatable::<S>() ==> course.follows(first)
    &&& exists|obs: Seq<Seq<S>>, agents: Seq<A>|
        {
            &&& #[trigger] chosen(before, after, obs, course.actions, agents)
            &&& num::repeatable::<S>() ==> course.sees(first, keys, obs)
        }
}

impl<S: Scalar> Agent<S> for Deterministic<Ppo<S>> {
    open spec fn acts_on(&self, n: nat) -> bool {
        self.policy.wf() && self.policy@.actor.input == n
    }

    open spec fn chooses(&self, obs: Seq<S>, action: [S; 2], after: &Self) -> bool {
        &&& after.policy@ == self.policy@
        &&& num::repeatable::<S>() ==> action == self.policy@.preferred(obs)
    }

    fn action(&mut self, obs: &[S]) -> (r: [S; 2]) {
        self.policy.deterministic_action(obs)
    }
}

impl<S: Scalar> Agent<S> for Deterministic<Sac<S>> {
    open spec fn acts_on(&self, n: nat) -> bool {
        self.policy.wf() && self.policy@.config.obs_dim == n
    }

    open spec fn chooses(&self, obs: Seq<S>, action: [S; 2], after: &Self) -> bool {
        &&& after.policy@ == self.policy@
        &&& num::repeatable::<S>() ==> action == self.policy@.chosen(obs, true)
    }

    fn action(&mut self, obs: &[S]) -> (r: [S; 2]) {
        self.policy.action(obs, true)
    }
}

/// The encoded state of an environment.
fn encoded_state<S: Scalar>(env: &Env<S>) -> (r: Vec<S>)
    ensures
        r@ == state::encoded(env.state()),
        r@.len() == STATE_DIM,
{
    let encoded: [S; STATE_DIM] = encode_state(&env.full_state());
    vstd::slice::slice_to_vec(encoded.as_slice())
}

/// Lets an agent act until the episode is over.
pub fn play<S: Scalar, A: Agent<S>>(env: Env<S>, layout: &ObsLayout, agent: &mut A) -> (r: Play<S>)
    requires
        layout.wf(),
        env.config.max_decisions > 0,
        old(agent).acts_on(layout.dim as nat),
    ensures
        final(agent).acts_on(layout.dim as nat),
        played(
            env,
            layout.keys@,
            env.config.max_decisions as nat,
            *old(agent),
            *final(agent),
            r@,
        ),
{
    let max: u32 = env.config.max_decisions;
    let ghost first = env;
    let mut env: Env<S> = env;
    let mut states: Vec<Vec<S>> = Vec::new();
    let mut actions: Vec<[S; 2]> = Vec::new();
    let mut results: Vec<StepResult<S>> = Vec::new();
    states.push(encoded_state(&env));
    let ghost mut agents: Seq<A> = seq![*agent];
    let ghost mut seen: Seq<Seq<S>> = Seq::empty();
    let mut over: bool = false;
    let mut n: u32 = 0;
    while n < max && !over
        invariant
            n <= max,
            over ==> n > 0,
            layout.wf(),
            agent.acts_on(layout.dim as nat),
            actions@.len() == n,
            results@.len() == n,
            states@.len() == n + 1,
            forall|i: int| 0 <= i <= n ==> (#[trigger] states@[i])@.len() == STATE_DIM,
            forall|i: int| 0 <= i < n - 1 ==> !(#[trigger] results@[i]).done(),
            n > 0 ==> over == results@[n - 1].done(),
            chosen(*old(agent), *agent, seen, actions@, agents),
            num::repeatable::<S>() ==> {
                &&& env == led(first, actions@, n as nat)
                &&& forall|i: int|
                    #![trigger states@[i]]
                    0 <= i <= n ==> states@[i]@ == state::encoded(
                        led(first, actions@, i as nat).state(),
                    )
                &&& forall|i: int|
                    #![trigger results@[i]]
                    0 <= i < n ==> results@[i] == led(first, actions@, i as nat).outcome(actions@[i])
                &&& forall|i: int|
                    #![trigger seen[i]]
                    0 <= i < n ==> seen[i] == led(first, actions@, i as nat).seen(layout.keys@)
            },
        decreases max - n,
    {
        let ghost taken = actions@;
        let ghost known = agents;
        let ghost views = seen;
        let ghost was = env;
        let ghost past = states@;
        let ghost outcomes = results@;
        let ghost acting = *agent;
        let mut obs: Vec<S> = num::repeat(S::from_count(0), layout.dim);
        env.observe_layout(layout, obs.as_mut_slice());
        let action: [S; 2] = agent.action(obs.as_slice());
        let result: StepResult<S> = env.step_result(action);
        actions.push(action);
        results.push(result);
        states.push(encoded_state(&env));
        over = result.terminated || result.truncated;
        proof {
            agents = known.push(*agent);
            seen = views.push(obs@);
            assert(chosen(*old(agent), *agent, seen, actions@, agents)) by {
                assert forall|i: int| #![trigger actions@[i]] 0 <= i < actions@.len() implies
                    agents[i].chooses(seen[i], actions@[i], &agents[i + 1]) by {
                    if i < n {
                        assert(known[i].chooses(views[i], taken[i], &known[i + 1]));
                    }
                }
            }
            assert forall|i: int| 0 <= i < n implies !(#[trigger] results@[i]).done() by {
                assert(results@[i] == outcomes[i]);
            }
            if num::repeatable::<S>() {
                assert forall|i: nat| i <= n implies #[trigger] led(first, actions@, i) == led(
                    first,
                    taken,
                    i,
                ) by {
                    lemma_led_agrees(first, actions@, taken, i);
                }
                assert(led(first, actions@, n as nat) == was);
                assert(led(first, actions@, (n + 1) as nat) == was.decided(action));
                assert forall|i: int| #![trigger states@[i]] 0 <= i <= n + 1 implies states@[i]@
                    == state::encoded(led(first, actions@, i as nat).state()) by {
                    if i <= n {
                        assert(states@[i] == past[i]);
                    }
                }
                assert forall|i: int| #![trigger results@[i]] 0 <= i < n + 1 implies results@[i]
                    == led(first, actions@, i as nat).outcome(actions@[i]) by {
                    if i < n {
                        assert(results@[i] == outcomes[i]);
                    }
                }
                assert forall|i: int| #![trigger seen[i]] 0 <= i < n + 1 implies seen[i] == led(
                    first,
                    actions@,
                    i as nat,
                ).seen(layout.keys@) by {
                    if i < n {
                        assert(seen[i] == views[i]);
                    }
                }
            }
        }
        n = n + 1;
    }
    let r: Play<S> = Play { states, actions, results };
    proof {
        assert(r@.shaped(max as nat));
        assert(chosen(*old(agent), *agent, seen, r@.actions, agents));
        if num::repeatable::<S>() {
            assert(r@.follows(first));
            assert(r@.sees(first, layout.keys@, seen));
        }
    }
    r
}

/// Where the first actions lead does not depend on the later ones.
proof fn lemma_led_agrees<S: Scalar>(first: Env<S>, a: Seq<[S; 2]>, b: Seq<[S; 2]>, n: nat)
    requires
        n <= a.len(),
        n <= b.len(),
        forall|i: int| 0 <= i < n ==> a[i] == b[i],
    ensures
        led(first, a, n) == led(first, b, n),
    decreases n,
{
    if n > 0 {
        lemma_led_agrees(first, a, b, (n - 1) as nat);
    }
}

/// Whether these transitions are those of a course.
pub open spec fn records<S: Scalar>(ts: Seq<Transition<S>>, course: Course<S>) -> bool {
    &&& ts.len() == course.actions.len()
    &&& forall|i: int|
        0 <= i < ts.len() ==> {
            &&& (#[trigger] ts[i]).state@ == course.states[i]
            &&& ts[i].next_state@ == course.states[i + 1]
            &&& ts[i].action == course.actions[i]
            &&& ts[i].reward == course.results[i].reward
            &&& ts[i].terminated == course.results[i].terminated
            &&& ts[i].truncated == course.results[i].truncated
        }
}

/// Whether these transitions are those of an episode in which an agent goes from `before` to
/// `after`.
pub open spec fn recorded<S: Scalar, A: Agent<S>>(
    first: Env<S>,
    keys: Seq<observation::ObservationKey>,
    max: nat,
    before: A,
    after: A,
    ts: Seq<Transition<S>>,
) -> bool {
    exists|course: Course<S>|
        #![trigger records(ts, course)]
        played(first, keys, max, before, after, course) && records(ts, course)
}

/// The transitions of an episode.
fn transitions_of<S: Scalar>(p: &Play<S>) -> (r: Vec<Transition<S>>)
    requires
        p@.states.len() == p@.actions.len() + 1,
        p@.results.len() == p@.actions.len(),
    ensures
        records(r@, p@),
{
    let n: usize = p.actions.len();
    let mut r: Vec<Transition<S>> = Vec::with_capacity(n);
    for i in 0..n
        invariant
            n == p@.actions.len(),
            p@.states.len() == n + 1,
            p@.results.len() == n,
            r@.len() == i,
            forall|k: int|
                0 <= k < i ==> {
                    &&& (#[trigger] r@[k]).state@ == p@.states[k]
                    &&& r@[k].next_state@ == p@.states[k + 1]
                    &&& r@[k].action == p@.actions[k]
                    &&& r@[k].reward == p@.results[k].reward
                    &&& r@[k].terminated == p@.results[k].terminated
                    &&& r@[k].truncated == p@.results[k].truncated
                },
    {
        let result: StepResult<S> = p.results[i];
        r.push(
            Transition {
                state: vstd::slice::slice_to_vec(p.states[i].as_slice()),
                action: p.actions[i],
                next_state: vstd::slice::slice_to_vec(p.states[i + 1].as_slice()),
                reward: result.reward,
                terminated: result.terminated,
                truncated: result.truncated,
            },
        );
    }
    r
}

/// Whether these are the records of as many episodes, one after the other from `seed` on, while an
/// agent goes from `before` to `after`.
pub open spec fn all_recorded<S: Scalar, A: Agent<S>>(
    seed: u64,
    config: EnvConfig,
    keys: Seq<observation::ObservationKey>,
    before: A,
    after: A,
    agents: Seq<A>,
    episodes: Seq<Episode<S>>,
) -> bool {
    &&& agents.len() == episodes.len() + 1
    &&& agents[0] == before
    &&& agents[episodes.len() as int] == after
    &&& forall|k: int|
        0 <= k < episodes.len() ==> {
            &&& (#[trigger] episodes[k]).id == k as u64
            &&& episodes[k].seed == seed.wrapping_add(k as u64)
            &&& recorded(
                simulator::first_episode::<S>(seed.wrapping_add(k as u64), config),
                keys,
                config.max_decisions as nat,
                agents[k],
                agents[k + 1],
                episodes[k].transitions@,
            )
        }
}

/// Records episodes of an agent, from the seed `seed` on.
pub fn collect_dataset<S: Scalar, A: Agent<S>>(
    episodes: usize,
    seed: u64,
    env_config: EnvConfig,
    layout: &ObsLayout,
    agent: &mut A,
) -> (r: Dataset<S>)
    requires
        layout.wf(),
        env_config.max_decisions > 0,
        old(agent).acts_on(layout.dim as nat),
    ensures
        final(agent).acts_on(layout.dim as nat),
        r.version@ == "push-state-dataset-v1"@,
        r.config_hash@ == "rust-env-v2-default-obs16-position"@,
        r.state_dim == STATE_DIM,
        r.episodes@.len() == episodes,
        episodes >= 3 ==> r.shaped(),
        exists|agents: Seq<A>| #[trigger]
            all_recorded(
                seed,
                env_config,
                layout.keys@,
                *old(agent),
                *final(agent),
                agents,
                r.episodes@,
            ),
{
    let mut all: Vec<Episode<S>> = Vec::with_capacity(episodes);
    let ghost mut agents: Seq<A> = seq![*agent];
    let ghost max = env_config.max_decisions as nat;
    for k in 0..episodes
        invariant
            layout.wf(),
            env_config.max_decisions > 0,
            max == env_config.max_decisions,
            agent.acts_on(layout.dim as nat),
            all@.len() == k,
            all_recorded(seed, env_config, layout.keys@, *old(agent), *agent, agents, all@),
            forall|i: int|
                0 <= i < k ==> (#[trigger] all@[i]).transitions@.len() > 0 && all@[i].shaped(
                    STATE_DIM,
                ),
    {
        let ghost known = agents;
        let ghost past = all@;
        let ghost acting = *agent;
        let episode_seed: u64 = seed.wrapping_add(k as u64);
        let env: Env<S> = Env::with_config(episode_seed, env_config);
        let p: Play<S> = play(env, layout, agent);
        let transitions: Vec<Transition<S>> = transitions_of(&p);
        all.push(Episode { id: k as u64, seed: episode_seed, transitions });
        proof {
            agents = known.push(*agent);
            let first = simulator::first_episode::<S>(episode_seed, env_config);
            assert(played(first, layout.keys@, max, acting, *agent, p@));
            assert(records(transitions@, p@));
            assert(recorded(first, layout.keys@, max, acting, *agent, transitions@));
            assert forall|i: int| 0 <= i < k + 1 implies {
                &&& (#[trigger] all@[i]).id == i as u64
                &&& all@[i].seed == seed.wrapping_add(i as u64)
                &&& recorded(
                    simulator::first_episode::<S>(seed.wrapping_add(i as u64), env_config),
                    layout.keys@,
                    max,
                    agents[i],
                    agents[i + 1],
                    all@[i].transitions@,
                )
            } by {
                if i < k {
                    assert(all@[i] == past[i]);
                }
            }
            assert forall|i: int| 0 <= i < k + 1 implies (#[trigger] all@[i]).transitions@.len() > 0
                && all@[i].shaped(STATE_DIM) by {
                if i < k {
                    assert(all@[i] == past[i]);
                } else {
                    assert forall|t: int| 0 <= t < transitions@.len() implies (
                    #[trigger] transitions@[t]).shaped(STATE_DIM) by {
                        assert(p@.states[t].len() == STATE_DIM);
                        assert(p@.states[t + 1].len() == STATE_DIM);
                    }
                }
            }
        }
    }
    let r: Dataset<S> = Dataset {
        version: "push-state-dataset-v1".to_owned(),
        config_hash: "rust-env-v2-default-obs16-position".to_owned(),
        state_dim: STATE_DIM,
        episodes: all,
    };
    proof {
        assert(all_recorded(
            seed,
            env_config,
            layout.keys@,
            *old(agent),
            *agent,
            agents,
            r.episodes@,
        ));
        assert forall|i: int, j: int| 0 <= i < j < r.episodes@.len() implies (
        #[trigger] r.episodes@[i]).id != (#[trigger] r.episodes@[j]).id by {
            assert(r.episodes@[i].id == i as u64);
            assert(r.episodes@[j].id == j as u64);
        }
    }
    r
}

} // verus!
