//! The task: when an episode ends, and what a transition is worth.
use crate::env::state::{self, arm_base, fk, FullState, Vec2};
use crate::num::{self, Meaning, Scalar};
use vstd::prelude::*;

verus! {

/// What the two components of an action mean.
#[derive(Clone, Copy, Debug, PartialEq, Eq, Structural)]
pub enum ActionMode {
    Position,
    JointDelta,
    Absolute,
    Velocity,
    Acceleration,
}

/// The meaning of actions and the number of decisions in an episode.
#[derive(Clone, Copy, Debug, PartialEq, Eq, Structural)]
pub struct EnvConfig {
    pub action_mode: ActionMode,
    pub max_decisions: u32,
}

/// What a decision led to.
#[derive(Clone, Copy, Debug, PartialEq)]
pub struct StepResult<S> {
    pub reward: S,
    pub terminated: bool,
    pub truncated: bool,
    pub success: bool,
}

/// The parts of a reward and their sum.
#[derive(Clone, Copy, Debug)]
pub struct Reward<S> {
    pub total: S,
    pub goal: S,
    pub approach: S,
    pub time: S,
    pub effort: S,
    pub terminal: S,
}

impl<S: Scalar> Default for StepResult<S> {
    /// Nothing earned, and the episode goes on.
    fn default() -> (r: Self)
        ensures
            !r.terminated && !r.truncated && !r.success,
            num::repeatable::<S>() ==> r.reward == num::zero::<S>(),
    {
        StepResult {
            reward: S::from_count(0),
            terminated: false,
            truncated: false,
            success: false,
        }
    }
}

impl<S: Scalar> Default for Reward<S> {
    /// A reward whose parts are all zero.
    fn default() -> (r: Self)
        ensures
            num::repeatable::<S>() ==> r == (Reward {
                total: num::zero::<S>(),
                goal: num::zero::<S>(),
                approach: num::zero::<S>(),
                time: num::zero::<S>(),
                effort: num::zero::<S>(),
                terminal: num::zero::<S>(),
            }),
    {
        let zero: S = S::from_count(0);
        Reward {
            total: zero,
            goal: zero,
            approach: zero,
            time: zero,
            effort: zero,
            terminal: zero,
        }
    }
}

impl Default for EnvConfig {
    /// Position control, and seventy-five decisions.
    fn default() -> (r: Self)
        ensures
            r == (EnvConfig { action_mode: ActionMode::Position, max_decisions: 75 }),
    {
        EnvConfig { action_mode: ActionMode::Position, max_decisions: 75 }
    }
}

/// The configuration with position control and seventy-five decisions.
pub open spec fn default_config() -> EnvConfig {
    EnvConfig { action_mode: ActionMode::Position, max_decisions: 75 }
}

/// The duration of one physics step in seconds.
pub open spec fn tick<S: Scalar>() -> S {
    S::fraction(1, 60)
}

/// The duration of an episode in seconds.
pub open spec fn episode_seconds<S: Scalar>(config: EnvConfig) -> S {
    S::counted(config.max_decisions as u64).product(S::counted(4)).product(tick())
}

/// The distance of the arm's tip from the point behind the block, as seen from the goal.
pub open spec fn approach_distance<S: Scalar>(s: FullState<S>) -> S {
    let dx = s.goal.x.difference(s.block.x);
    let dy = s.goal.y.difference(s.block.y);
    let d = dx.product(dx).sum(dy.product(dy)).root().larger(S::fraction(1, 1000000));
    let behind = S::fraction(2, 10);
    state::tip_at(s.q).distance(
        Vec2 {
            x: s.block.x.difference(behind.product(dx).quotient(d)),
            y: s.block.y.difference(behind.product(dy).quotient(d)),
        },
    )
}

/// Whether the block has been held at the goal for a quarter of a second.
pub open spec fn succeeded<S: Scalar>(s: FullState<S>) -> bool {
    S::fraction(1, 4).is_at_most(s.success_hold_seconds.sum(S::fraction(1, 1000000)))
}

/// Whether the block has left the reach of the arm.
pub open spec fn lost<S: Scalar>(s: FullState<S>) -> bool {
    S::fraction(16, 10).is_less(s.block.distance(state::base()))
}

/// Whether the time of the episode is up.
pub open spec fn timed_out<S: Scalar>(s: FullState<S>, config: EnvConfig) -> bool {
    episode_seconds::<S>(config).is_at_most(s.elapsed_seconds.sum(S::fraction(1, 100000)))
}

/// The reward of a transition.
pub open spec fn reward_of<S: Scalar>(
    prev: FullState<S>,
    next: FullState<S>,
    action: [S; 2],
    config: EnvConfig,
) -> Reward<S> {
    let goal = S::counted(100).product(
        prev.block.distance(prev.goal).difference(next.block.distance(next.goal)),
    );
    let approach = S::counted(12).product(
        approach_distance(prev).difference(approach_distance(next)),
    );
    let time = S::fraction(35, 1000).negated();
    let effort = S::fraction(8, 1000).negated().product(
        action@[0].squared().sum(action@[1].squared()),
    );
    let terminal = if succeeded(next) {
        S::counted(100).sum(
            S::fraction(1, 10).product(
                episode_seconds::<S>(config).difference(next.elapsed_seconds).larger(num::zero()),
            ),
        )
    } else if lost(next) {
        S::counted(30).negated()
    } else {
        num::zero()
    };
    Reward {
        total: goal.sum(approach).sum(time).sum(effort).sum(terminal),
        goal,
        approach,
        time,
        effort,
        terminal,
    }
}

/// What a transition leads to: it terminates the episode on success and where the block is lost,
/// and truncates it where only the time is up.
pub open spec fn verdict<S: Scalar>(
    prev: FullState<S>,
    next: FullState<S>,
    action: [S; 2],
    config: EnvConfig,
) -> StepResult<S> {
    let terminated = succeeded(next) || lost(next);
    StepResult {
        reward: reward_of(prev, next, action, config).total,
        terminated,
        truncated: !terminated && timed_out(next, config),
        success: succeeded(next),
    }
}

/// The duration of one physics step in seconds.
pub fn dt<S: Scalar>() -> (r: S)
    ensures
        num::repeatable::<S>() ==> r == tick::<S>(),
{
    S::from_ratio(1, 60)
}

/// The duration of an episode in seconds.
pub fn max_seconds<S: Scalar>(config: &EnvConfig) -> (r: S)
    ensures
        num::repeatable::<S>() ==> r == episode_seconds::<S>(*config),
{
    S::from_count(config.max_decisions as u64).times(S::from_count(4)).times(dt())
}

/// The distance of the arm's tip from the point behind the block, as seen from the goal.
fn push_point_distance<S: Scalar>(s: &FullState<S>) -> (r: S)
    ensures
        num::repeatable::<S>() ==> r == approach_distance(*s),
{
    let dx: S = s.goal.x.minus(s.block.x);
    let dy: S = s.goal.y.minus(s.block.y);
    let d: S = dx.times(dx).plus(dy.times(dy)).sqrt().max(S::from_ratio(1, 1000000));
    let behind: S = S::from_ratio(2, 10);
    let p: Vec2<S> = Vec2 {
        x: s.block.x.minus(behind.times(dx).over(d)),
        y: s.block.y.minus(behind.times(dy).over(d)),
    };
    fk(s.q).dist(p)
}

/// Whether the block has been held at the goal for a quarter of a second.
fn is_success<S: Scalar>(s: &FullState<S>) -> (r: bool)
    ensures
        num::repeatable::<S>() ==> r == succeeded(*s),
{
    S::from_ratio(1, 4).at_most(s.success_hold_seconds.plus(S::from_ratio(1, 1000000)))
}

/// Whether the block has left the reach of the arm.
fn is_failure<S: Scalar>(s: &FullState<S>) -> (r: bool)
    ensures
        num::repeatable::<S>() ==> r == lost(*s),
{
    S::from_ratio(16, 10).less(s.block.dist(arm_base()))
}

/// The reward of a transition, with its parts.
pub fn transition_reward<S: Scalar>(
    prev: &FullState<S>,
    next: &FullState<S>,
    action: [S; 2],
    config: &EnvConfig,
) -> (r: Reward<S>)
    ensures
        num::repeatable::<S>() ==> r == reward_of(*prev, *next, action, *config),
{
    let goal: S = S::from_count(100).times(
        prev.block.dist(prev.goal).minus(next.block.dist(next.goal)),
    );
    let approach: S = S::from_count(12).times(
        push_point_distance(prev).minus(push_point_distance(next)),
    );
    let time: S = S::from_ratio(35, 1000).neg();
    let effort: S = S::from_ratio(8, 1000).neg().times(
        action[0].square().plus(action[1].square()),
    );
    let terminal: S = if is_success(next) {
        S::from_count(100).plus(
            S::from_ratio(1, 10).times(
                max_seconds::<S>(config).minus(next.elapsed_seconds).max(S::from_count(0)),
            ),
        )
    } else if is_failure(next) {
        S::from_count(30).neg()
    } else {
        S::from_count(0)
    };
    let total: S = goal.plus(approach).plus(time).plus(effort).plus(terminal);
    Reward { total, goal, approach, time, effort, terminal }
}

/// What a transition leads to.
pub fn evaluate_transition<S: Scalar>(
    prev: &FullState<S>,
    next: &FullState<S>,
    action: [S; 2],
    config: &EnvConfig,
) -> (r: StepResult<S>)
    ensures
        !(r.terminated && r.truncated),
        r.success ==> r.terminated,
        num::repeatable::<S>() ==> r == verdict(*prev, *next, action, *config),
{
    let success: bool = is_success(next);
    let terminated: bool = success || is_failure(next);
    let reward: S = transition_reward(prev, next, action, config).total;
    let late: S = next.elapsed_seconds.plus(S::from_ratio(1, 100000));
    StepResult {
        reward,
        terminated,
        truncated: !terminated && max_seconds::<S>(config).at_most(late),
        success,
    }
}

} // verus!
