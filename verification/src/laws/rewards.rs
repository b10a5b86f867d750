//! What earns reward, and what ends an episode.
use crate::env::reward::{self, EnvConfig};
use crate::env::state::{self, FullState, Vec2};
use crate::laws::algebra;
use crate::laws::exact::{self, exact};
use crate::num::{Meaning, Scalar};
use vstd::prelude::*;

verus! {

/// The distance of two points is the length of the line between them.
pub proof fn law_distance_is_euclidean<S: Scalar>(v: spec_fn(S) -> real, a: Vec2<S>, b: Vec2<S>)
    requires
        exact(v),
    ensures
        ({
            let d = v(a.distance(b));
            let dx = v(a.x) - v(b.x);
            let dy = v(a.y) - v(b.y);
            &&& d >= 0real
            &&& d * d == dx * dx + dy * dy
            &&& v(b.distance(a)) * v(b.distance(a)) == d * d
        }),
{
    let dx = v(a.x) - v(b.x);
    let dy = v(a.y) - v(b.y);
    algebra::lemma_not_negative(dx);
    algebra::lemma_not_negative(dy);
    algebra::lemma_not_negative(v(b.x) - v(a.x));
    algebra::lemma_not_negative(v(b.y) - v(a.y));
    algebra::lemma_opposite_squares(v(a.x), v(b.x));
    algebra::lemma_opposite_squares(v(a.y), v(b.y));
}

/// The reward for the goal is a hundred times how much nearer the block has come to it: bringing it
/// nearer earns, and moving it away costs.
pub proof fn law_progress_earns<S: Scalar>(
    v: spec_fn(S) -> real,
    prev: FullState<S>,
    next: FullState<S>,
    action: [S; 2],
    config: EnvConfig,
)
    requires
        exact(v),
    ensures
        ({
            let r = reward::reward_of(prev, next, action, config);
            let before = v(prev.block.distance(prev.goal));
            let after = v(next.block.distance(next.goal));
            let near = v(reward::approach_distance(prev));
            let nearer = v(reward::approach_distance(next));
            &&& v(r.goal) == 100real * (before - after)
            &&& after < before ==> v(r.goal) > 0real
            &&& after > before ==> v(r.goal) < 0real
            &&& v(r.approach) == 12real * (near - nearer)
            &&& nearer < near ==> v(r.approach) > 0real
            &&& nearer > near ==> v(r.approach) < 0real
        }),
{
}

/// Time costs the same in every decision, and effort costs 0.008 times the squared length of the
/// action.
pub proof fn law_time_and_effort_cost<S: Scalar>(
    v: spec_fn(S) -> real,
    prev: FullState<S>,
    next: FullState<S>,
    action: [S; 2],
    config: EnvConfig,
)
    requires
        exact(v),
    ensures
        ({
            let r = reward::reward_of(prev, next, action, config);
            let a = v(action@[0]);
            let b = v(action@[1]);
            &&& v(r.time) == 0real - exact::part(35, 1000)
            &&& v(r.effort) == 0real - exact::part(8, 1000) * (a * a + b * b)
            &&& v(r.effort) <= 0real
        }),
{
    let a = v(action@[0]);
    let b = v(action@[1]);
    let k = exact::part(8, 1000);
    algebra::lemma_signs(k, a * a + b * b);
    algebra::lemma_not_negative(a);
    algebra::lemma_not_negative(b);
    algebra::lemma_divided(8real, 1000real);
    algebra::lemma_sign_of_factor(k, a * a + b * b);
}

/// A success earns a hundred and a tenth for each second that is left; a block that is lost costs
/// thirty; and nothing else earns or costs anything at its end. The total is the sum of the parts.
pub proof fn law_ends_earn<S: Scalar>(
    v: spec_fn(S) -> real,
    prev: FullState<S>,
    next: FullState<S>,
    action: [S; 2],
    config: EnvConfig,
)
    requires
        exact(v),
    ensures
        ({
            let r = reward::reward_of(prev, next, action, config);
            let e = reward::verdict(prev, next, action, config);
            let left = v(reward::episode_seconds::<S>(config)) - v(next.elapsed_seconds);
            &&& e.success ==> v(r.terminal) == 100real + exact::part(1, 10) * exact::most(
                left,
                0real,
            )
            &&& e.terminated && !e.success ==> v(r.terminal) == -30real
            &&& !e.terminated ==> v(r.terminal) == 0real
            &&& v(r.total) == v(r.goal) + v(r.approach) + v(r.time) + v(r.effort) + v(r.terminal)
            &&& e.reward == r.total
        }),
{
}

/// An episode succeeds once the block has been held at the goal for a quarter of a second, is lost
/// where the block is more than 1.6 away from the arm's base, and runs out of time after four
/// sixtieths of a second for each decision; it terminates for the first two reasons, and is
/// truncated for the third alone.
pub proof fn law_episodes_end<S: Scalar>(
    v: spec_fn(S) -> real,
    prev: FullState<S>,
    next: FullState<S>,
    action: [S; 2],
    config: EnvConfig,
)
    requires
        exact(v),
    ensures
        ({
            let e = reward::verdict(prev, next, action, config);
            let held = v(next.success_hold_seconds) + exact::part(1, 1000000) >= exact::part(1, 4);
            let away = v(next.block.distance(state::base())) > exact::part(16, 10);
            let late = v(next.elapsed_seconds) + exact::part(1, 100000) >= (
            config.max_decisions as real) * 4real * exact::part(1, 60);
            &&& e.success <==> held
            &&& e.terminated <==> held || away
            &&& e.truncated <==> late && !held && !away
        }),
{
}

/// The tip is to approach the point that lies 0.2 behind the block, on the line from the goal
/// through it.
pub proof fn law_approach_is_from_behind<S: Scalar>(v: spec_fn(S) -> real, s: FullState<S>)
    requires
        exact(v),
        v(s.block.distance(s.goal)) > exact::part(1, 1000000),
    ensures
        exists|b: Vec2<S>|
            {
                let d = v(s.block.distance(s.goal));
                &&& reward::approach_distance(s) == #[trigger] state::tip_at(s.q).distance(b)
                &&& (v(s.block.x) - v(b.x)) * d == exact::part(2, 10) * (v(s.goal.x) - v(s.block.x))
                &&& (v(s.block.y) - v(b.y)) * d == exact::part(2, 10) * (v(s.goal.y) - v(s.block.y))
            },
{
    let dx = s.goal.x.difference(s.block.x);
    let dy = s.goal.y.difference(s.block.y);
    let root = dx.product(dx).sum(dy.product(dy)).root();
    let d = root.larger(S::fraction(1, 1000000));
    let behind = S::fraction(2, 10);
    let b = Vec2 {
        x: s.block.x.difference(behind.product(dx).quotient(d)),
        y: s.block.y.difference(behind.product(dy).quotient(d)),
    };
    let len = v(s.block.distance(s.goal));
    law_distance_is_euclidean(v, s.block, s.goal);
    algebra::lemma_opposite_squares(v(s.goal.x), v(s.block.x));
    algebra::lemma_opposite_squares(v(s.goal.y), v(s.block.y));
    algebra::lemma_not_negative(v(dx));
    algebra::lemma_not_negative(v(dy));
    assert(v(root) * v(root) == len * len);
    algebra::lemma_divided(1real, 1000000real);
    algebra::lemma_same_squares(v(root), len);
    assert(v(d) == len);
    algebra::lemma_divided(v(behind) * v(dx), len);
    algebra::lemma_divided(v(behind) * v(dy), len);
    assert(reward::approach_distance(s) == state::tip_at(s.q).distance(b));
}

} // verus!
