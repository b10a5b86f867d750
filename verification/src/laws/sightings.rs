//! What a policy sees.
use crate::env::observation::ObservationKey;
use crate::env::state::{self, FullState};
use crate::laws::algebra;
use crate::laws::exact::{self, exact};
use crate::num::{self, Meaning, Scalar};
use vstd::prelude::*;

verus! {

/// Positions are seen from the arm's base, which stands at `(-1.15, -0.55)`; the block from the tip;
/// and the goal from the block.
pub proof fn law_positions_are_relative<S: Scalar>(
    v: spec_fn(S) -> real,
    s: FullState<S>,
    seconds: S,
)
    requires
        exact(v),
    ensures
        ({
            let block = state::group(s, ObservationKey::BlockPosition, seconds);
            let goal = state::group(s, ObservationKey::GoalPosition, seconds);
            let ahead = state::group(s, ObservationKey::BlockRelative, seconds);
            let left = state::group(s, ObservationKey::GoalRelative, seconds);
            let tip = state::tip_at(s.q);
            &&& block.len() == 2 && goal.len() == 2 && ahead.len() == 2 && left.len() == 2
            &&& v(block[0]) == v(s.block.x) + exact::part(115, 100)
            &&& v(block[1]) == v(s.block.y) + exact::part(55, 100)
            &&& v(goal[0]) == v(s.goal.x) + exact::part(115, 100)
            &&& v(goal[1]) == v(s.goal.y) + exact::part(55, 100)
            &&& v(tip.x) + v(ahead[0]) == v(s.block.x)
            &&& v(tip.y) + v(ahead[1]) == v(s.block.y)
            &&& v(s.block.x) + v(left[0]) == v(s.goal.x)
            &&& v(s.block.y) + v(left[1]) == v(s.goal.y)
        }),
{
}

/// Angles are seen in half turns, joint velocities and the block's spin in thirds, commanded
/// velocities in shares of 1.5, and the block's velocity as it is.
pub proof fn law_motion_is_scaled<S: Scalar>(v: spec_fn(S) -> real, s: FullState<S>, seconds: S)
    requires
        exact(v),
    ensures
        ({
            let angles = state::group(s, ObservationKey::JointAngles, seconds);
            let speeds = state::group(s, ObservationKey::JointVelocities, seconds);
            let commands = state::group(s, ObservationKey::CommandVelocity, seconds);
            let spin = state::group(s, ObservationKey::BlockAngularVelocity, seconds);
            let drift = state::group(s, ObservationKey::BlockVelocity, seconds);
            let turn = exact::part(13176795, 4194304);
            let top = exact::part(3, 2);
            &&& angles.len() == 2 && speeds.len() == 2 && commands.len() == 2 && spin.len() == 1
            &&& v(angles[0]) * turn == v(s.q@[0])
            &&& v(angles[1]) * turn == v(s.q@[1])
            &&& v(speeds[0]) * 3real == v(s.qv@[0])
            &&& v(speeds[1]) * 3real == v(s.qv@[1])
            &&& v(commands[0]) * top == v(s.controller_velocity@[0])
            &&& v(commands[1]) * top == v(s.controller_velocity@[1])
            &&& v(spin[0]) * 3real == v(s.block_angular_velocity)
            &&& drift == seq![s.block_v.x, s.block_v.y]
        }),
{
    let turn = exact::part(13176795, 4194304);
    let top = exact::part(3, 2);
    algebra::lemma_divided(13176795real, 4194304real);
    algebra::lemma_divided(3real, 2real);
    assert(v(num::half_turn::<S>()) == turn);
    assert(v(S::fraction(3, 2)) == top);
    assert(v(S::counted(3)) == 3real);
    assert(turn > 0real && top > 0real);
    algebra::lemma_divided(v(s.q@[0]), turn);
    algebra::lemma_divided(v(s.q@[1]), turn);
    algebra::lemma_divided(v(s.qv@[0]), 3real);
    algebra::lemma_divided(v(s.qv@[1]), 3real);
    algebra::lemma_divided(v(s.controller_velocity@[0]), top);
    algebra::lemma_divided(v(s.controller_velocity@[1]), top);
    algebra::lemma_divided(v(s.block_angular_velocity), 3real);
    assert(state::group(s, ObservationKey::BlockVelocity, seconds) =~= seq![
        s.block_v.x,
        s.block_v.y,
    ]);
}

/// The orientation is seen as a direction: its sine and its cosine; the bias is one; and the time is
/// the share of the episode that has passed, between zero and one.
pub proof fn law_orientation_and_time<S: Scalar>(v: spec_fn(S) -> real, s: FullState<S>, seconds: S)
    requires
        exact(v),
        v(seconds) >= exact::part(1, 1000000),
    ensures
        ({
            let facing = state::group(s, ObservationKey::BlockOrientation, seconds);
            let bias = state::group(s, ObservationKey::Bias, seconds);
            let time = state::group(s, ObservationKey::EpisodeTime, seconds);
            &&& facing == seq![s.block_angle.sine(), s.block_angle.cosine()]
            &&& bias.len() == 1 && v(bias[0]) == 1real
            &&& time.len() == 1 && 0real <= v(time[0]) <= 1real
            &&& 0real <= v(s.elapsed_seconds) <= v(seconds) ==> v(time[0]) * v(seconds) == v(
                s.elapsed_seconds,
            )
            &&& v(s.elapsed_seconds) > v(seconds) ==> v(time[0]) == 1real
        }),
{
    assert(state::group(s, ObservationKey::BlockOrientation, seconds) =~= seq![
        s.block_angle.sine(),
        s.block_angle.cosine(),
    ]);
    algebra::lemma_divided(1real, 1000000real);
    assert(v(S::fraction(1, 1000000)) == exact::part(1, 1000000));
    let whole = seconds.larger(S::fraction(1, 1000000));
    assert(v(whole) == v(seconds));
    let share = s.elapsed_seconds.quotient(whole);
    let k = v(seconds);
    algebra::lemma_divided(v(s.elapsed_seconds), k);
    exact::lemma_clamped_reads(v, share, num::zero(), num::one());
    algebra::lemma_signs(v(share), k);
    algebra::lemma_sign_of_factor(k, v(share));
    algebra::lemma_scaled_order(v(share), 1real, k);
    algebra::lemma_units(k);
}

} // verus!
