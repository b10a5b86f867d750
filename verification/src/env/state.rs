//! The full state of the simulation, its encoding as a vector, and what a policy sees of it.
use crate::env::observation::{self, ObsLayout, ObservationKey};
use crate::num::{self, Meaning, Scalar};
use vstd::prelude::*;

verus! {

/// The length of an encoded state.
pub const STATE_DIM: usize = 18;

/// A point or a velocity in the plane.
#[derive(Clone, Copy, Debug, PartialEq)]
pub struct Vec2<S> {
    pub x: S,
    pub y: S,
}

/// Everything that the course of an episode depends on, and its clocks.
#[derive(Clone, Copy, Debug, PartialEq)]
pub struct FullState<S> {
    pub q: [S; 2],
    pub qv: [S; 2],
    pub block: Vec2<S>,
    pub block_v: Vec2<S>,
    pub block_angle: S,
    pub block_angular_velocity: S,
    pub controller_target: [S; 2],
    pub controller_velocity: [S; 2],
    pub goal: Vec2<S>,
    pub elapsed_seconds: S,
    pub success_hold_seconds: S,
}

/// The origin.
pub open spec fn origin<S: Scalar>() -> Vec2<S> {
    Vec2 { x: num::zero(), y: num::zero() }
}

/// The point on which the arm is mounted.
pub open spec fn base<S: Scalar>() -> Vec2<S> {
    Vec2 { x: S::fraction(115, 100).negated(), y: S::fraction(55, 100).negated() }
}

/// The angle `a` brought to one turn around zero.
pub open spec fn wrapped<S: Scalar>(a: S) -> S {
    a.sine().arc_tangent(a.cosine())
}

/// The position of the arm's tip at the joint angles `q`.
pub open spec fn tip_at<S: Scalar>(q: [S; 2]) -> Vec2<S> {
    let upper = S::fraction(105, 100);
    let lower = S::fraction(95, 100);
    let turn = q@[0].sum(q@[1]);
    Vec2 {
        x: base::<S>().x.sum(upper.product(q@[0].cosine())).sum(lower.product(turn.cosine())),
        y: base::<S>().y.sum(upper.product(q@[0].sine())).sum(lower.product(turn.sine())),
    }
}

/// The vector that a state is encoded as.
pub open spec fn encoded<S: Scalar>(s: FullState<S>) -> Seq<S> {
    seq![
        s.q@[0],
        s.q@[1],
        s.qv@[0],
        s.qv@[1],
        s.block.x,
        s.block.y,
        s.block_v.x,
        s.block_v.y,
        s.block_angle,
        s.block_angular_velocity,
        s.controller_target@[0],
        s.controller_target@[1],
        s.controller_velocity@[0],
        s.controller_velocity@[1],
        s.goal.x,
        s.goal.y,
        s.elapsed_seconds,
        s.success_hold_seconds,
    ]
}

/// The state that a vector of length [`STATE_DIM`] encodes.
pub open spec fn decoded<S: Scalar>(x: Seq<S>) -> FullState<S> {
    FullState {
        q: [x[0], x[1]],
        qv: [x[2], x[3]],
        block: Vec2 { x: x[4], y: x[5] },
        block_v: Vec2 { x: x[6], y: x[7] },
        block_angle: x[8],
        block_angular_velocity: x[9],
        controller_target: [x[10], x[11]],
        controller_velocity: [x[12], x[13]],
        goal: Vec2 { x: x[14], y: x[15] },
        elapsed_seconds: x[16],
        success_hold_seconds: x[17],
    }
}

/// The values of one group of an observation.
pub open spec fn group<S: Scalar>(
    state: FullState<S>,
    key: ObservationKey,
    max_seconds: S,
) -> Seq<S> {
    let tip = tip_at(state.q);
    let base = base::<S>();
    match key {
        ObservationKey::Bias => seq![num::one()],
        ObservationKey::JointAngles => seq![
            state.q@[0].quotient(num::half_turn()),
            state.q@[1].quotient(num::half_turn()),
        ],
        ObservationKey::JointVelocities => seq![
            state.qv@[0].quotient(S::counted(3)),
            state.qv@[1].quotient(S::counted(3)),
        ],
        ObservationKey::BlockPosition => seq![
            state.block.x.difference(base.x),
            state.block.y.difference(base.y),
        ],
        ObservationKey::GoalPosition => seq![
            state.goal.x.difference(base.x),
            state.goal.y.difference(base.y),
        ],
        ObservationKey::BlockRelative => seq![
            state.block.x.difference(tip.x),
            state.block.y.difference(tip.y),
        ],
        ObservationKey::GoalRelative => seq![
            state.goal.x.difference(state.block.x),
            state.goal.y.difference(state.block.y),
        ],
        ObservationKey::BlockVelocity => seq![state.block_v.x, state.block_v.y],
        ObservationKey::BlockOrientation => seq![
            state.block_angle.sine(),
            state.block_angle.cosine(),
        ],
        ObservationKey::BlockAngularVelocity => seq![
            state.block_angular_velocity.quotient(S::counted(3)),
        ],
        ObservationKey::EpisodeTime => seq![
            num::clamped(
                state.elapsed_seconds.quotient(max_seconds.larger(S::fraction(1, 1000000))),
                num::zero(),
                num::one(),
            ),
        ],
        ObservationKey::CommandVelocity => seq![
            state.controller_velocity@[0].quotient(S::fraction(3, 2)),
            state.controller_velocity@[1].quotient(S::fraction(3, 2)),
        ],
    }
}

/// The observation that the first `n` groups of `keys` make up.
pub open spec fn observed<S: Scalar>(
    state: FullState<S>,
    keys: Seq<ObservationKey>,
    max_seconds: S,
    n: nat,
) -> Seq<S>
    decreases n,
{
    if n == 0 {
        Seq::empty()
    } else {
        observed(state, keys, max_seconds, (n - 1) as nat) + group(state, keys[n - 1], max_seconds)
    }
}

/// An observation has the length of its layout.
pub proof fn lemma_observed_len<S: Scalar>(
    state: FullState<S>,
    keys: Seq<ObservationKey>,
    max_seconds: S,
    n: nat,
)
    ensures
        observed(state, keys, max_seconds, n).len() == observation::width(keys, n),
    decreases n,
{
    if n > 0 {
        lemma_observed_len(state, keys, max_seconds, (n - 1) as nat);
    }
}

/// Each group stands at the place that the groups before it leave, whatever the others are, and its
/// values depend on nothing but the group itself, the state and the length of an episode.
pub proof fn lemma_groups_stand_apart<S: Scalar>(
    state: FullState<S>,
    keys: Seq<ObservationKey>,
    max_seconds: S,
    n: nat,
    i: int,
)
    requires
        0 <= i < n <= keys.len(),
    ensures
        0 <= observation::width(keys, i as nat) <= observation::width(keys, (i + 1) as nat)
            <= observed(state, keys, max_seconds, n).len(),
        observed(state, keys, max_seconds, n).subrange(
            observation::width(keys, i as nat) as int,
            observation::width(keys, (i + 1) as nat) as int,
        ) == group(state, keys[i], max_seconds),
    decreases n,
{
    let whole = observed(state, keys, max_seconds, n);
    let a = observation::width(keys, i as nat) as int;
    let b = observation::width(keys, (i + 1) as nat) as int;
    let m = (n - 1) as nat;
    let before = observed(state, keys, max_seconds, m);
    lemma_observed_len(state, keys, max_seconds, m);
    lemma_observed_len(state, keys, max_seconds, n);
    observation::lemma_width_monotone(keys, i as nat, (i + 1) as nat);
    observation::lemma_width_monotone(keys, (i + 1) as nat, n);
    if i == m {
        assert(whole.subrange(a, b) =~= group(state, keys[i], max_seconds));
    } else {
        lemma_groups_stand_apart(state, keys, max_seconds, m, i);
        assert(whole.subrange(a, b) =~= before.subrange(a, b));
    }
}

impl<S: Scalar> Vec2<S> {
    /// The distance of two points.
    pub open spec fn distance(self, o: Self) -> S {
        self.x.difference(o.x).squared().sum(self.y.difference(o.y).squared()).root()
    }

    /// The distance of two points.
    pub fn dist(self, o: Self) -> (r: S)
        ensures
            num::repeatable::<S>() ==> r == self.distance(o),
    {
        self.x.minus(o.x).square().plus(self.y.minus(o.y).square()).sqrt()
    }
}

impl<S: Scalar> Default for Vec2<S> {
    fn default() -> (r: Self)
        ensures
            num::repeatable::<S>() ==> r == origin::<S>(),
    {
        Vec2 { x: S::from_count(0), y: S::from_count(0) }
    }
}

/// The state in which every number is zero.
pub open spec fn rest<S: Scalar>() -> FullState<S> {
    FullState {
        q: [num::zero(), num::zero()],
        qv: [num::zero(), num::zero()],
        block: origin(),
        block_v: origin(),
        block_angle: num::zero(),
        block_angular_velocity: num::zero(),
        controller_target: [num::zero(), num::zero()],
        controller_velocity: [num::zero(), num::zero()],
        goal: origin(),
        elapsed_seconds: num::zero(),
        success_hold_seconds: num::zero(),
    }
}

impl<S: Scalar> Default for FullState<S> {
    fn default() -> (r: Self)
        ensures
            num::repeatable::<S>() ==> r == rest::<S>(),
    {
        let zero: S = S::from_count(0);
        FullState {
            q: [zero, zero],
            qv: [zero, zero],
            block: Vec2 { x: zero, y: zero },
            block_v: Vec2 { x: zero, y: zero },
            block_angle: zero,
            block_angular_velocity: zero,
            controller_target: [zero, zero],
            controller_velocity: [zero, zero],
            goal: Vec2 { x: zero, y: zero },
            elapsed_seconds: zero,
            success_hold_seconds: zero,
        }
    }
}

/// The angle `a` brought to one turn around zero.
pub fn wrap<S: Scalar>(a: S) -> (r: S)
    ensures
        num::repeatable::<S>() ==> r == wrapped(a),
{
    a.sin().atan2(a.cos())
}

/// The point on which the arm is mounted.
pub fn arm_base<S: Scalar>() -> (r: Vec2<S>)
    ensures
        num::repeatable::<S>() ==> r == base::<S>(),
{
    Vec2 { x: S::from_ratio(115, 100).neg(), y: S::from_ratio(55, 100).neg() }
}

/// The position of the arm's tip at the joint angles `q`.
pub fn fk<S: Scalar>(q: [S; 2]) -> (r: Vec2<S>)
    ensures
        num::repeatable::<S>() ==> r == tip_at(q),
{
    let upper: S = S::from_ratio(105, 100);
    let lower: S = S::from_ratio(95, 100);
    let turn: S = q[0].plus(q[1]);
    let base: Vec2<S> = arm_base();
    Vec2 {
        x: base.x.plus(upper.times(q[0].cos())).plus(lower.times(turn.cos())),
        y: base.y.plus(upper.times(q[0].sin())).plus(lower.times(turn.sin())),
    }
}

/// Encodes a state as a vector.
pub fn encode_state<S: Scalar>(s: &FullState<S>) -> (r: [S; STATE_DIM])
    ensures
        r@ == encoded(*s),
{
    let r: [S; STATE_DIM] = [
        s.q[0],
        s.q[1],
        s.qv[0],
        s.qv[1],
        s.block.x,
        s.block.y,
        s.block_v.x,
        s.block_v.y,
        s.block_angle,
        s.block_angular_velocity,
        s.controller_target[0],
        s.controller_target[1],
        s.controller_velocity[0],
        s.controller_velocity[1],
        s.goal.x,
        s.goal.y,
        s.elapsed_seconds,
        s.success_hold_seconds,
    ];
    assert(r@ =~= encoded(*s));
    r
}

/// Decodes a state from a vector.
pub fn decode_state<S: Scalar>(x: [S; STATE_DIM]) -> (r: FullState<S>)
    ensures
        r == decoded(x@),
{
    FullState {
        q: [x[0], x[1]],
        qv: [x[2], x[3]],
        block: Vec2 { x: x[4], y: x[5] },
        block_v: Vec2 { x: x[6], y: x[7] },
        block_angle: x[8],
        block_angular_velocity: x[9],
        controller_target: [x[10], x[11]],
        controller_velocity: [x[12], x[13]],
        goal: Vec2 { x: x[14], y: x[15] },
        elapsed_seconds: x[16],
        success_hold_seconds: x[17],
    }
}

/// A state comes back from its encoding.
pub proof fn lemma_decode_of_encode<S: Scalar>(s: FullState<S>)
    ensures
        decoded(encoded(s)) == s,
{
    let d = decoded(encoded(s));
    assert(d.q =~= s.q);
    assert(d.qv =~= s.qv);
    assert(d.controller_target =~= s.controller_target);
    assert(d.controller_velocity =~= s.controller_velocity);
}

/// A vector comes back from the state that it encodes.
pub proof fn lemma_encode_of_decode<S: Scalar>(x: Seq<S>)
    requires
        x.len() == STATE_DIM,
    ensures
        encoded(decoded(x)) == x,
{
    assert(encoded(decoded(x)) =~= x);
}

/// Writes what a policy sees of `state` to `out`.
pub fn encode_observation<S: Scalar>(
    state: &FullState<S>,
    layout: &ObsLayout,
    max_seconds: S,
    out: &mut [S],
)
    requires
        layout.wf(),
        old(out)@.len() == layout.dim,
    ensures
        final(out)@.len() == old(out)@.len(),
        num::repeatable::<S>() ==> final(out)@ == observed(
            *state,
            layout.keys@,
            max_seconds,
            layout.keys@.len(),
        ),
{
    let base: Vec2<S> = arm_base();
    let tip: Vec2<S> = fk(state.q);
    let count: usize = layout.keys.len();
    let size: usize = out.len();
    let ghost keys = layout.keys@;
    let mut at: usize = 0;
    for i in 0..count
        invariant
            count == keys.len(),
            keys == layout.keys@,
            size == out@.len() == old(out)@.len(),
            size == observation::width(keys, keys.len()),
            at == observation::width(keys, i as nat),
            num::repeatable::<S>() ==> base == crate::env::state::base::<S>(),
            num::repeatable::<S>() ==> tip == tip_at(state.q),
            num::repeatable::<S>() ==> forall|k: int|
                0 <= k < at ==> out@[k] == observed(*state, keys, max_seconds, i as nat)[k],
    {
        let key: ObservationKey = layout.keys[i];
        let n: usize = key.dims();
        proof {
            observation::lemma_width_monotone(keys, (i + 1) as nat, keys.len());
            lemma_observed_len(*state, keys, max_seconds, i as nat);
        }
        let ghost before = out@;
        match key {
            ObservationKey::Bias => {
                out[at] = S::from_count(1);
            },
            ObservationKey::JointAngles => {
                out[at] = state.q[0].over(num::pi());
                out[at + 1] = state.q[1].over(num::pi());
            },
            ObservationKey::JointVelocities => {
                out[at] = state.qv[0].over(S::from_count(3));
                out[at + 1] = state.qv[1].over(S::from_count(3));
            },
            ObservationKey::BlockPosition => {
                out[at] = state.block.x.minus(base.x);
                out[at + 1] = state.block.y.minus(base.y);
            },
            ObservationKey::GoalPosition => {
                out[at] = state.goal.x.minus(base.x);
                out[at + 1] = state.goal.y.minus(base.y);
            },
            ObservationKey::BlockRelative => {
                out[at] = state.block.x.minus(tip.x);
                out[at + 1] = state.block.y.minus(tip.y);
            },
            ObservationKey::GoalRelative => {
                out[at] = state.goal.x.minus(state.block.x);
                out[at + 1] = state.goal.y.minus(state.block.y);
            },
            ObservationKey::BlockVelocity => {
                out[at] = state.block_v.x;
                out[at + 1] = state.block_v.y;
            },
            ObservationKey::BlockOrientation => {
                out[at] = state.block_angle.sin();
                out[at + 1] = state.block_angle.cos();
            },
            ObservationKey::BlockAngularVelocity => {
                out[at] = state.block_angular_velocity.over(S::from_count(3));
            },
            ObservationKey::EpisodeTime => {
                out[at] = num::clamp(
                    state.elapsed_seconds.over(max_seconds.max(S::from_ratio(1, 1000000))),
                    S::from_count(0),
                    S::from_count(1),
                );
            },
            ObservationKey::CommandVelocity => {
                out[at] = state.controller_velocity[0].over(S::from_ratio(3, 2));
                out[at + 1] = state.controller_velocity[1].over(S::from_ratio(3, 2));
            },
        }
        proof {
            if num::repeatable::<S>() {
                let done = observed(*state, keys, max_seconds, i as nat);
                let part = group(*state, key, max_seconds);
                assert(observed(*state, keys, max_seconds, (i + 1) as nat) == done + part);
                assert(out@[at as int] == part[0]);
                assert(part.len() == 2 ==> out@[at + 1] == part[1]);
                assert forall|k: int| 0 <= k < at + n implies out@[k] == (done + part)[k] by {
                    if k < at {
                        assert(out@[k] == before[k]);
                    }
                }
            }
        }
        at = at + n;
    }
    proof {
        lemma_observed_len(*state, keys, max_seconds, keys.len());
        if num::repeatable::<S>() {
            assert(out@ =~= observed(*state, keys, max_seconds, keys.len()));
        }
    }
}

} // verus!
