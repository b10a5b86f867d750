//! The simulator: contact dynamics at sixty steps a second, four for each decision.
use crate::env::observation::{self, ObsLayout};
use crate::env::reward::{
    self, dt, evaluate_transition, max_seconds, ActionMode, EnvConfig, StepResult,
};
use crate::env::state::{self, encode_observation, fk, wrap, FullState, Vec2};
use crate::num::{self, Meaning, Scalar};
use vstd::prelude::*;

verus! {

/// The name of the contact model.
pub const BACKEND: &'static str = "kinematic-arm-disk-contact-v2";

/// A running episode and the seed of the ones to come.
#[derive(Clone, Copy, Debug)]
pub struct Env<S> {
    pub q: [S; 2],
    pub qv: [S; 2],
    pub block: Vec2<S>,
    pub goal: Vec2<S>,
    pub block_v: Vec2<S>,
    pub t: u32,
    pub seed: u64,
    pub success_hold: u32,
    pub block_angle: S,
    pub block_angular_velocity: S,
    pub controller_target: [S; 2],
    pub controller_velocity: [S; 2],
    pub elapsed_seconds: S,
    pub success_hold_seconds: S,
    pub config: EnvConfig,
}

/// The seed that follows `seed`.
pub open spec fn next_seed(seed: u64) -> u64 {
    seed.wrapping_mul(6364136223846793005).wrapping_add(1)
}

/// The number between zero and one that a seed stands for.
pub open spec fn seed_unit<S: Scalar>(seed: u64) -> S {
    S::counted(seed >> 40).quotient(S::counted(16777216))
}

/// The point at the angle `a` and the distance `r` from the base of the arm.
pub open spec fn around_base<S: Scalar>(r: S, a: S) -> Vec2<S> {
    Vec2 {
        x: state::base::<S>().x.sum(r.product(a.cosine())),
        y: state::base::<S>().y.sum(r.product(a.sine())),
    }
}

/// The first episode that `seed` leads to.
pub open spec fn first_episode<S: Scalar>(seed: u64, config: EnvConfig) -> Env<S> {
    let zero = num::zero::<S>();
    (Env {
        q: [zero, zero],
        qv: [zero, zero],
        block: state::origin(),
        goal: state::origin(),
        block_v: state::origin(),
        t: 0,
        seed,
        success_hold: 0,
        block_angle: zero,
        block_angular_velocity: zero,
        controller_target: [zero, zero],
        controller_velocity: [zero, zero],
        elapsed_seconds: zero,
        success_hold_seconds: zero,
        config,
    }).restarted()
}

/// The bound on the second joint angle.
pub open spec fn elbow_limit<S: Scalar>() -> S {
    S::fraction(275, 100)
}

/// `x` brought within `-limit ..= limit`.
pub open spec fn limited<S: Scalar>(x: S, limit: S) -> S {
    num::clamped(x, limit.negated(), limit)
}

/// The joint angles that bring the tip to `p`, the first one within one turn of `q0`.
pub open spec fn joints_for<S: Scalar>(q0: S, p: Vec2<S>) -> [S; 2] {
    let upper = S::fraction(105, 100);
    let lower = S::fraction(95, 100);
    let x = p.x.sum(S::fraction(115, 100));
    let y = p.y.sum(S::fraction(55, 100));
    let c = limited(
        x.product(x).sum(y.product(y)).difference(upper.product(upper)).difference(
            lower.product(lower),
        ).quotient(S::counted(2).product(upper).product(lower)),
        num::one(),
    );
    let q2 = limited(c.arc_cosine(), elbow_limit());
    let q1 = y.arc_tangent(x).difference(
        lower.product(q2.sine()).arc_tangent(upper.sum(lower.product(q2.cosine()))),
    );
    [q0.sum(state::wrapped(q1.difference(q0))), q2]
}

/// The velocity that a joint takes up to correct `error`.
pub open spec fn joint_velocity<S: Scalar>(error: S) -> S {
    limited(error.product(S::counted(20)), S::fraction(28, 10))
}

/// The share of a velocity that is left after one physics step.
pub open spec fn damping<S: Scalar>() -> S {
    S::fraction(82, 100)
}

impl<S: Scalar> Env<S> {
    /// The state of the episode.
    pub open spec fn state(self) -> FullState<S> {
        FullState {
            q: self.q,
            qv: self.qv,
            block: self.block,
            block_v: self.block_v,
            goal: self.goal,
            block_angle: self.block_angle,
            block_angular_velocity: self.block_angular_velocity,
            controller_target: self.controller_target,
            controller_velocity: self.controller_velocity,
            elapsed_seconds: self.elapsed_seconds,
            success_hold_seconds: self.success_hold_seconds,
        }
    }

    /// The environment in the state `s`.
    pub open spec fn at_state(self, s: FullState<S>) -> Self {
        let decision = S::counted(4).product(reward::tick());
        Env {
            q: s.q,
            qv: s.qv,
            block: s.block,
            block_v: s.block_v,
            goal: s.goal,
            t: s.elapsed_seconds.quotient(decision).rounded().as_u32(),
            success_hold: s.success_hold_seconds.quotient(decision).floored().as_u32(),
            block_angle: s.block_angle,
            block_angular_velocity: s.block_angular_velocity,
            controller_target: s.controller_target,
            controller_velocity: s.controller_velocity,
            elapsed_seconds: s.elapsed_seconds,
            success_hold_seconds: s.success_hold_seconds,
            seed: self.seed,
            config: self.config,
        }
    }

    /// The environment at the start of the next episode.
    pub open spec fn restarted(self) -> Self {
        let s1 = next_seed(self.seed);
        let s2 = next_seed(s1);
        let s3 = next_seed(s2);
        let a = seed_unit::<S>(s1).product(S::counted(2)).product(num::half_turn());
        let r = S::fraction(95, 100).sum(seed_unit::<S>(s2).product(S::fraction(1, 4)));
        let delta = S::fraction(1, 2).sum(seed_unit::<S>(s3).product(S::fraction(12, 100)));
        let zero = num::zero::<S>();
        let q = joints_for(zero, around_base(r, a.difference(S::fraction(2, 10))));
        Env {
            q,
            qv: [zero, zero],
            block: around_base(r, a),
            goal: around_base(r, a.sum(delta)),
            block_v: state::origin(),
            t: 0,
            seed: s3,
            success_hold: 0,
            block_angle: zero,
            block_angular_velocity: zero,
            controller_target: q,
            controller_velocity: [zero, zero],
            elapsed_seconds: zero,
            success_hold_seconds: zero,
            config: self.config,
        }
    }

    /// The environment after the joints have moved towards `target` for one physics step.
    pub open spec fn arm_moved(self, target: [S; 2]) -> Self {
        let v0 = joint_velocity(state::wrapped(target@[0].difference(self.q@[0])));
        let v1 = joint_velocity(target@[1].difference(self.q@[1]));
        let dt = reward::tick::<S>();
        Env {
            q: [
                self.q@[0].sum(v0.product(dt)),
                limited(self.q@[1].sum(v1.product(dt)), elbow_limit()),
            ],
            qv: [v0, v1],
            ..self
        }
    }

    /// The environment after the block has moved freely for one physics step.
    pub open spec fn block_drifted(self) -> Self {
        let dt = reward::tick::<S>();
        Env {
            block: Vec2 {
                x: self.block.x.sum(self.block_v.x.product(dt)),
                y: self.block.y.sum(self.block_v.y.product(dt)),
            },
            block_angle: self.block_angle.sum(self.block_angular_velocity.product(dt)),
            block_v: Vec2 {
                x: self.block_v.x.product(damping()),
                y: self.block_v.y.product(damping()),
            },
            block_angular_velocity: self.block_angular_velocity.product(damping()),
            ..self
        }
    }

    /// The environment after the tip, which came from `from`, has pushed the block.
    pub open spec fn block_pushed(self, from: Vec2<S>) -> Self {
        let ee = state::tip_at(self.q);
        let dt = reward::tick::<S>();
        let dx = self.block.x.difference(ee.x);
        let dy = self.block.y.difference(ee.y);
        let d = dx.product(dx).sum(dy.product(dy)).root();
        let radius = S::fraction(11, 100);
        if d.is_less(radius) {
            let apart = S::fraction(1, 1000000).is_less(d);
            let nx = if apart {
                dx.quotient(d)
            } else {
                num::one()
            };
            let ny = if apart {
                dy.quotient(d)
            } else {
                num::zero()
            };
            let rx = ee.x.difference(from.x).quotient(dt).difference(self.block_v.x);
            let ry = ee.y.difference(from.y).quotient(dt).difference(self.block_v.y);
            let impulse = rx.product(nx).sum(ry.product(ny)).larger(num::zero());
            let slip = rx.product(ny.negated()).sum(ry.product(nx)).difference(
                self.block_angular_velocity.product(S::fraction(7, 100)),
            );
            let grip = S::fraction(3, 10).product(impulse);
            let friction = num::clamped(
                slip,
                S::fraction(3, 10).negated().product(impulse),
                grip,
            );
            Env {
                block: Vec2 {
                    x: self.block.x.sum(nx.product(radius.difference(d))),
                    y: self.block.y.sum(ny.product(radius.difference(d))),
                },
                block_v: Vec2 {
                    x: self.block_v.x.sum(
                        impulse.product(nx).difference(friction.product(ny)),
                    ),
                    y: self.block_v.y.sum(impulse.product(ny).sum(friction.product(nx))),
                },
                block_angular_velocity: self.block_angular_velocity.difference(
                    friction.product(S::counted(2)).quotient(S::fraction(7, 100)),
                ),
                ..self
            }
        } else {
            self
        }
    }

    /// The environment after its clocks have moved by one physics step. The clock of success runs
    /// while the block is at the goal, and starts anew where it is not.
    pub open spec fn clocked(self) -> Self {
        let dt = reward::tick::<S>();
        Env {
            elapsed_seconds: self.elapsed_seconds.sum(dt),
            success_hold_seconds: if self.block.distance(self.goal).is_at_most(
                S::fraction(7, 100),
            ) {
                self.success_hold_seconds.sum(dt)
            } else {
                num::zero()
            },
            ..self
        }
    }

    /// The environment after one physics step towards the joint angles `target`.
    pub open spec fn ticked(self, target: [S; 2]) -> Self {
        self.arm_moved(target).block_drifted().block_pushed(state::tip_at(self.q)).clocked()
    }

    /// The environment after an action has been handed to its controller.
    pub open spec fn commanded(self, a: [S; 2]) -> Self {
        match self.config.action_mode {
            ActionMode::Position => {
                let ee = state::tip_at(self.q);
                let reach = S::fraction(4, 100);
                Env {
                    controller_target: joints_for(
                        self.q@[0],
                        Vec2 {
                            x: ee.x.sum(reach.product(a@[0])),
                            y: ee.y.sum(reach.product(a@[1])),
                        },
                    ),
                    ..self
                }
            },
            ActionMode::JointDelta => Env {
                controller_target: [
                    self.q@[0].sum(S::fraction(15, 100).product(a@[0])),
                    limited(
                        self.q@[1].sum(S::fraction(15, 100).product(a@[1])),
                        elbow_limit(),
                    ),
                ],
                ..self
            },
            ActionMode::Absolute => Env {
                controller_target: [
                    self.q@[0].sum(
                        state::wrapped(num::half_turn::<S>().product(a@[0]).difference(self.q@[0])),
                    ),
                    elbow_limit::<S>().product(a@[1]),
                ],
                ..self
            },
            ActionMode::Velocity => Env {
                controller_velocity: [
                    S::fraction(9, 10).product(a@[0]),
                    S::fraction(9, 10).product(a@[1]),
                ],
                ..self
            },
            ActionMode::Acceleration => Env {
                controller_velocity: [
                    self.accelerated(a, 0),
                    self.accelerated(a, 1),
                ],
                ..self
            },
        }
    }

    /// The commanded velocity of the joint `j` after an acceleration.
    pub open spec fn accelerated(self, a: [S; 2], j: int) -> S {
        limited(
            self.controller_velocity@[j].sum(
                S::counted(3).product(a@[j]).product(reward::tick()).product(S::counted(4)),
            ),
            S::fraction(3, 2),
        )
    }

    /// Whether the controller follows a velocity.
    pub open spec fn velocity_controlled(self) -> bool {
        self.config.action_mode is Velocity || self.config.action_mode is Acceleration
    }

    /// The environment with the controller's target moved along its velocity.
    pub open spec fn targeted(self) -> Self {
        if self.velocity_controlled() {
            Env {
                controller_target: [
                    self.q@[0].sum(self.controller_velocity@[0].quotient(S::counted(20))),
                    self.q@[1].sum(self.controller_velocity@[1].quotient(S::counted(20))),
                ],
                ..self
            }
        } else {
            self
        }
    }

    /// The environment after `n` physics steps under its controller.
    pub open spec fn driven(self, n: nat) -> Self
        decreases n,
    {
        if n == 0 {
            self
        } else {
            let e = self.driven((n - 1) as nat).targeted();
            e.ticked(e.controller_target)
        }
    }

    /// The environment after one decision.
    #[verifier::opaque]
    pub open spec fn decided(self, action: [S; 2]) -> Self {
        let e = self.commanded(bounded(action)).driven(4);
        let decision = S::counted(4).product(reward::tick());
        Env {
            t: e.t.wrapping_add(1),
            success_hold: e.success_hold_seconds.quotient(decision).floored().as_u32(),
            ..e
        }
    }

    /// What a decision leads to.
    #[verifier::opaque]
    pub open spec fn outcome(self, action: [S; 2]) -> StepResult<S> {
        reward::verdict(
            self.state(),
            self.decided(action).state(),
            bounded(action),
            self.config,
        )
    }

    /// What a policy sees through a layout of the groups `keys`.
    pub open spec fn seen(self, keys: Seq<observation::ObservationKey>) -> Seq<S> {
        state::observed(
            self.state(),
            keys,
            reward::episode_seconds(self.config),
            keys.len(),
        )
    }
}

/// An action with each component brought within `-1 ..= 1`.
pub open spec fn bounded<S: Scalar>(action: [S; 2]) -> [S; 2] {
    [limited(action@[0], num::one()), limited(action@[1], num::one())]
}

/// `x` brought within `-limit ..= limit`.
fn limit_to<S: Scalar>(x: S, limit: S) -> (r: S)
    ensures
        num::repeatable::<S>() ==> r == limited(x, limit),
{
    num::clamp(x, limit.neg(), limit)
}

/// The point at the angle `a` and the distance `r` from the base of the arm.
fn point_around<S: Scalar>(r: S, a: S) -> (p: Vec2<S>)
    ensures
        num::repeatable::<S>() ==> p == around_base(r, a),
{
    let base: Vec2<S> = state::arm_base();
    Vec2 { x: base.x.plus(r.times(a.cos())), y: base.y.plus(r.times(a.sin())) }
}

/// The joint angles that bring the tip to `p`, the first one within one turn of `q0`.
fn solve_joints<S: Scalar>(q0: S, p: Vec2<S>) -> (r: [S; 2])
    ensures
        num::repeatable::<S>() ==> r == joints_for(q0, p),
{
    let upper: S = S::from_ratio(105, 100);
    let lower: S = S::from_ratio(95, 100);
    let x: S = p.x.plus(S::from_ratio(115, 100));
    let y: S = p.y.plus(S::from_ratio(55, 100));
    let c: S = limit_to(
        x.times(x).plus(y.times(y)).minus(upper.times(upper)).minus(lower.times(lower)).over(
            S::from_count(2).times(upper).times(lower),
        ),
        S::from_count(1),
    );
    let q2: S = limit_to(c.acos(), S::from_ratio(275, 100));
    let q1: S = y.atan2(x).minus(
        lower.times(q2.sin()).atan2(upper.plus(lower.times(q2.cos()))),
    );
    [q0.plus(wrap(q1.minus(q0))), q2]
}

impl<S: Scalar> Env<S> {
    /// The first episode that `seed` leads to, in the default configuration.
    pub fn new(seed: u64) -> (r: Self)
        ensures
            r.config == reward::default_config(),
            num::repeatable::<S>() ==> r == first_episode::<S>(seed, reward::default_config()),
    {
        Self::with_config(seed, EnvConfig::default())
    }

    /// The first episode that `seed` leads to.
    pub fn with_config(seed: u64, config: EnvConfig) -> (r: Self)
        requires
            config.max_decisions > 0,
        ensures
            r.config == config,
            num::repeatable::<S>() ==> r == first_episode::<S>(seed, config),
    {
        let zero: S = S::from_count(0);
        let mut e: Self = Env {
            q: [zero, zero],
            qv: [zero, zero],
            block: Vec2 { x: zero, y: zero },
            goal: Vec2 { x: zero, y: zero },
            block_v: Vec2 { x: zero, y: zero },
            t: 0,
            seed,
            success_hold: 0,
            block_angle: zero,
            block_angular_velocity: zero,
            controller_target: [zero, zero],
            controller_velocity: [zero, zero],
            elapsed_seconds: zero,
            success_hold_seconds: zero,
            config,
        };
        e.reset();
        e
    }

    /// The configuration.
    pub fn config(&self) -> (r: EnvConfig)
        ensures
            r == self.config,
    {
        self.config
    }

    /// The state of the episode.
    pub fn full_state(&self) -> (r: FullState<S>)
        ensures
            r == self.state(),
    {
        FullState {
            q: self.q,
            qv: self.qv,
            block: self.block,
            block_v: self.block_v,
            goal: self.goal,
            block_angle: self.block_angle,
            block_angular_velocity: self.block_angular_velocity,
            controller_target: self.controller_target,
            controller_velocity: self.controller_velocity,
            elapsed_seconds: self.elapsed_seconds,
            success_hold_seconds: self.success_hold_seconds,
        }
    }

    /// Puts the episode into the state `s`.
    pub fn set_state(&mut self, s: FullState<S>)
        ensures
            final(self).state() == s,
            final(self).seed == old(self).seed,
            final(self).config == old(self).config,
            num::repeatable::<S>() ==> *final(self) == old(self).at_state(s),
    {
        self.q = s.q;
        self.qv = s.qv;
        self.block = s.block;
        self.block_v = s.block_v;
        self.goal = s.goal;
        self.block_angle = s.block_angle;
        self.block_angular_velocity = s.block_angular_velocity;
        self.controller_target = s.controller_target;
        self.controller_velocity = s.controller_velocity;
        self.elapsed_seconds = s.elapsed_seconds;
        self.success_hold_seconds = s.success_hold_seconds;
        self.t = s.elapsed_seconds.over(S::from_count(4).times(dt())).round().to_u32();
        self.success_hold = s.success_hold_seconds.over(
            S::from_count(4).times(dt()),
        ).floor().to_u32();
    }

    /// Draws a number between zero and one from the seed.
    fn rng(&mut self) -> (r: S)
        ensures
            *final(self) == (Env { seed: next_seed(old(self).seed), ..*old(self) }),
            num::repeatable::<S>() ==> r == seed_unit::<S>(next_seed(old(self).seed)),
    {
        self.seed = self.seed.wrapping_mul(6364136223846793005).wrapping_add(1);
        S::from_count(self.seed >> 40).over(S::from_count(16777216))
    }

    /// Starts the next episode.
    pub fn reset(&mut self)
        ensures
            final(self).config == old(self).config,
            num::repeatable::<S>() ==> *final(self) == old(self).restarted(),
    {
        let a: S = self.rng().times(S::from_count(2)).times(num::pi());
        let r: S = S::from_ratio(95, 100).plus(self.rng().times(S::from_ratio(1, 4)));
        let delta: S = S::from_ratio(1, 2).plus(self.rng().times(S::from_ratio(12, 100)));
        let zero: S = S::from_count(0);
        self.block = point_around(r, a);
        self.goal = point_around(r, a.plus(delta));
        let ee: Vec2<S> = point_around(r, a.minus(S::from_ratio(2, 10)));
        self.q = [zero, zero];
        self.q = self.ik(ee);
        self.qv = [zero, zero];
        self.block_v = Vec2 { x: zero, y: zero };
        self.t = 0;
        self.success_hold = 0;
        self.elapsed_seconds = zero;
        self.success_hold_seconds = zero;
        self.block_angle = zero;
        self.block_angular_velocity = zero;
        self.controller_target = self.q;
        self.controller_velocity = [zero, zero];
    }

    /// The joint angles that bring the tip to `p`.
    pub fn ik(&self, p: Vec2<S>) -> (r: [S; 2])
        ensures
            num::repeatable::<S>() ==> r == joints_for(self.q@[0], p),
    {
        solve_joints(self.q[0], p)
    }

    /// The position of the arm's tip.
    pub fn end_effector(&self) -> (r: Vec2<S>)
        ensures
            num::repeatable::<S>() ==> r == state::tip_at(self.q),
    {
        fk(self.q)
    }

    /// The length of an observation in the default layout.
    pub fn obs_dim(&self) -> (r: usize)
        ensures
            r == observation::width(observation::default_keys(), observation::default_keys().len()),
            r == 16,
    {
        let layout: ObsLayout = ObsLayout::default();
        layout.dim
    }

    /// Writes an observation in the default layout to `out`.
    pub fn observe(&self, out: &mut [S])
        requires
            old(out)@.len() == 16,
        ensures
            final(out)@.len() == 16,
            num::repeatable::<S>() ==> final(out)@ == self.seen(observation::default_keys()),
    {
        self.observe_layout(&ObsLayout::default(), out);
    }

    /// Writes an observation in the given layout to `out`.
    pub fn observe_layout(&self, layout: &ObsLayout, out: &mut [S])
        requires
            layout.wf(),
            old(out)@.len() == layout.dim,
        ensures
            final(out)@.len() == old(out)@.len(),
            num::repeatable::<S>() ==> final(out)@ == self.seen(layout.keys@),
    {
        encode_observation(&self.full_state(), layout, max_seconds(&self.config), out);
    }

    /// An observation in the default layout.
    pub fn obs(&self) -> (r: [S; 16])
        ensures
            num::repeatable::<S>() ==> r@ == self.seen(observation::default_keys()),
    {
        let mut v: Vec<S> = num::repeat(S::from_count(0), 16);
        self.observe(v.as_mut_slice());
        let r: [S; 16] = [
            v[0],
            v[1],
            v[2],
            v[3],
            v[4],
            v[5],
            v[6],
            v[7],
            v[8],
            v[9],
            v[10],
            v[11],
            v[12],
            v[13],
            v[14],
            v[15],
        ];
        assert(r@ =~= v@);
        r
    }

    /// Moves the joints towards `target` for one physics step.
    fn move_arm(&mut self, target: [S; 2])
        ensures
            final(self).config == old(self).config,
            final(self).goal == old(self).goal,
            final(self).seed == old(self).seed,
            final(self).t == old(self).t,
            num::repeatable::<S>() ==> *final(self) == old(self).arm_moved(target),
    {
        let v0: S = limit_to(
            wrap(target[0].minus(self.q[0])).times(S::from_count(20)),
            S::from_ratio(28, 10),
        );
        let v1: S = limit_to(
            target[1].minus(self.q[1]).times(S::from_count(20)),
            S::from_ratio(28, 10),
        );
        self.qv = [v0, v1];
        self.q = [
            self.q[0].plus(v0.times(dt())),
            limit_to(self.q[1].plus(v1.times(dt())), S::from_ratio(275, 100)),
        ];
    }

    /// Moves the block freely for one physics step.
    fn drift_block(&mut self)
        ensures
            final(self).config == old(self).config,
            final(self).goal == old(self).goal,
            final(self).seed == old(self).seed,
            final(self).t == old(self).t,
            num::repeatable::<S>() ==> *final(self) == old(self).block_drifted(),
    {
        let left: S = S::from_ratio(82, 100);
        self.block = Vec2 {
            x: self.block.x.plus(self.block_v.x.times(dt())),
            y: self.block.y.plus(self.block_v.y.times(dt())),
        };
        self.block_angle = self.block_angle.plus(self.block_angular_velocity.times(dt()));
        self.block_v = Vec2 { x: self.block_v.x.times(left), y: self.block_v.y.times(left) };
        self.block_angular_velocity = self.block_angular_velocity.times(left);
    }

    /// Lets the tip, which came from `from`, push the block.
    fn push_block(&mut self, from: Vec2<S>)
        ensures
            final(self).config == old(self).config,
            final(self).goal == old(self).goal,
            final(self).seed == old(self).seed,
            final(self).t == old(self).t,
            num::repeatable::<S>() ==> *final(self) == old(self).block_pushed(from),
    {
        let ee: Vec2<S> = self.end_effector();
        let dx: S = self.block.x.minus(ee.x);
        let dy: S = self.block.y.minus(ee.y);
        let d: S = dx.times(dx).plus(dy.times(dy)).sqrt();
        let radius: S = S::from_ratio(11, 100);
        if d.less(radius) {
            let (nx, ny) = if S::from_ratio(1, 1000000).less(d) {
                (dx.over(d), dy.over(d))
            } else {
                (S::from_count(1), S::from_count(0))
            };
            let rx: S = ee.x.minus(from.x).over(dt()).minus(self.block_v.x);
            let ry: S = ee.y.minus(from.y).over(dt()).minus(self.block_v.y);
            let impulse: S = rx.times(nx).plus(ry.times(ny)).max(S::from_count(0));
            let slip: S = rx.times(ny.neg()).plus(ry.times(nx)).minus(
                self.block_angular_velocity.times(S::from_ratio(7, 100)),
            );
            let friction: S = num::clamp(
                slip,
                S::from_ratio(3, 10).neg().times(impulse),
                S::from_ratio(3, 10).times(impulse),
            );
            self.block = Vec2 {
                x: self.block.x.plus(nx.times(radius.minus(d))),
                y: self.block.y.plus(ny.times(radius.minus(d))),
            };
            self.block_v = Vec2 {
                x: self.block_v.x.plus(impulse.times(nx).minus(friction.times(ny))),
                y: self.block_v.y.plus(impulse.times(ny).plus(friction.times(nx))),
            };
            self.block_angular_velocity = self.block_angular_velocity.minus(
                friction.times(S::from_count(2)).over(S::from_ratio(7, 100)),
            );
        }
    }

    /// One step of a sixtieth of a second. The goal is read only for the clock of success.
    pub fn physics_step(&mut self, target: [S; 2])
        ensures
            final(self).config == old(self).config,
            final(self).goal == old(self).goal,
            final(self).seed == old(self).seed,
            final(self).t == old(self).t,
            num::repeatable::<S>() ==> *final(self) == old(self).ticked(target),
    {
        let from: Vec2<S> = self.end_effector();
        self.move_arm(target);
        self.drift_block();
        self.push_block(from);
        self.elapsed_seconds = self.elapsed_seconds.plus(dt());
        if self.block.dist(self.goal).at_most(S::from_ratio(7, 100)) {
            self.success_hold_seconds = self.success_hold_seconds.plus(dt());
        } else {
            self.success_hold_seconds = S::from_count(0);
        }
    }

    /// Hands an action to the controller.
    fn command(&mut self, a: [S; 2])
        ensures
            final(self).config == old(self).config,
            final(self).goal == old(self).goal,
            final(self).seed == old(self).seed,
            final(self).t == old(self).t,
            num::repeatable::<S>() ==> *final(self) == old(self).commanded(a),
    {
        match self.config.action_mode {
            ActionMode::Position => {
                let ee: Vec2<S> = self.end_effector();
                let reach: S = S::from_ratio(4, 100);
                self.controller_target = self.ik(
                    Vec2 {
                        x: ee.x.plus(reach.times(a[0])),
                        y: ee.y.plus(reach.times(a[1])),
                    },
                );
            },
            ActionMode::JointDelta => {
                self.controller_target = [
                    self.q[0].plus(S::from_ratio(15, 100).times(a[0])),
                    limit_to(
                        self.q[1].plus(S::from_ratio(15, 100).times(a[1])),
                        S::from_ratio(275, 100),
                    ),
                ];
            },
            ActionMode::Absolute => {
                self.controller_target = [
                    self.q[0].plus(wrap(num::pi::<S>().times(a[0]).minus(self.q[0]))),
                    S::from_ratio(275, 100).times(a[1]),
                ];
            },
            ActionMode::Velocity => {
                self.controller_velocity = [
                    S::from_ratio(9, 10).times(a[0]),
                    S::from_ratio(9, 10).times(a[1]),
                ];
            },
            ActionMode::Acceleration => {
                let gain: S = S::from_count(3);
                let four: S = S::from_count(4);
                self.controller_velocity = [
                    limit_to(
                        self.controller_velocity[0].plus(gain.times(a[0]).times(dt()).times(four)),
                        S::from_ratio(3, 2),
                    ),
                    limit_to(
                        self.controller_velocity[1].plus(gain.times(a[1]).times(dt()).times(four)),
                        S::from_ratio(3, 2),
                    ),
                ];
            },
        }
    }

    /// Takes one decision and says what it led to.
    pub fn step_result(&mut self, action: [S; 2]) -> (r: StepResult<S>)
        ensures
            final(self).config == old(self).config,
            final(self).goal == old(self).goal,
            final(self).seed == old(self).seed,
            final(self).t == old(self).t.wrapping_add(1),
            !(r.terminated && r.truncated),
            r.success ==> r.terminated,
            num::repeatable::<S>() ==> *final(self) == old(self).decided(action),
            num::repeatable::<S>() ==> r == old(self).outcome(action),
    {
        reveal(Env::decided);
        reveal(Env::outcome);
        let one: S = S::from_count(1);
        let a: [S; 2] = [limit_to(action[0], one), limit_to(action[1], one)];
        let prev: FullState<S> = self.full_state();
        self.command(a);
        let ghost start = *self;
        for i in 0..4u32
            invariant
                self.config == start.config,
                self.goal == start.goal,
                self.seed == start.seed,
                self.t == start.t,
                num::repeatable::<S>() ==> *self == start.driven(i as nat),
        {
            let follows: bool = match self.config.action_mode {
                ActionMode::Velocity | ActionMode::Acceleration => true,
                _ => false,
            };
            if follows {
                let twenty: S = S::from_count(20);
                self.controller_target = [
                    self.q[0].plus(self.controller_velocity[0].over(twenty)),
                    self.q[1].plus(self.controller_velocity[1].over(twenty)),
                ];
            }
            let target: [S; 2] = self.controller_target;
            self.physics_step(target);
        }
        self.t = self.t.wrapping_add(1);
        self.success_hold = self.success_hold_seconds.over(
            S::from_count(4).times(dt()),
        ).floor().to_u32();
        let config: EnvConfig = self.config;
        evaluate_transition(&prev, &self.full_state(), a, &config)
    }

    /// Takes one decision and returns its reward and whether the episode is over.
    pub fn step(&mut self, a: [S; 2]) -> (r: (S, bool))
        ensures
            final(self).config == old(self).config,
            final(self).goal == old(self).goal,
            final(self).seed == old(self).seed,
            final(self).t == old(self).t.wrapping_add(1),
            num::repeatable::<S>() ==> *final(self) == old(self).decided(a),
            num::repeatable::<S>() ==> r == (
                old(self).outcome(a).reward,
                old(self).outcome(a).terminated || old(self).outcome(a).truncated,
            ),
    {
        let r: StepResult<S> = self.step_result(a);
        (r.reward, r.terminated || r.truncated)
    }
}

impl<S: Scalar> Env<S> {
    /// Everything of the environment that its course depends on, whatever the goal is.
    pub open spec fn motion(self) -> Self {
        Env {
            goal: state::origin(),
            success_hold: 0,
            success_hold_seconds: num::zero(),
            ..self
        }
    }
}

/// The goal does not affect the dynamics: after a decision, environments that differ only in the
/// goal and in the clocks of success still do.
pub proof fn lemma_goal_does_not_affect_dynamics<S: Scalar>(e: Env<S>, f: Env<S>, action: [S; 2])
    requires
        e.motion() == f.motion(),
    ensures
        e.decided(action).motion() == f.decided(action).motion(),
{
    reveal(Env::decided);
    let a = bounded(action);
    let n: nat = 4;
    lemma_driven_ignores_goal(e.commanded(a), f.commanded(a), n);
}

/// What holds of a decision holds of the physics steps that it consists of.
pub proof fn lemma_driven_ignores_goal<S: Scalar>(e: Env<S>, f: Env<S>, n: nat)
    requires
        e.motion() == f.motion(),
    ensures
        e.driven(n).motion() == f.driven(n).motion(),
    decreases n,
{
    if n > 0 {
        lemma_driven_ignores_goal(e, f, (n - 1) as nat);
    }
}

/// The course of an episode depends on nothing but its state and the configuration: environments
/// that agree in these agree in what a decision leads to, and in the state after it.
pub proof fn lemma_state_determines_course<S: Scalar>(e: Env<S>, f: Env<S>, action: [S; 2])
    requires
        e.state() == f.state(),
        e.config == f.config,
    ensures
        e.outcome(action) == f.outcome(action),
        e.decided(action).state() == f.decided(action).state(),
        e.decided(action).config == f.decided(action).config,
{
    reveal(Env::decided);
    reveal(Env::outcome);
    let a = bounded(action);
    let n: nat = 4;
    lemma_state_determines_physics(e.commanded(a), f.commanded(a), n);
}

/// What holds of a decision holds of the physics steps that it consists of.
pub proof fn lemma_state_determines_physics<S: Scalar>(e: Env<S>, f: Env<S>, n: nat)
    requires
        e.state() == f.state(),
        e.config == f.config,
    ensures
        e.driven(n).state() == f.driven(n).state(),
        e.driven(n).config == f.driven(n).config,
    decreases n,
{
    if n > 0 {
        lemma_state_determines_physics(e, f, (n - 1) as nat);
    }
}

/// An episode resumes from its encoded state: an environment of the same configuration that is
/// put into the decoded state goes on as the first one does.
pub proof fn lemma_encoded_state_resumes<S: Scalar>(e: Env<S>, f: Env<S>, action: [S; 2])
    requires
        e.config == f.config,
    ensures
        ({
            let g = f.at_state(state::decoded(state::encoded(e.state())));
            &&& g.outcome(action) == e.outcome(action)
            &&& g.decided(action).state() == e.decided(action).state()
        }),
{
    state::lemma_decode_of_encode(e.state());
    let g = f.at_state(e.state());
    assert(g.state() == e.state());
    lemma_state_determines_course(g, e, action);
}

/// The episode that a reset starts depends on nothing but the seed and the configuration.
pub proof fn lemma_seed_determines_start<S: Scalar>(e: Env<S>, f: Env<S>)
    requires
        e.seed == f.seed,
        e.config == f.config,
    ensures
        e.restarted() == f.restarted(),
{
}

/// A success ends the episode, and an episode that ends by itself is not cut short as well.
pub proof fn lemma_ends_are_exclusive<S: Scalar>(e: Env<S>, action: [S; 2])
    ensures
        e.outcome(action).success ==> e.outcome(action).terminated,
        !(e.outcome(action).terminated && e.outcome(action).truncated),
{
    reveal(Env::outcome);
}

/// One decision is four physics steps: it moves the clock by four ticks, counts as one decision, and
/// leaves the goal, the seed and the configuration as they are.
pub proof fn lemma_decision_is_four_ticks<S: Scalar>(e: Env<S>, action: [S; 2])
    ensures
        e.decided(action).state() == e.commanded(bounded(action)).driven(4).state(),
        e.decided(action).elapsed_seconds == e.elapsed_seconds.sum(reward::tick()).sum(
            reward::tick(),
        ).sum(reward::tick()).sum(reward::tick()),
        e.decided(action).t == e.t.wrapping_add(1),
        e.decided(action).goal == e.goal,
        e.decided(action).seed == e.seed,
        e.decided(action).config == e.config,
{
    reveal(Env::decided);
    reveal_with_fuel(Env::driven, 5);
}

/// What an action leads to depends on nothing but what it is when each component is brought within
/// `-1 ..= 1`.
pub proof fn lemma_equally_bounded_actions_act_alike<S: Scalar>(
    e: Env<S>,
    action: [S; 2],
    other: [S; 2],
)
    requires
        bounded(action) == bounded(other),
    ensures
        e.decided(action) == e.decided(other),
        e.outcome(action) == e.outcome(other),
{
    reveal(Env::decided);
    reveal(Env::outcome);
}

/// A number that was brought within `-1 ..= 1` stays where it is when it is brought there again,
/// as long as one is not below minus one.
proof fn lemma_limited_once<S: Scalar>(x: S)
    requires
        !num::one::<S>().is_less(num::one::<S>().negated()),
    ensures
        limited(limited(x, num::one()), num::one()) == limited(x, num::one()),
{
}

/// An action acts as what it is when each component is brought within `-1 ..= 1`: both lead to the
/// same state, and to the same result. Of the numbers it takes only that one is not below minus one.
pub proof fn lemma_actions_act_bounded<S: Scalar>(e: Env<S>, action: [S; 2])
    requires
        !num::one::<S>().is_less(num::one::<S>().negated()),
    ensures
        bounded(bounded(action)) == bounded(action),
        e.decided(bounded(action)) == e.decided(action),
        e.outcome(bounded(action)) == e.outcome(action),
{
    lemma_limited_once(action@[0]);
    lemma_limited_once(action@[1]);
    lemma_equally_bounded_actions_act_alike(e, bounded(action), action);
}

} // verus!
