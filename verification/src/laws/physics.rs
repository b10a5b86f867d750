//! How the arm and the block move.
use crate::env::reward;
use crate::env::simulator::{self, Env};
use crate::env::state::{self, Vec2};
use crate::laws::algebra;
use crate::laws::exact::{self, exact};
use crate::laws::kinematics;
use crate::num::{self, Meaning, Scalar};
use vstd::prelude::*;

verus! {

/// A joint takes up a velocity of twenty times its error, up to 2.8: it has the sign of the error, and
/// over one physics step it covers no more than a third of the error.
proof fn lemma_joint_velocity<S: Scalar>(v: spec_fn(S) -> real, error: S)
    requires
        exact(v),
    ensures
        ({
            let w = v(simulator::joint_velocity(error));
            let e = v(error);
            let step = w * exact::part(1, 60);
            let top = exact::part(28, 10);
            &&& 0real - top <= w <= top
            &&& w == exact::between(e * 20real, 0real - top, top)
            &&& step * 60real == w
            &&& e > 0real ==> 0real < step && 3real * step <= e
            &&& e < 0real ==> 0real > step && 3real * step >= e
            &&& e == 0real ==> step == 0real
        }),
{
    let w = v(simulator::joint_velocity(error));
    let t = exact::part(1, 60);
    let top = S::fraction(28, 10);
    assert(v(S::counted(20)) == 20real);
    assert(v(error.product(S::counted(20))) == v(error) * 20real);
    assert(v(top) == exact::part(28, 10));
    exact::lemma_clamped_reads(v, error.product(S::counted(20)), top.negated(), top);
    algebra::lemma_divided(28real, 10real);
    algebra::lemma_divided(1real, 60real);
    algebra::lemma_distributes(w, t, 60real);
    algebra::lemma_units(w);
    let step = w * t;
    assert(step * 60real == w);
}

/// One physics step moves the elbow towards its target and not beyond it, and moves the shoulder the
/// shorter way round, by at most a third of what is missing. Neither joint is faster than 2.8, and
/// nothing but the joints moves.
pub proof fn law_joints_approach_their_targets<S: Scalar>(
    v: spec_fn(S) -> real,
    e: Env<S>,
    target: [S; 2],
)
    requires
        exact(v),
    ensures
        ({
            let f = e.arm_moved(target);
            let stop = exact::part(275, 100);
            let top = exact::part(28, 10);
            let missing = v(state::wrapped(target@[0].difference(e.q@[0])));
            let turn = v(f.q@[0]) - v(e.q@[0]);
            &&& f == (Env { q: f.q, qv: f.qv, ..e })
            &&& 0real - top <= v(f.qv@[0]) <= top
            &&& 0real - top <= v(f.qv@[1]) <= top
            &&& v(f.qv@[0]) == exact::between(missing * 20real, 0real - top, top)
            &&& v(f.qv@[1]) == exact::between(
                (v(target@[1]) - v(e.q@[1])) * 20real,
                0real - top,
                top,
            )
            &&& turn * 60real == v(f.qv@[0])
            &&& missing > 0real ==> 0real < turn && 3real * turn <= missing
            &&& missing < 0real ==> 0real > turn && 3real * turn >= missing
            &&& 0real - stop <= v(f.q@[1]) <= stop
            &&& 0real - stop <= v(e.q@[1]) <= v(target@[1]) <= stop ==> v(e.q@[1]) <= v(f.q@[1])
                <= v(target@[1])
            &&& 0real - stop <= v(target@[1]) <= v(e.q@[1]) <= stop ==> v(target@[1]) <= v(
                f.q@[1],
            ) <= v(e.q@[1])
            &&& 0real - stop <= v(e.q@[1]) <= stop && 0real - stop <= v(target@[1]) <= stop ==> (v(
                f.q@[1],
            ) - v(e.q@[1])) * 60real == v(f.qv@[1])
        }),
{
    lemma_joint_velocity(v, state::wrapped(target@[0].difference(e.q@[0])));
    lemma_joint_velocity(v, target@[1].difference(e.q@[1]));
    let f = e.arm_moved(target);
    let stop = simulator::elbow_limit::<S>();
    assert(v(stop) == exact::part(275, 100));
    assert(v(reward::tick::<S>()) == exact::part(1, 60));
    exact::lemma_clamped_reads(
        v,
        e.q@[1].sum(f.qv@[1].product(reward::tick())),
        stop.negated(),
        stop,
    );
    algebra::lemma_divided(275real, 100real);
    let t = exact::part(1, 60);
    assert(v(f.q@[0]) == v(e.q@[0]) + v(f.qv@[0]) * t);
    let step = v(f.qv@[1]) * t;
    assert(v(f.q@[1]) == exact::between(
        v(e.q@[1]) + step,
        0real - exact::part(275, 100),
        exact::part(275, 100),
    ));
    assert(step * 60real == v(f.qv@[1]));
}

/// Under velocity control each joint's target lies a twentieth of the commanded velocity ahead of the
/// joint, so that the elbow moves at the commanded velocity.
pub proof fn law_velocities_are_followed<S: Scalar>(v: spec_fn(S) -> real, e: Env<S>)
    requires
        exact(v),
        e.velocity_controlled(),
    ensures
        ({
            let f = e.targeted();
            let top = exact::part(28, 10);
            &&& f == (Env { controller_target: f.controller_target, ..e })
            &&& (v(f.controller_target@[0]) - v(e.q@[0])) * 20real == v(e.controller_velocity@[0])
            &&& (v(f.controller_target@[1]) - v(e.q@[1])) * 20real == v(e.controller_velocity@[1])
            &&& v(f.arm_moved(f.controller_target).qv@[1]) == exact::between(
                v(e.controller_velocity@[1]),
                0real - top,
                top,
            )
        }),
{
    algebra::lemma_divided(v(e.controller_velocity@[0]), 20real);
    algebra::lemma_divided(v(e.controller_velocity@[1]), 20real);
    let f = e.targeted();
    law_joints_approach_their_targets(v, f, f.controller_target);
}

/// A block that nothing touches covers a sixtieth of its velocity in a physics step, and keeps 0.82 of
/// it; the same holds of its angle. Nothing but the block moves.
pub proof fn law_blocks_drift<S: Scalar>(v: spec_fn(S) -> real, e: Env<S>)
    requires
        exact(v),
    ensures
        ({
            let f = e.block_drifted();
            let keep = exact::part(82, 100);
            &&& f == (Env {
                block: f.block,
                block_v: f.block_v,
                block_angle: f.block_angle,
                block_angular_velocity: f.block_angular_velocity,
                ..e
            })
            &&& (v(f.block.x) - v(e.block.x)) * 60real == v(e.block_v.x)
            &&& (v(f.block.y) - v(e.block.y)) * 60real == v(e.block_v.y)
            &&& (v(f.block_angle) - v(e.block_angle)) * 60real == v(e.block_angular_velocity)
            &&& v(f.block_v.x) == v(e.block_v.x) * keep
            &&& v(f.block_v.y) == v(e.block_v.y) * keep
            &&& v(f.block_angular_velocity) == v(e.block_angular_velocity) * keep
        }),
{
    lemma_sixtieth(v(e.block_v.x));
    lemma_sixtieth(v(e.block_v.y));
    lemma_sixtieth(v(e.block_angular_velocity));
    assert(v(reward::tick::<S>()) == exact::part(1, 60));
}

/// Sixty sixtieths.
proof fn lemma_sixtieth(x: real)
    ensures
        (x * exact::part(1, 60)) * 60real == x,
        x / exact::part(1, 60) == x * 60real,
        exact::part(1, 60) > 0real,
{
    let t = exact::part(1, 60);
    algebra::lemma_divided(1real, 60real);
    algebra::lemma_distributes(x, t, 60real);
    algebra::lemma_distributes(x, 60real, t);
    algebra::lemma_signs(60real, t);
    algebra::lemma_units(x);
    algebra::lemma_quotient(x, t, x * 60real);
}

/// A block that the tip does not touch is not pushed: it is touched where it is nearer than 0.11.
pub proof fn law_pushes_need_contact<S: Scalar>(v: spec_fn(S) -> real, e: Env<S>, from: Vec2<S>)
    requires
        exact(v),
        ({
            let dx = v(e.block.x) - v(state::tip_at(e.q).x);
            let dy = v(e.block.y) - v(state::tip_at(e.q).y);
            dx * dx + dy * dy >= exact::part(11, 100) * exact::part(11, 100)
        }),
    ensures
        e.block_pushed(from) == e,
{
    let ee = state::tip_at(e.q);
    let dx = e.block.x.difference(ee.x);
    let dy = e.block.y.difference(ee.y);
    let d = v(dx.product(dx).sum(dy.product(dy)).root());
    let radius = exact::part(11, 100);
    algebra::lemma_divided(11real, 100real);
    algebra::lemma_not_negative(v(dx));
    algebra::lemma_not_negative(v(dy));
    if d < radius {
        algebra::lemma_scaled_order(d, radius, radius);
        if d > 0real {
            algebra::lemma_scaled_order(d, radius, d);
            algebra::lemma_scaled_order(radius, d, d);
            algebra::lemma_scaled_order(radius, d, radius);
            algebra::lemma_signs(d, radius);
        } else {
            algebra::lemma_units(d);
            algebra::lemma_positive(radius, radius);
        }
    }
}

/// The reading of where the tip points at the block from: the direction from the tip to the block,
/// which is `d` away.
pub open spec fn heading(offset: real, d: real) -> real {
    offset / d
}

/// A block that the tip touches is pushed out along the line from the tip to it until it is 0.11
/// away. Along that line it takes up what the tip is faster than it, and nothing where the tip is
/// slower, so that it is never pulled; across that line friction acts, by at most 0.3 of the push,
/// towards what the tip slips along it, and turns the block by two over 0.07 of that, the other way
/// round. Nothing but the block moves.
pub proof fn law_pushes<S: Scalar>(v: spec_fn(S) -> real, e: Env<S>, from: Vec2<S>)
    requires
        exact(v),
        ({
            let ee = state::tip_at(e.q);
            let dx = e.block.x.difference(ee.x);
            let dy = e.block.y.difference(ee.y);
            let d = v(dx.product(dx).sum(dy.product(dy)).root());
            exact::part(1, 1000000) < d < exact::part(11, 100)
        }),
    ensures
        ({
            let ee = state::tip_at(e.q);
            let f = e.block_pushed(from);
            let radius = exact::part(11, 100);
            let dx = v(e.block.x) - v(ee.x);
            let dy = v(e.block.y) - v(ee.y);
            let ox = v(f.block.x) - v(ee.x);
            let oy = v(f.block.y) - v(ee.y);
            let d = v(
                e.block.x.difference(ee.x).product(e.block.x.difference(ee.x)).sum(
                    e.block.y.difference(ee.y).product(e.block.y.difference(ee.y)),
                ).root(),
            );
            let nx = heading(dx, d);
            let ny = heading(dy, d);
            let gx = v(f.block_v.x) - v(e.block_v.x);
            let gy = v(f.block_v.y) - v(e.block_v.y);
            let rx = (v(ee.x) - v(from.x)) * 60real - v(e.block_v.x);
            let ry = (v(ee.y) - v(from.y)) * 60real - v(e.block_v.y);
            let spin = v(e.block_angular_velocity);
            let push = gx * nx + gy * ny;
            let drag = gy * nx - gx * ny;
            let grip = exact::part(3, 10) * push;
            &&& f == (Env {
                block: f.block,
                block_v: f.block_v,
                block_angular_velocity: f.block_angular_velocity,
                ..e
            })
            &&& ox * ox + oy * oy == radius * radius
            &&& ox == nx * radius
            &&& oy == ny * radius
            &&& push == exact::most(rx * nx + ry * ny, 0real)
            &&& drag == exact::between(
                ry * nx - rx * ny - spin * exact::part(7, 100),
                0real - grip,
                grip,
            )
            &&& (v(f.block_angular_velocity) - spin) * exact::part(7, 100) == 0real - 2real * drag
        }),
{
    let ee = state::tip_at(e.q);
    let f = e.block_pushed(from);
    let dx = e.block.x.difference(ee.x);
    let dy = e.block.y.difference(ee.y);
    let root = dx.product(dx).sum(dy.product(dy)).root();
    let d = v(root);
    let radius = exact::part(11, 100);
    algebra::lemma_divided(11real, 100real);
    algebra::lemma_divided(1real, 1000000real);
    assert(v(S::fraction(11, 100)) == radius);
    let nx = dx.quotient(root);
    let ny = dy.quotient(root);
    let p = v(nx);
    let q = v(ny);
    algebra::lemma_divided(v(dx), d);
    algebra::lemma_divided(v(dy), d);
    assert(p * d == v(dx));
    assert(q * d == v(dy));
    algebra::lemma_not_negative(v(dx));
    algebra::lemma_not_negative(v(dy));
    assert(d * d == v(dx) * v(dx) + v(dy) * v(dy));
    // The direction has the length one.
    algebra::lemma_regroup(p, d, p, d);
    algebra::lemma_regroup(q, d, q, d);
    algebra::lemma_distributes(p * p, q * q, d * d);
    algebra::lemma_positive(d, d);
    algebra::lemma_quotient(d * d, d * d, p * p + q * q);
    algebra::lemma_units(d * d);
    algebra::lemma_quotient(d * d, d * d, 1real);
    assert(p * p + q * q == 1real);
    // The block ends up on the circle around the tip.
    algebra::lemma_distributes(radius, d, p);
    algebra::lemma_distributes(radius, d, q);
    let ox = v(f.block.x) - v(ee.x);
    let oy = v(f.block.y) - v(ee.y);
    assert(ox == v(dx) + p * (radius - d));
    assert(oy == v(dy) + q * (radius - d));
    assert(ox == p * radius);
    assert(oy == q * radius);
    algebra::lemma_regroup(p, radius, p, radius);
    algebra::lemma_regroup(q, radius, q, radius);
    algebra::lemma_distributes(p * p, q * q, radius * radius);
    algebra::lemma_units(radius * radius);
    // The change of the velocity.
    let dt = reward::tick::<S>();
    assert(v(dt) == exact::part(1, 60));
    let rx = ee.x.difference(from.x).quotient(dt).difference(e.block_v.x);
    let ry = ee.y.difference(from.y).quotient(dt).difference(e.block_v.y);
    lemma_sixtieth(v(ee.x) - v(from.x));
    lemma_sixtieth(v(ee.y) - v(from.y));
    assert(v(rx) == (v(ee.x) - v(from.x)) * 60real - v(e.block_v.x));
    assert(v(ry) == (v(ee.y) - v(from.y)) * 60real - v(e.block_v.y));
    let impulse = rx.product(nx).sum(ry.product(ny)).larger(num::zero());
    let slip = rx.product(ny.negated()).sum(ry.product(nx)).difference(
        e.block_angular_velocity.product(S::fraction(7, 100)),
    );
    let friction = num::clamped(
        slip,
        S::fraction(3, 10).negated().product(impulse),
        S::fraction(3, 10).product(impulse),
    );
    let i = v(impulse);
    let t = v(friction);
    algebra::lemma_signs(v(rx), q);
    algebra::lemma_signs(exact::part(3, 10), i);
    let gx = v(f.block_v.x) - v(e.block_v.x);
    let gy = v(f.block_v.y) - v(e.block_v.y);
    assert(gx == i * p - t * q);
    assert(gy == i * q + t * p);
    lemma_components(i, t, p, q);
    let spin = v(e.block_angular_velocity);
    let arm = exact::part(7, 100);
    algebra::lemma_divided(7real, 100real);
    algebra::lemma_divided(t * 2real, arm);
    let change = (t * 2real) / arm;
    assert(v(f.block_angular_velocity) == spin - change);
    algebra::lemma_signs(change, arm);
    algebra::lemma_signs(t, 2real);
}

/// What a vector that is `i` along a direction of the length one and `t` across it is along it, and
/// across it.
proof fn lemma_components(i: real, t: real, p: real, q: real)
    requires
        p * p + q * q == 1real,
    ensures
        (i * p - t * q) * p + (i * q + t * p) * q == i,
        (i * q + t * p) * p - (i * p - t * q) * q == t,
{
    algebra::lemma_distributes(i * p, t * q, p);
    algebra::lemma_distributes(i * q, t * p, q);
    algebra::lemma_distributes(i * q, t * p, p);
    algebra::lemma_distributes(i * p, t * q, q);
    algebra::lemma_distributes(i, p, p);
    algebra::lemma_distributes(i, q, q);
    algebra::lemma_distributes(t, q, p);
    algebra::lemma_distributes(t, p, q);
    algebra::lemma_distributes(i, q, p);
    algebra::lemma_distributes(i, p, q);
    algebra::lemma_distributes(t, p, p);
    algebra::lemma_distributes(t, q, q);
    algebra::lemma_signs(p, q);
    algebra::lemma_distributes(p * p, q * q, i);
    algebra::lemma_distributes(p * p, q * q, t);
    algebra::lemma_units(i);
    algebra::lemma_units(t);
}

/// An arm that rests does not set a block in motion that rests: it may only push it out of the way.
pub proof fn law_resting_arms_do_not_push<S: Scalar>(
    v: spec_fn(S) -> real,
    e: Env<S>,
    target: [S; 2],
)
    requires
        exact(v),
        e.arm_moved(target).q == e.q,
        v(e.block_v.x) == 0real,
        v(e.block_v.y) == 0real,
        v(e.block_angular_velocity) == 0real,
    ensures
        v(e.ticked(target).block_v.x) == 0real,
        v(e.ticked(target).block_v.y) == 0real,
        v(e.ticked(target).block_angular_velocity) == 0real,
{
    let g = e.arm_moved(target).block_drifted();
    let from = state::tip_at(e.q);
    algebra::lemma_units(exact::part(82, 100));
    assert(v(simulator::damping::<S>()) == exact::part(82, 100));
    assert(v(g.block_v.x) == 0real);
    assert(v(g.block_v.y) == 0real);
    assert(v(g.block_angular_velocity) == 0real);
    let ee = state::tip_at(g.q);
    let dx = g.block.x.difference(ee.x);
    let dy = g.block.y.difference(ee.y);
    let d = dx.product(dx).sum(dy.product(dy)).root();
    if d.is_less(S::fraction(11, 100)) {
        let apart = S::fraction(1, 1000000).is_less(d);
        let nx = if apart {
            dx.quotient(d)
        } else {
            num::one()
        };
        let ny = if apart {
            dy.quotient(d)
        } else {
            num::zero()
        };
        let dt = reward::tick::<S>();
        assert(v(dt) == exact::part(1, 60));
        lemma_sixtieth(0real);
        algebra::lemma_units(60real);
        let rx = ee.x.difference(from.x).quotient(dt).difference(g.block_v.x);
        let ry = ee.y.difference(from.y).quotient(dt).difference(g.block_v.y);
        assert(v(rx) == 0real);
        assert(v(ry) == 0real);
        let impulse = rx.product(nx).sum(ry.product(ny)).larger(num::zero());
        algebra::lemma_units(v(nx));
        algebra::lemma_units(v(ny));
        algebra::lemma_units(v(ny.negated()));
        assert(v(impulse) == 0real);
        algebra::lemma_units(exact::part(7, 100));
        algebra::lemma_units(exact::part(3, 10));
        algebra::lemma_units(0real - exact::part(3, 10));
        let slip = rx.product(ny.negated()).sum(ry.product(nx)).difference(
            g.block_angular_velocity.product(S::fraction(7, 100)),
        );
        assert(v(slip) == 0real);
        let friction = num::clamped(
            slip,
            S::fraction(3, 10).negated().product(impulse),
            S::fraction(3, 10).product(impulse),
        );
        assert(v(friction) == 0real);
        algebra::lemma_divided(7real, 100real);
        algebra::lemma_units(2real);
        let spun = friction.product(S::counted(2)).quotient(S::fraction(7, 100));
        algebra::lemma_divided(0real, exact::part(7, 100));
        algebra::lemma_signs(v(spun), exact::part(7, 100));
        algebra::lemma_sign_of_factor(exact::part(7, 100), v(spun));
        assert(v(spun) == 0real);
    }
}

/// A physics step takes a sixtieth of a second. The clock of success runs while the block is within
/// 0.07 of the goal, and starts anew where it is not.
pub proof fn law_clocks_run<S: Scalar>(v: spec_fn(S) -> real, e: Env<S>, target: [S; 2])
    requires
        exact(v),
    ensures
        ({
            let f = e.ticked(target);
            let near = v(f.block.distance(f.goal)) <= exact::part(7, 100);
            &&& v(f.elapsed_seconds) == v(e.elapsed_seconds) + exact::part(1, 60)
            &&& near ==> v(f.success_hold_seconds) == v(e.success_hold_seconds) + exact::part(1, 60)
            &&& !near ==> v(f.success_hold_seconds) == 0real
            &&& f.goal == e.goal
        }),
{
}

/// A seed stands for a number from zero to below one.
proof fn lemma_seed_unit<S: Scalar>(v: spec_fn(S) -> real, seed: u64)
    requires
        counting_only(v),
    ensures
        0real <= v(simulator::seed_unit::<S>(seed)) < 1real,
{
    reveal(counting_only);
    assert(seed >> 40 < 16777216) by (bit_vector);
    let n = (seed >> 40) as real;
    let m = 16777216real;
    assert(v(S::counted(16777216)) == m);
    let u = v(simulator::seed_unit::<S>(seed));
    assert(u == n / m);
    algebra::lemma_divided(n, m);
    algebra::lemma_signs(u, m);
    algebra::lemma_sign_of_factor(m, u);
    algebra::lemma_scaled_order(1real, u, m);
    algebra::lemma_units(m);
}

/// A point at the distance `r` from the base.
proof fn lemma_around_base<S: Scalar>(v: spec_fn(S) -> real, r: S, a: S)
    requires
        exact(v),
    ensures
        ({
            let p = simulator::around_base(r, a);
            &&& v(p.x) + exact::part(115, 100) == v(r) * v(a.cosine())
            &&& v(p.y) + exact::part(55, 100) == v(r) * v(a.sine())
            &&& kinematics::squared_reach(v, v(p.x), v(p.y)) == v(r) * v(r)
        }),
{
    let p = simulator::around_base(r, a);
    let c = v(a.cosine());
    let s = v(a.sine());
    let k = v(r);
    algebra::lemma_regroup(k, c, k, c);
    algebra::lemma_regroup(k, s, k, s);
    algebra::lemma_distributes(s * s, c * c, k * k);
    algebra::lemma_units(k * k);
}

/// An episode starts at rest, with its clocks at zero and the controller's target where the joints
/// are.
pub proof fn law_episodes_start_at_rest<S: Scalar>(v: spec_fn(S) -> real, e: Env<S>)
    requires
        exact(v),
    ensures
        ({
            let f = e.restarted();
            &&& v(f.qv@[0]) == 0real && v(f.qv@[1]) == 0real
            &&& v(f.block_v.x) == 0real && v(f.block_v.y) == 0real
            &&& v(f.block_angle) == 0real && v(f.block_angular_velocity) == 0real
            &&& f.controller_target == f.q
            &&& v(f.controller_velocity@[0]) == 0real && v(f.controller_velocity@[1]) == 0real
            &&& v(f.elapsed_seconds) == 0real && v(f.success_hold_seconds) == 0real
            &&& f.t == 0 && f.success_hold == 0
            &&& f.config == e.config
        }),
{
}

/// Whether an episode starts with the block at the distance `r` and the angle `a` from the arm's base,
/// with the goal as far from the base and ahead by the angle `delta`, and with the joints at the
/// angles for the point that is 0.2 behind the block.
#[verifier::opaque]
pub open spec fn laid_out<S: Scalar>(f: Env<S>, r: S, a: S, delta: S) -> bool {
    &&& f.block == simulator::around_base(r, a)
    &&& f.goal == simulator::around_base(r, a.sum(delta))
    &&& f.q == simulator::joints_for(
        num::zero(),
        simulator::around_base(r, a.difference(S::fraction(2, 10))),
    )
}

/// Whether an episode is laid out with the block between 0.95 and 1.2 away from the base, and with the
/// goal ahead of it by an angle between 0.5 and 0.62.
#[verifier::opaque]
pub open spec fn fairly_laid_out<S: Scalar>(v: spec_fn(S) -> real, f: Env<S>) -> bool {
    exists|r: S, a: S, delta: S| #[trigger]
        laid_out(f, r, a, delta) && exact::part(95, 100) <= v(r) < exact::part(120, 100)
            && exact::part(50, 100) <= v(delta) < exact::part(62, 100)
}

/// Every episode is laid out with the block and the goal in these places.
pub proof fn law_episodes_are_laid_out<S: Scalar>(v: spec_fn(S) -> real, e: Env<S>)
    requires
        counting_only(v),
    ensures
        fairly_laid_out(v, e.restarted()),
{
    let (r, a, delta) = lemma_layout(e);
    let s2 = simulator::next_seed(simulator::next_seed(e.seed));
    lemma_fairly_laid_out(v, e.restarted(), r, a, delta, s2, simulator::next_seed(s2));
}

/// What is drawn lies between the bounds.
proof fn lemma_fairly_laid_out<S: Scalar>(
    v: spec_fn(S) -> real,
    f: Env<S>,
    r: S,
    a: S,
    delta: S,
    one: u64,
    other: u64,
)
    requires
        counting_only(v),
        laid_out(f, r, a, delta),
        r == S::fraction(95, 100).sum(simulator::seed_unit::<S>(one).product(S::fraction(1, 4))),
        delta == S::fraction(1, 2).sum(
            simulator::seed_unit::<S>(other).product(S::fraction(12, 100)),
        ),
    ensures
        fairly_laid_out(v, f),
{
    reveal(fairly_laid_out);
    lemma_scattered(v, one, S::fraction(95, 100), S::fraction(1, 4));
    lemma_scattered(v, other, S::fraction(1, 2), S::fraction(12, 100));
    algebra::lemma_divided(95real, 100real);
    algebra::lemma_divided(120real, 100real);
    algebra::lemma_divided(1real, 4real);
    algebra::lemma_divided(1real, 2real);
    algebra::lemma_divided(12real, 100real);
    algebra::lemma_divided(50real, 100real);
    algebra::lemma_divided(62real, 100real);
    assert(exact::part(95, 100) <= v(r) < exact::part(120, 100));
    assert(exact::part(50, 100) <= v(delta) < exact::part(62, 100));
    assert(laid_out(f, r, a, delta));
}

/// What an episode is laid out by: three numbers that are drawn one after the other.
proof fn lemma_layout<S: Scalar>(e: Env<S>) -> (r: (S, S, S))
    ensures
        laid_out(e.restarted(), r.0, r.1, r.2),
        ({
            let s2 = simulator::next_seed(simulator::next_seed(e.seed));
            let s3 = simulator::next_seed(s2);
            &&& r.0 == S::fraction(95, 100).sum(
                simulator::seed_unit::<S>(s2).product(S::fraction(1, 4)),
            )
            &&& r.2 == S::fraction(1, 2).sum(
                simulator::seed_unit::<S>(s3).product(S::fraction(12, 100)),
            )
        }),
{
    let s1 = simulator::next_seed(e.seed);
    let s2 = simulator::next_seed(s1);
    let s3 = simulator::next_seed(s2);
    let a = simulator::seed_unit::<S>(s1).product(S::counted(2)).product(num::half_turn());
    let r = S::fraction(95, 100).sum(simulator::seed_unit::<S>(s2).product(S::fraction(1, 4)));
    let delta = S::fraction(1, 2).sum(simulator::seed_unit::<S>(s3).product(S::fraction(12, 100)));
    reveal(laid_out);
    (r, a, delta)
}

/// A number that is drawn from an interval.
proof fn lemma_scattered<S: Scalar>(v: spec_fn(S) -> real, seed: u64, from: S, width: S)
    requires
        counting_only(v),
    ensures
        v(width) > 0real ==> v(from) <= v(from.sum(simulator::seed_unit::<S>(seed).product(width)))
            < v(from) + v(width),
        v(S::fraction(95, 100)) == exact::part(95, 100),
        v(S::fraction(1, 4)) == exact::part(1, 4),
        v(S::fraction(1, 2)) == exact::part(1, 2),
        v(S::fraction(12, 100)) == exact::part(12, 100),
{
    reveal(counting_only);
    lemma_seed_unit::<S>(v, seed);
    if v(width) > 0real {
        lemma_share(v(simulator::seed_unit::<S>(seed)), v(width));
    }
}

/// Whether the reading respects counting and the four operations.
#[verifier::opaque]
pub open spec fn counting_only<S: Scalar>(v: spec_fn(S) -> real) -> bool {
    exact::counts(v) && exact::reckons(v)
}

/// In an episode that is laid out like that, block and goal are equally far from the base, and the tip
/// starts 0.2 behind the block, on the side away from the goal, unless the elbow stops at its limit.
pub proof fn law_arms_start_behind_blocks<S: Scalar>(
    v: spec_fn(S) -> real,
    f: Env<S>,
    r: S,
    a: S,
    delta: S,
)
    requires
        exact(v),
        laid_out(f, r, a, delta),
        exact::part(95, 100) <= v(r) < exact::part(120, 100),
    ensures
        kinematics::squared_reach(v, v(f.block.x), v(f.block.y)) == v(r) * v(r),
        kinematics::squared_reach(v, v(f.goal.x), v(f.goal.y)) == v(r) * v(r),
        ({
            let back = a.difference(S::fraction(2, 10));
            let tip = state::tip_at(f.q);
            let stop = exact::part(275, 100);
            -stop < v(f.q@[1]) < stop ==> {
                &&& v(tip.x) + exact::part(115, 100) == v(r) * v(back.cosine())
                &&& v(tip.y) + exact::part(55, 100) == v(r) * v(back.sine())
            }
        }),
{
    reveal(laid_out);
    lemma_around_base(v, r, a);
    lemma_around_base(v, r, a.sum(delta));
    let back = a.difference(S::fraction(2, 10));
    let p = simulator::around_base(r, back);
    lemma_around_base(v, r, back);
    let stop = exact::part(275, 100);
    if -stop < v(f.q@[1]) < stop {
        let k = v(r);
        algebra::lemma_divided(95real, 100real);
        algebra::lemma_divided(120real, 100real);
        algebra::lemma_divided(1real, 100real);
        algebra::lemma_scaled_order(1real, 10real * k, k);
        algebra::lemma_distributes(10real, k, k);
        algebra::lemma_units(k);
        algebra::lemma_scaled_order(k, 2real, k);
        assert(exact::part(1, 100) <= k * k <= 4real);
        assert(kinematics::reachable(v, v(p.x), v(p.y)));
        kinematics::law_joints_reach_their_point(v, num::zero(), p);
    }
}

/// A share of a positive number.
proof fn lemma_share(u: real, w: real)
    requires
        0real <= u < 1real,
        w > 0real,
    ensures
        0real <= u * w < w,
{
    algebra::lemma_signs(u, w);
    algebra::lemma_sign_of_factor(w, u);
    algebra::lemma_scaled_order(1real, u, w);
    algebra::lemma_units(w);
}

/// What a decision leads to is judged by the states before and after it, and by the action that was
/// carried out.
pub proof fn law_outcomes_judge_transitions<S: Scalar>(e: Env<S>, action: [S; 2])
    ensures
        e.outcome(action) == reward::verdict(
            e.state(),
            e.decided(action).state(),
            simulator::bounded(action),
            e.config,
        ),
{
    reveal(Env::outcome);
    reveal(Env::decided);
    lemma_drive_keeps_config(e.commanded(simulator::bounded(action)), 4);
}

/// Driving does not change the configuration.
proof fn lemma_drive_keeps_config<S: Scalar>(e: Env<S>, n: nat)
    ensures
        e.driven(n).config == e.config,
    decreases n,
{
    if n > 0 {
        lemma_drive_keeps_config(e, (n - 1) as nat);
    }
}

} // verus!
