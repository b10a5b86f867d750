//! Where the arm is brought by the joint angles that are computed for it, and what actions command.
use crate::env::simulator::{self, Env};
use crate::env::state::{self, Vec2};
use crate::laws::algebra;
use crate::laws::exact::{self, exact};
use crate::num::{self, Meaning, Scalar};
use vstd::prelude::*;

verus! {

/// An angle that was brought to one turn around zero is the same direction.
pub proof fn law_wrapped_angles_point_alike<S: Scalar>(v: spec_fn(S) -> real, a: S)
    requires
        exact(v),
    ensures
        v(state::wrapped(a).cosine()) == v(a.cosine()),
        v(state::wrapped(a).sine()) == v(a.sine()),
{
    let c = v(a.cosine());
    let s = v(a.sine());
    algebra::lemma_units(1real);
    assert(exact::spans(1real, c, s));
    algebra::lemma_units(v(state::wrapped(a).cosine()));
    algebra::lemma_units(v(state::wrapped(a).sine()));
}

/// Going from an angle to another one by the wrapped difference leads to the same direction.
pub proof fn law_wrapped_steps_arrive<S: Scalar>(v: spec_fn(S) -> real, from: S, to: S)
    requires
        exact(v),
    ensures
        v(from.sum(state::wrapped(to.difference(from))).cosine()) == v(to.cosine()),
        v(from.sum(state::wrapped(to.difference(from))).sine()) == v(to.sine()),
{
    let d = to.difference(from);
    law_wrapped_angles_point_alike(v, d);
    algebra::lemma_there_and_back(
        v(to.cosine()),
        v(to.sine()),
        v(from.cosine()),
        v(from.sine()),
    );
    assert(v(d.cosine()) == v(to.cosine()) * v(from.cosine()) + v(to.sine()) * v(from.sine()));
    assert(v(d.sine()) == v(to.sine()) * v(from.cosine()) - v(to.cosine()) * v(from.sine()));
}

/// The squared distance of a point from the base of the arm, which stands at `(-1.15, -0.55)`.
pub open spec fn squared_reach<S: Scalar>(v: spec_fn(S) -> real, x: real, y: real) -> real {
    let dx = x + exact::part(115, 100);
    let dy = y + exact::part(55, 100);
    dx * dx + dy * dy
}

/// Whether the arm, whose links are 1.05 and 0.95 long, can reach a point: its distance from the
/// base is between a tenth and two.
pub open spec fn reachable<S: Scalar>(v: spec_fn(S) -> real, x: real, y: real) -> bool {
    exact::part(1, 100) <= squared_reach(v, x, y) <= 4real
}

/// The constants of the arm.
proof fn lemma_arm<S: Scalar>(v: spec_fn(S) -> real)
    requires
        exact(v),
    ensures
        v(S::fraction(105, 100)) == 105real / 100real,
        v(S::fraction(95, 100)) == 95real / 100real,
        ({
            let u = 105real / 100real;
            let l = 95real / 100real;
            &&& 2real * u * l == 1995real / 1000real
            &&& u * u + l * l == 2005real / 1000real
        }),
{
    let u = 105real / 100real;
    let l = 95real / 100real;
    assert(u * u + l * l == 2005real / 1000real && 2real * u * l == 1995real / 1000real)
        by (nonlinear_arith)
        requires
            u == 105real / 100real,
            l == 95real / 100real,
    ;
}

/// The joint angles for a point bring the tip there, wherever the point is within reach and the
/// elbow does not stop at its limit.
pub proof fn law_joints_reach_their_point<S: Scalar>(v: spec_fn(S) -> real, q0: S, p: Vec2<S>)
    requires
        exact(v),
        reachable(v, v(p.x), v(p.y)),
        -exact::part(275, 100) < v(simulator::joints_for(q0, p)@[1]) < exact::part(275, 100),
    ensures
        v(state::tip_at(simulator::joints_for(q0, p)).x) == v(p.x),
        v(state::tip_at(simulator::joints_for(q0, p)).y) == v(p.y),
{
    let upper = S::fraction(105, 100);
    let lower = S::fraction(95, 100);
    let x = p.x.sum(S::fraction(115, 100));
    let y = p.y.sum(S::fraction(55, 100));
    let span = S::counted(2).product(upper).product(lower);
    let raw = x.product(x).sum(y.product(y)).difference(upper.product(upper)).difference(
        lower.product(lower),
    ).quotient(span);
    let c = simulator::limited(raw, num::one());
    let q2 = simulator::limited(c.arc_cosine(), simulator::elbow_limit());
    let k1 = upper.sum(lower.product(q2.cosine()));
    let k2 = lower.product(q2.sine());
    let a = y.arc_tangent(x);
    let b = k2.arc_tangent(k1);
    let q1 = a.difference(b);
    let first = q0.sum(state::wrapped(q1.difference(q0)));
    assert(simulator::joints_for(q0, p)@ =~= seq![first, q2]);
    lemma_arm(v);
    let u = v(upper);
    let l = v(lower);
    let r2 = v(x) * v(x) + v(y) * v(y);
    assert(r2 == squared_reach(v, v(p.x), v(p.y)));
    let w = 2real * u * l;
    assert(v(span) == w);
    assert(v(raw) == (r2 - u * u - l * l) / w);
    algebra::lemma_divided(r2 - u * u - l * l, w);
    assert(v(raw) * w == r2 - u * u - l * l);
    algebra::lemma_scaled_order(v(raw), 1real, w);
    algebra::lemma_scaled_order(-1real, v(raw), w);
    algebra::lemma_units(w);
    algebra::lemma_signs(1real, w);
    assert(-1real <= v(raw) <= 1real);
    assert(v(num::one::<S>().negated()) == -1real);
    assert(c == raw);
    assert(v(c.arc_cosine().cosine()) == v(c));
    assert(v(simulator::elbow_limit::<S>()) == exact::part(275, 100));
    assert(q2 == c.arc_cosine());
    let cc = v(q2.cosine());
    let ss = v(q2.sine());
    assert(cc == v(raw));
    algebra::lemma_elbow(u, l, cc, ss);
    let root = x.product(x).sum(y.product(y)).root();
    let r = v(root);
    assert(r * r == r2);
    algebra::lemma_units(0real);
    assert(r > 0real);
    assert(v(k1) == u + l * cc);
    assert(v(k2) == l * ss);
    assert(exact::spans(r, v(x), v(y)));
    assert(exact::spans(r, v(k1), v(k2)));
    algebra::lemma_two_links(
        v(x),
        v(y),
        r,
        u,
        l,
        cc,
        ss,
        v(a.cosine()),
        v(a.sine()),
        v(b.cosine()),
        v(b.sine()),
    );
    law_wrapped_steps_arrive(v, q0, q1);
    let turn = first.sum(q2);
    assert(v(turn.cosine()) == v(first.cosine()) * cc - v(first.sine()) * ss);
    assert(v(turn.sine()) == v(first.sine()) * cc + v(first.cosine()) * ss);
}

/// Under position control an action commands the point that is 0.04 times its first component to
/// the side of the tip, and 0.04 times its second component above it: the controller's target is
/// the pair of joint angles for that point, and nothing else changes.
pub proof fn law_position_control<S: Scalar>(e: Env<S>, a: [S; 2], p: Vec2<S>)
    requires
        e.config.action_mode is Position,
        p.x == state::tip_at(e.q).x.sum(S::fraction(4, 100).product(a@[0])),
        p.y == state::tip_at(e.q).y.sum(S::fraction(4, 100).product(a@[1])),
    ensures
        e.commanded(a) == (Env { controller_target: simulator::joints_for(e.q@[0], p), ..e }),
{
}

/// Under position control the target brings the tip to the commanded point: its x depends on the
/// first component of the action alone, and its y on the second one alone.
pub proof fn law_position_control_moves_the_tip<S: Scalar>(
    v: spec_fn(S) -> real,
    e: Env<S>,
    a: [S; 2],
)
    requires
        exact(v),
        e.config.action_mode is Position,
        ({
            let tip = state::tip_at(e.q);
            let reach = exact::part(4, 100);
            let target = e.commanded(a).controller_target;
            &&& reachable(v, v(tip.x) + reach * v(a@[0]), v(tip.y) + reach * v(a@[1]))
            &&& -exact::part(275, 100) < v(target@[1]) < exact::part(275, 100)
        }),
    ensures
        ({
            let tip = state::tip_at(e.q);
            let reach = exact::part(4, 100);
            let there = state::tip_at(e.commanded(a).controller_target);
            &&& v(there.x) == v(tip.x) + reach * v(a@[0])
            &&& v(there.y) == v(tip.y) + reach * v(a@[1])
        }),
{
    let tip = state::tip_at(e.q);
    let reach = S::fraction(4, 100);
    let p = Vec2 { x: tip.x.sum(reach.product(a@[0])), y: tip.y.sum(reach.product(a@[1])) };
    law_position_control(e, a, p);
    assert(v(p.x) == v(tip.x) + exact::part(4, 100) * v(a@[0]));
    assert(v(p.y) == v(tip.y) + exact::part(4, 100) * v(a@[1]));
    law_joints_reach_their_point(v, e.q@[0], p);
}

/// Under the other kinds of control each joint is commanded by its own component: a step of 0.15 from
/// where it is; a direction in half turns, and for the elbow a share of its limit; a velocity of 0.9;
/// or a change of the commanded velocity by a fifth, up to 1.5.
pub proof fn law_joint_control<S: Scalar>(v: spec_fn(S) -> real, e: Env<S>, a: [S; 2])
    requires
        exact(v),
    ensures
        ({
            let f = e.commanded(a);
            let stop = exact::part(275, 100);
            &&& e.config.action_mode is JointDelta ==> {
                let step = exact::part(15, 100);
                &&& f == (Env { controller_target: f.controller_target, ..e })
                &&& v(f.controller_target@[0]) == v(e.q@[0]) + step * v(a@[0])
                &&& v(f.controller_target@[1]) == exact::between(
                    v(e.q@[1]) + step * v(a@[1]),
                    0real - stop,
                    stop,
                )
            }
            &&& e.config.action_mode is Absolute ==> {
                let to = num::half_turn::<S>().product(a@[0]);
                &&& f == (Env { controller_target: f.controller_target, ..e })
                &&& v(f.controller_target@[0].cosine()) == v(to.cosine())
                &&& v(f.controller_target@[0].sine()) == v(to.sine())
                &&& v(f.controller_target@[1]) == stop * v(a@[1])
            }
            &&& e.config.action_mode is Velocity ==> {
                &&& f == (Env { controller_velocity: f.controller_velocity, ..e })
                &&& v(f.controller_velocity@[0]) == exact::part(9, 10) * v(a@[0])
                &&& v(f.controller_velocity@[1]) == exact::part(9, 10) * v(a@[1])
            }
            &&& e.config.action_mode is Acceleration ==> {
                let top = exact::part(3, 2);
                &&& f == (Env { controller_velocity: f.controller_velocity, ..e })
                &&& v(f.controller_velocity@[0]) == exact::between(
                    v(e.controller_velocity@[0]) + v(a@[0]) / 5real,
                    0real - top,
                    top,
                )
                &&& v(f.controller_velocity@[1]) == exact::between(
                    v(e.controller_velocity@[1]) + v(a@[1]) / 5real,
                    0real - top,
                    top,
                )
            }
        }),
{
    let to = num::half_turn::<S>().product(a@[0]);
    law_wrapped_steps_arrive(v, e.q@[0], to);
    lemma_fifth(v(a@[0]));
    lemma_fifth(v(a@[1]));
}

/// Three times a number, for four steps of a sixtieth, is a fifth of it.
proof fn lemma_fifth(x: real)
    ensures
        3real * x * exact::part(1, 60) * 4real == x / 5real,
{
    let t = exact::part(1, 60);
    algebra::lemma_divided(1real, 60real);
    assert(t * 60real == 1real);
    assert(3real * x * t * 4real * 5real == x * (t * 60real)) by (nonlinear_arith);
    algebra::lemma_units(x);
    algebra::lemma_quotient(x, 5real, 3real * x * t * 4real);
}

/// Actions act with each component brought within `-1 ..= 1`.
pub proof fn law_actions_are_bounded<S: Scalar>(v: spec_fn(S) -> real, action: [S; 2], j: int)
    requires
        exact(v),
        0 <= j < 2,
    ensures
        v(simulator::bounded(action)@[j]) == exact::between(v(action@[j]), -1real, 1real),
{
    let one = num::one::<S>();
    assert(v(one.negated()) == -1real);
    exact::lemma_clamped_reads(v, action@[j], one.negated(), one);
}

} // verus!
