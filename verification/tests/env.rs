use push_learn::env::reward::{dt, max_seconds};
use push_learn::env::{
    decode_state, encode_observation, encode_state, evaluate_transition, transition_reward, wrap,
    ActionMode, Env, EnvConfig, ObsLayout, ObservationKey, Vec2, BACKEND, STATE_DIM,
};
use push_learn::num::Scalar;
use std::f32::consts::PI;

/// Single-precision numbers.
#[derive(Clone, Copy, Debug, PartialEq)]
struct R(f32);

impl Scalar for R {
    type Wide = f64;
    fn from_count(n: u64) -> R {
        R(n as f32)
    }
    fn from_ratio(n: u64, d: u64) -> R {
        R(n as f32 / d as f32)
    }
    fn plus(self, other: R) -> R {
        R(self.0 + other.0)
    }
    fn minus(self, other: R) -> R {
        R(self.0 - other.0)
    }
    fn times(self, other: R) -> R {
        R(self.0 * other.0)
    }
    fn over(self, other: R) -> R {
        R(self.0 / other.0)
    }
    fn neg(self) -> R {
        R(-self.0)
    }
    fn abs(self) -> R {
        R(self.0.abs())
    }
    fn square(self) -> R {
        R(self.0.powi(2))
    }
    fn sqrt(self) -> R {
        R(self.0.sqrt())
    }
    fn exp(self) -> R {
        R(self.0.exp())
    }
    fn ln(self) -> R {
        R(self.0.ln())
    }
    fn ln_1p(self) -> R {
        R(self.0.ln_1p())
    }
    fn sin(self) -> R {
        R(self.0.sin())
    }
    fn cos(self) -> R {
        R(self.0.cos())
    }
    fn acos(self) -> R {
        R(self.0.acos())
    }
    fn atan2(self, other: R) -> R {
        R(self.0.atan2(other.0))
    }
    fn tanh(self) -> R {
        R(self.0.tanh())
    }
    fn atanh(self) -> R {
        R(self.0.atanh())
    }
    fn powf(self, other: R) -> R {
        R(self.0.powf(other.0))
    }
    fn hypot(self, other: R) -> R {
        R(self.0.hypot(other.0))
    }
    fn max(self, other: R) -> R {
        R(self.0.max(other.0))
    }
    fn min(self, other: R) -> R {
        R(self.0.min(other.0))
    }
    fn floor(self) -> R {
        R(self.0.floor())
    }
    fn round(self) -> R {
        R(self.0.round())
    }
    fn to_u32(self) -> u32 {
        self.0 as u32
    }
    fn to_u64(self) -> u64 {
        self.0 as u64
    }
    fn less(self, other: R) -> bool {
        self.0 < other.0
    }
    fn at_most(self, other: R) -> bool {
        self.0 <= other.0
    }
    fn is_finite(self) -> bool {
        self.0.is_finite()
    }
    fn wide_zero() -> f64 {
        0.0
    }
    fn wide_plus_square(total: f64, x: R) -> f64 {
        total + (x.0 as f64).powi(2)
    }
    fn wide_root(total: f64) -> R {
        R(total.sqrt() as f32)
    }
}

fn pair(a: f32, b: f32) -> [R; 2] {
    [R(a), R(b)]
}

#[test]
fn deterministic() {
    let mut a: Env<R> = Env::new(99);
    let mut b: Env<R> = Env::new(99);
    for i in 0..150 {
        let act = pair((i as f32).sin(), (i as f32).cos());
        assert_eq!(a.step(act), b.step(act));
        assert_eq!(a.full_state(), b.full_state());
    }
}

#[test]
fn layouts() {
    for seed in 0..1000 {
        let e: Env<R> = Env::new(seed);
        let base = Vec2 { x: R(-1.15), y: R(-0.55) };
        assert!((0.65..=1.65).contains(&e.block.dist(base).0));
        assert!((0.65..=1.65).contains(&e.goal.dist(base).0));
        assert!((0.4..=0.8).contains(&e.block.dist(e.goal).0));
        assert!(e.block.dist(e.end_effector()).0 > 0.11);
    }
}

#[test]
fn observations_include_velocity() {
    let mut e: Env<R> = Env::new(0);
    e.block_v = Vec2 { x: R(0.3), y: R(-0.4) };
    e.block_angular_velocity = R(0.7);
    assert_eq!(&e.obs()[12..15], &[R(0.3), R(-0.4), R(0.7 / 3.0)]);
}

#[test]
fn goal_does_not_affect_dynamics() {
    let mut a: Env<R> = Env::new(123);
    let mut b = a.clone();
    b.goal = Vec2 { x: R(100.), y: R(100.) };
    for _ in 0..20 {
        a.step(pair(1., 0.2));
        b.step(pair(1., 0.2));
        assert_eq!(a.block, b.block);
        assert_eq!(a.block_v, b.block_v);
    }
}

#[test]
fn timeout_75_decisions() {
    let mut e: Env<R> = Env::new(1);
    for _ in 0..74 {
        assert!(!e.step(pair(0., 0.)).1);
    }
    assert!(e.step_result(pair(0., 0.)).truncated);
}

#[test]
fn success_requires_hold() {
    let mut e: Env<R> = Env::new(1);
    e.goal = e.block;
    for _ in 0..3 {
        assert!(!e.step(pair(0., 0.)).1);
    }
    assert!(e.step_result(pair(0., 0.)).success);
}

#[test]
fn shoulder_wrap() {
    assert!((wrap(R(-PI + 0.01 - (PI - 0.01))).0 - 0.02).abs() < 1e-5);
}

#[test]
fn state_roundtrip_resumes() {
    let mut a: Env<R> =
        Env::with_config(8, EnvConfig { action_mode: ActionMode::Acceleration, max_decisions: 75 });
    a.step(pair(0.4, -0.1));
    let state = decode_state(encode_state(&a.full_state()));
    let mut b = a.clone();
    b.set_state(state);
    for _ in 0..20 {
        assert_eq!(a.step(pair(0.2, -0.5)), b.step(pair(0.2, -0.5)));
        assert_eq!(a.full_state(), b.full_state());
    }
}

#[test]
fn velocity_units_and_continuous_shoulder() {
    let mut e: Env<R> =
        Env::with_config(4, EnvConfig { action_mode: ActionMode::Velocity, max_decisions: 75 });
    e.q[0] = R(PI - 0.001);
    let before = e.q[0].0;
    e.step(pair(1.0, 0.0));
    assert!(e.q[0].0 > PI);
    assert!((e.q[0].0 - before - 0.9 * 4.0 * dt::<R>().0).abs() < 1e-5);
}

#[test]
fn every_action_mode_finite() {
    for action_mode in [
        ActionMode::Position,
        ActionMode::JointDelta,
        ActionMode::Absolute,
        ActionMode::Velocity,
        ActionMode::Acceleration,
    ] {
        let mut e: Env<R> = Env::with_config(7, EnvConfig { action_mode, max_decisions: 75 });
        for _ in 0..75 {
            let result = e.step_result(pair(0.5, -0.7));
            assert!(result.reward.0.is_finite());
            assert!(encode_state(&e.full_state()).iter().all(|x| x.0.is_finite()));
        }
    }
}

#[test]
fn free_spin_and_decay() {
    let mut e: Env<R> = Env::new(2);
    e.block_angular_velocity = R(1.0);
    e.physics_step(e.q);
    assert!((e.block_angle.0 - dt::<R>().0).abs() < 1e-6);
    assert!((e.block_angular_velocity.0 - 0.82).abs() < 1e-6);
}

#[test]
fn constants_are_those_of_the_task() {
    assert_eq!(STATE_DIM, 18);
    assert_eq!(dt::<R>(), R(1.0 / 60.0));
    assert_eq!(max_seconds::<R>(&EnvConfig::default()), R(75.0 * 4.0 * (1.0 / 60.0)));
    assert_eq!(EnvConfig::default().max_decisions, 75);
    assert_eq!(EnvConfig::default().action_mode, ActionMode::Position);
    assert_eq!(BACKEND, "kinematic-arm-disk-contact-v2");
}

#[test]
fn a_reset_starts_a_new_episode_and_seeds_fix_all_of_them() {
    let mut a: Env<R> = Env::new(5);
    let mut b: Env<R> = Env::with_config(5, EnvConfig::default());
    assert_eq!(a.full_state(), b.full_state());
    let first = a.full_state();
    a.step(pair(1.0, 1.0));
    a.reset();
    assert_ne!(a.full_state(), first);
    b.reset();
    assert_eq!(a.full_state(), b.full_state());
    assert_eq!((a.t, a.elapsed_seconds, a.success_hold_seconds), (0, R(0.0), R(0.0)));
}

#[test]
fn encoding_a_decoded_state_gives_it_back() {
    let mut x = [R(0.0); 18];
    for i in 0..18 {
        x[i] = R(0.25 * i as f32 - 1.0);
    }
    let s = decode_state(x);
    assert_eq!(s.q, [x[0], x[1]]);
    assert_eq!(s.success_hold_seconds, x[17]);
    assert_eq!(encode_state(&s), x);
    let y = Env::<R>::new(3).full_state();
    assert_eq!(decode_state(encode_state(&y)), y);
}

#[test]
fn inverse_kinematics_reaches_what_the_arm_can_reach() {
    let mut e: Env<R> = Env::new(11);
    let target = e.block;
    e.q = e.ik(target);
    assert!(e.end_effector().dist(target).0 < 1e-4);
}

#[test]
fn layouts_are_read_from_lists_of_names() {
    let layout = ObsLayout::from_csv("jointAngles,,bias,commandVelocity,").unwrap();
    assert_eq!(
        layout.keys,
        vec![ObservationKey::JointAngles, ObservationKey::Bias, ObservationKey::CommandVelocity]
    );
    assert_eq!(layout.dim, 5);
    assert_eq!(
        ObsLayout::from_csv("jointAngles,nothing").unwrap_err(),
        "unknown observation key: nothing"
    );
    assert_eq!(ObsLayout::from_csv(",,").unwrap_err(), "observation selection is empty");
    assert!(ObsLayout::repeats_key("bias,jointAngles,bias"));
    assert!(!ObsLayout::repeats_key("bias,jointAngles"));
    assert_eq!(ObsLayout::default().dim, 16);
    assert_eq!(ObservationKey::parse("blockOrientation"), Some(ObservationKey::BlockOrientation));
    assert_eq!(ObservationKey::parse("blockorientation"), None);
    assert_eq!(ObservationKey::BlockAngularVelocity.dims(), 1);
}

#[test]
fn observations_follow_the_order_of_the_layout() {
    let e: Env<R> = Env::new(21);
    let s = e.full_state();
    let layout = ObsLayout::from_keys(&[
        ObservationKey::Bias,
        ObservationKey::GoalPosition,
        ObservationKey::BlockOrientation,
        ObservationKey::EpisodeTime,
    ]);
    let mut seen = vec![R(9.0); layout.dim];
    e.observe_layout(&layout, &mut seen);
    assert_eq!(seen[0], R(1.0));
    assert_eq!(seen[3], R(s.block_angle.0.sin()));
    assert_eq!(seen[4], R(s.block_angle.0.cos()));
    let mut same = vec![R(0.0); layout.dim];
    encode_observation(&s, &layout, max_seconds(&EnvConfig::default()), &mut same);
    assert_eq!(seen, same);
    let mut whole = [R(0.0); 16];
    e.observe(&mut whole);
    assert_eq!(whole, e.obs());
    assert_eq!(e.obs_dim(), 16);
}

#[test]
fn steps_are_judged_by_their_transitions() {
    let config = EnvConfig::default();
    let mut e: Env<R> = Env::new(17);
    for _ in 0..10 {
        let before = e.full_state();
        let action = pair(0.6, -0.3);
        let result = e.step_result(action);
        let after = e.full_state();
        assert_eq!(evaluate_transition(&before, &after, action, &config), result);
        let reward = transition_reward(&before, &after, action, &config);
        assert_eq!(reward.total, result.reward);
        assert!(!(result.terminated && result.truncated));
    }
}

#[test]
fn rewards_come_from_the_transition_alone() {
    let config = EnvConfig::default();
    let s = Env::<R>::new(1).full_state();
    let r = transition_reward(&s, &s, pair(0.0, 0.0), &config);
    assert_eq!(r.goal, R(0.0));
    assert_eq!(r.approach, R(0.0));
    assert_eq!(r.terminal, R(0.0));
    assert_eq!(r.effort.0.abs(), 0.0);
    assert_eq!(r.time, R(-0.035));
    assert_eq!(r.total, R(-0.035));
    let r = transition_reward(&s, &s, pair(0.5, -1.0), &config);
    assert_eq!(r.effort, R(-0.008 * 1.25));
    let mut held = s;
    held.success_hold_seconds = R(0.25);
    held.elapsed_seconds = R(2.0);
    let r = transition_reward(&s, &held, pair(0.0, 0.0), &config);
    assert_eq!(r.terminal, R(100.0 + 0.1 * (75.0 * 4.0 * (1.0 / 60.0) - 2.0)));
    assert!(evaluate_transition(&s, &held, pair(0.0, 0.0), &config).success);
    let mut lost = s;
    lost.block = Vec2 { x: R(3.0), y: R(3.0) };
    let r = transition_reward(&s, &lost, pair(0.0, 0.0), &config);
    assert_eq!(r.terminal, R(-30.0));
    let verdict = evaluate_transition(&s, &lost, pair(0.0, 0.0), &config);
    assert!(verdict.terminated && !verdict.success && !verdict.truncated);
}

#[test]
fn actions_beyond_their_bounds_act_as_the_bounds() {
    for action_mode in [
        ActionMode::Position,
        ActionMode::JointDelta,
        ActionMode::Absolute,
        ActionMode::Velocity,
        ActionMode::Acceleration,
    ] {
        let mut a: Env<R> = Env::with_config(5, EnvConfig { action_mode, max_decisions: 75 });
        let mut b = a.clone();
        for wild in [[1.7f32, -0.3], [-4.0, 9.0], [0.2, -1.0], [1.0, f32::INFINITY]] {
            let tame = pair(wild[0].clamp(-1.0, 1.0), wild[1].clamp(-1.0, 1.0));
            assert_eq!(a.step_result(pair(wild[0], wild[1])), b.step_result(tame));
            assert_eq!(a.full_state(), b.full_state());
            assert_eq!((a.t, a.success_hold), (b.t, b.success_hold));
        }
    }
}

#[test]
fn a_decision_is_four_ticks() {
    let mut e: Env<R> = Env::new(13);
    let (goal, seed) = (e.goal, e.seed);
    let mut clock = 0.0f32;
    for n in 1..=10 {
        e.step_result(pair(0.7, -0.4));
        for _ in 0..4 {
            clock += dt::<R>().0;
        }
        assert_eq!(e.t, n);
        assert_eq!(e.elapsed_seconds, R(clock));
        assert_eq!((e.goal, e.seed, e.config()), (goal, seed, EnvConfig::default()));
    }
}

#[test]
fn groups_keep_their_values_wherever_they_stand() {
    let mut e: Env<R> = Env::new(31);
    e.step(pair(0.9, 0.1));
    let s = e.full_state();
    let seconds = max_seconds(&EnvConfig::default());
    let alone = |key: ObservationKey| {
        let layout = ObsLayout::from_keys(&[key]);
        let mut out = vec![R(0.0); layout.dim];
        encode_observation(&s, &layout, seconds, &mut out);
        out
    };
    let layout = ObsLayout::from_keys(&[
        ObservationKey::EpisodeTime,
        ObservationKey::BlockRelative,
        ObservationKey::Bias,
        ObservationKey::JointVelocities,
    ]);
    let mut out = vec![R(0.0); layout.dim];
    encode_observation(&s, &layout, seconds, &mut out);
    let mut at = 0;
    for key in &layout.keys {
        assert_eq!(out[at..at + key.dims()], alone(*key)[..]);
        at += key.dims();
    }
    assert_eq!(at, layout.dim);
}
