use push_learn::env::{decode_state, encode_state, Env, EnvConfig, ObsLayout, STATE_DIM};
use push_learn::num::Scalar;
use push_learn::rl::{Agent, Environment, Mlp, Ppo, PpoConfig, Sac};
use push_learn::stages::adapters::WorldEnv;
use push_learn::stages::compare::compare_world;
use push_learn::stages::dreams::evaluate_world_policy;
use push_learn::stages::evaluation::evaluate_policy;
use push_learn::stages::imagine::{
    imagined_envs, lane_starts, probe_model, probe_settings, rehearse, select_starts,
    uncertainty_limit, uncertainty_penalty,
};
use push_learn::stages::imitation::{behavior_clone_policy, holds_encoded};
use push_learn::stages::sac_run::{open_lanes, sac_round, sac_settings};
use push_learn::stages::{collect_dataset, Deterministic, RealEnv};
use push_learn::world::{Dataset, EpisodeSplit, WorldConfig, WorldModel};

/// Single-precision numbers.
#[derive(Clone, Copy, Debug, PartialEq)]
struct R(f32);

impl Scalar for R {
    type Wide = f64;
    fn from_count(n: u64) -> R {
        R(n as f32)
    }
    fn from_ratio(n: u64, d: u64) -> R {
        R(n as f32 / d as f32)
    }
    fn plus(self, other: R) -> R {
        R(self.0 + other.0)
    }
    fn minus(self, other: R) -> R {
        R(self.0 - other.0)
    }
    fn times(self, other: R) -> R {
        R(self.0 * other.0)
    }
    fn over(self, other: R) -> R {
        R(self.0 / other.0)
    }
    fn neg(self) -> R {
        R(-self.0)
    }
    fn abs(self) -> R {
        R(self.0.abs())
    }
    fn square(self) -> R {
        R(self.0.powi(2))
    }
    fn sqrt(self) -> R {
        R(self.0.sqrt())
    }
    fn exp(self) -> R {
        R(self.0.exp())
    }
    fn ln(self) -> R {
        R(self.0.ln())
    }
    fn ln_1p(self) -> R {
        R(self.0.ln_1p())
    }
    fn sin(self) -> R {
        R(self.0.sin())
    }
    fn cos(self) -> R {
        R(self.0.cos())
    }
    fn acos(self) -> R {
        R(self.0.acos())
    }
    fn atan2(self, other: R) -> R {
        R(self.0.atan2(other.0))
    }
    fn tanh(self) -> R {
        R(self.0.tanh())
    }
    fn atanh(self) -> R {
        R(self.0.atanh())
    }
    fn powf(self, other: R) -> R {
        R(self.0.powf(other.0))
    }
    fn hypot(self, other: R) -> R {
        R(self.0.hypot(other.0))
    }
    fn max(self, other: R) -> R {
        R(self.0.max(other.0))
    }
    fn min(self, other: R) -> R {
        R(self.0.min(other.0))
    }
    fn floor(self) -> R {
        R(self.0.floor())
    }
    fn round(self) -> R {
        R(self.0.round())
    }
    fn to_u32(self) -> u32 {
        self.0 as u32
    }
    fn to_u64(self) -> u64 {
        self.0 as u64
    }
    fn less(self, other: R) -> bool {
        self.0 < other.0
    }
    fn at_most(self, other: R) -> bool {
        self.0 <= other.0
    }
    fn is_finite(self) -> bool {
        self.0.is_finite()
    }
    fn wide_zero() -> f64 {
        0.0
    }
    fn wide_plus_square(total: f64, x: R) -> f64 {
        total + (x.0 as f64).powi(2)
    }
    fn wide_root(total: f64) -> R {
        R(total.sqrt() as f32)
    }
}

/// An agent that always wants the same.
struct Steady([R; 2]);
impl Agent<R> for Steady {
    fn action(&mut self, _obs: &[R]) -> [R; 2] {
        self.0
    }
}

fn steady() -> Steady {
    Steady([R(0.4), R(-0.2)])
}

fn record(episodes: usize) -> Dataset<R> {
    collect_dataset(episodes, 9000, EnvConfig::default(), &ObsLayout::default(), &mut steady())
}

/// A model whose two members say that nothing moves, give or take `apart`.
fn still_model(apart: f32) -> WorldModel<R> {
    let net = |shift: f32| {
        let mut parameters = vec![R(0.0); 20 + 1 + 1 + 1 + 14 + 14];
        for p in &mut parameters[37..] {
            *p = R(shift);
        }
        Mlp { input: 20, hidden: 1, output: 14, parameters }
    };
    WorldModel {
        version: "push-world-v1".into(),
        config_hash: "test".into(),
        config: WorldConfig { members: 2, hidden: 1, ..Default::default() },
        state_dim: STATE_DIM,
        members: vec![net(apart), net(-apart)],
        input_mean: vec![R(0.0); 20],
        input_std: vec![R(1.0); 20],
        delta_mean: vec![R(0.0); 14],
        delta_std: vec![R(1.0); 14],
        split: EpisodeSplit { train: vec![], validation: vec![], test: vec![] },
        metrics: Default::default(),
    }
}

#[test]
fn datasets_record_whole_episodes() {
    let d = record(4);
    assert_eq!(d.version, "push-state-dataset-v1");
    assert_eq!(d.config_hash, "rust-env-v2-default-obs16-position");
    assert_eq!((d.state_dim, d.episodes.len()), (18, 4));
    assert!(d.validate().is_ok() && holds_encoded(&d));
    for (i, e) in d.episodes.iter().enumerate() {
        assert_eq!((e.id, e.seed), (i as u64, 9000 + i as u64));
        let mut env: Env<R> = Env::new(e.seed);
        for t in &e.transitions {
            assert_eq!(t.state, encode_state(&env.full_state()).to_vec());
            assert_eq!(t.action, steady().0);
            let r = env.step_result(t.action);
            assert_eq!(t.next_state, encode_state(&env.full_state()).to_vec());
            assert_eq!((t.reward, t.terminated, t.truncated), (r.reward, r.terminated, r.truncated));
        }
        let last = e.transitions.last().unwrap();
        assert!(last.terminated || last.truncated);
        assert!(e.transitions.len() <= 75);
    }
}

#[test]
fn evaluations_report_every_episode_and_their_means() {
    let layout = ObsLayout::default();
    let report = evaluate_policy(3, 80000, EnvConfig::default(), &layout, &mut steady());
    assert_eq!(report.episodes.len(), 3);
    let mut steps = 0;
    let mut score = 0.0f32;
    for (i, e) in report.episodes.iter().enumerate() {
        assert_eq!(e.seed, 80000 + i as u64);
        assert_eq!((e.actions.len(), e.rewards.len(), e.states.len()), (e.steps, e.steps, e.steps));
        assert!(e.min_distance.0 <= e.final_distance.0);
        let mut sum = 0.0f32;
        for r in &e.rewards {
            sum += r.0;
        }
        assert_eq!(e.score, R(sum));
        steps += e.steps;
        score += e.score.0;
    }
    assert_eq!(report.averages.mean_steps, R(steps as f32 / 3.0));
    assert_eq!(report.averages.mean_return, R(score / 3.0));
    assert_eq!(report.averages.success_rate, R(0.0));
    let none = evaluate_policy(0, 1, EnvConfig::default(), &layout, &mut steady());
    assert_eq!((none.episodes.len(), none.averages.mean_return), (0, R(0.0)));
}

#[test]
fn preferred_actions_can_be_evaluated() {
    let layout = ObsLayout::default();
    let ppo = || -> Ppo<R> { Ppo::new(16, PpoConfig::default(), 42) };
    let mut agent = Deterministic { policy: ppo() };
    let report = evaluate_policy(1, 5, EnvConfig::default(), &layout, &mut agent);
    let mut env: Env<R> = Env::new(5);
    let mut policy = ppo();
    for a in &report.episodes[0].actions {
        assert_eq!(*a, policy.deterministic_action(&env.obs()));
        env.step(*a);
    }
    let mut agent = Deterministic { policy: Sac::<R>::default() };
    let report = evaluate_policy(1, 5, EnvConfig::default(), &layout, &mut agent);
    assert_eq!(
        report.episodes[0].actions[0],
        Sac::<R>::default().action(&Env::<R>::new(5).obs(), true)
    );
}

#[test]
fn the_simulator_can_be_learnt_in() {
    let layout = ObsLayout::default();
    let mut env: RealEnv<R> = RealEnv::new(3, EnvConfig::default(), layout);
    assert_eq!(env.obs_dim(), 16);
    let mut seen = vec![R(0.0); 16];
    env.observe(&mut seen);
    assert_eq!(seen, Env::<R>::new(3).obs().to_vec());
    let mut plain: Env<R> = Env::new(3);
    let a = env.step_env([R(1.0), R(0.0)]);
    let b = plain.step_result([R(1.0), R(0.0)]);
    assert_eq!((a.reward, a.terminated, a.truncated), (b.reward, b.terminated, b.truncated));
    env.reset_env();
    plain.reset();
    assert_eq!(env.env.full_state(), plain.full_state());
}

#[test]
fn imagined_steps_come_from_the_model() {
    let start = encode_state(&Env::<R>::new(3).full_state()).to_vec();
    let other = encode_state(&Env::<R>::new(4).full_state()).to_vec();
    let mut env: WorldEnv<R> = WorldEnv::with_penalty(
        still_model(0.5),
        vec![start.clone(), other.clone()],
        ObsLayout::default(),
        2,
        R(0.75),
        R(2.0),
    );
    let mut seen = vec![R(0.0); 16];
    env.observe(&mut seen);
    assert_eq!(seen, Env::<R>::new(3).obs().to_vec());
    let mut free: WorldEnv<R> =
        WorldEnv::new(still_model(0.5), vec![start.clone()], ObsLayout::default(), 0, R(0.25));
    let unguarded = env.step_env([R(0.3), R(0.3)]);
    let guarded = free.step_env([R(0.3), R(0.3)]);
    assert_eq!(env.state[..14], start[..14]);
    assert_eq!(env.state[16], R(start[16].0 + 1.0 / 15.0));
    assert_eq!(env.last_uncertainty, R(0.5));
    assert_eq!(unguarded.reward, R(guarded.reward.0 - 2.0 * 0.5));
    assert!(!unguarded.truncated && !env.last_uncertainty_guarded && !env.last_horizon_truncated);
    assert!(guarded.truncated && free.last_uncertainty_guarded && !free.last_horizon_truncated);
    assert!(env.step_env([R(0.3), R(0.3)]).truncated && env.last_horizon_truncated);
    env.reset_env();
    assert_eq!((&env.state, env.steps_since_reset), (&other, 0));
    env.reset_env();
    assert_eq!(env.state, start);
}

#[test]
fn holding_the_goal_is_counted_from_the_predicted_state() {
    let mut s = Env::<R>::new(3).full_state();
    s.goal = s.block;
    let start = encode_state(&s).to_vec();
    let mut env: WorldEnv<R> =
        WorldEnv::new(still_model(0.0), vec![start], ObsLayout::default(), 75, R(0.75));
    for _ in 0..3 {
        assert!(!env.step_env([R(0.0), R(0.0)]).success);
    }
    let held = decode_state({
        let mut x = [R(0.0); 18];
        x.copy_from_slice(&env.state);
        x
    });
    assert!((held.success_hold_seconds.0 - 0.2).abs() < 1e-6);
    let r = env.step_env([R(0.0), R(0.0)]);
    assert!(r.success && r.terminated);
}

#[test]
fn policies_are_evaluated_inside_the_model() {
    let d = record(3);
    let layout = ObsLayout::default();
    let report =
        evaluate_world_policy(2, 10, R(0.75), &layout, &d, &still_model(0.1), &mut steady());
    assert_eq!(report.episodes.len(), 2);
    assert_eq!(report.horizon_truncated_episodes, 2);
    assert_eq!(report.uncertainty_guarded_episodes, 0);
    assert_eq!(report.terminated_episodes, 0);
    assert_eq!(report.averages.mean_steps, R(10.0));
    for (e, n) in report.episodes.iter().zip(&report.notes) {
        assert_eq!((e.states.len(), e.actions.len()), (11, 10));
        assert_eq!(e.states[0], d.episodes[n.id as usize].transitions[0].state);
        assert_eq!(e.final_distance, e.min_distance);
    }
    let report =
        evaluate_world_policy(9, 10, R(0.05), &layout, &d, &still_model(0.1), &mut steady());
    assert_eq!(report.episodes.len(), 3);
    assert_eq!(report.uncertainty_guarded_episodes, 3);
    assert_eq!(report.uncertainty_guarded_steps, 3);
    assert_eq!(report.averages.mean_steps, R(1.0));
}

#[test]
fn comparisons_roll_the_model_from_its_own_predictions() {
    let d = record(3);
    let c = compare_world(&d, &still_model(0.0));
    assert_eq!(c.episodes.len(), 3);
    assert_eq!(c.transitions, d.transitions());
    let mut sum = 0.0f32;
    for (e, r) in c.episodes.iter().zip(&d.episodes) {
        assert_eq!((e.id, e.seed), (r.id, r.seed));
        assert_eq!(e.real_states.len(), r.transitions.len() + 1);
        assert_eq!(e.predicted_states.len(), r.transitions.len() + 1);
        for (k, t) in r.transitions.iter().enumerate() {
            assert_eq!(e.real_states[k], t.state);
            assert_eq!(e.predicted_states[k + 1][..14], r.transitions[0].state[..14]);
            assert_eq!((e.actions[k], e.rewards[k]), (t.action, t.reward));
            assert_eq!(e.uncertainties[k], R(0.0));
            let mut gap = 0.0f32;
            for (p, q) in e.predicted_states[k + 1].iter().zip(&t.next_state) {
                gap += (p.0 - q.0).powi(2);
            }
            sum += gap / 18.0;
        }
    }
    assert_eq!(c.mean_mse, R(sum / c.transitions as f32));
}

#[test]
fn starts_are_taken_from_beginnings_or_all_over() {
    let d = record(3);
    let first = select_starts(&d, false);
    assert_eq!(first.len(), 3);
    assert_eq!(first[2], d.episodes[2].transitions[0].state);
    let all = select_starts(&d, true);
    assert_eq!(all.len(), d.transitions());
    assert_eq!(all[1], d.episodes[0].transitions[1].state);
    let many = record(20);
    let stride = many.transitions() / 512;
    assert!(stride > 1);
    let thinned = select_starts(&many, true);
    assert_eq!(thinned.len(), (many.transitions() + stride - 1) / stride);
    assert_eq!(thinned[1], many.episodes[0].transitions[stride].state);
    assert_eq!(lane_starts(&first, 4, false), vec![first[1].clone(), first[2].clone()]);
    assert_eq!(
        lane_starts(&first, 4, true),
        vec![first[1].clone(), first[2].clone(), first[0].clone()]
    );
    let envs = imagined_envs(
        &still_model(0.0),
        &first,
        false,
        5,
        &ObsLayout::default(),
        30,
        R(0.75),
        R(0.5),
    );
    assert_eq!(envs.len(), 5);
    assert_eq!(envs[4].state, first[1]);
    assert_eq!((envs[4].rollout_horizon, envs[4].uncertainty_penalty), (30, R(0.5)));
}

#[test]
fn limits_and_penalties_are_not_negative() {
    assert_eq!(uncertainty_limit::<R>(None), R(0.75));
    assert_eq!(uncertainty_limit(Some(R(-1.0))), R(0.0));
    assert_eq!(uncertainty_limit(Some(R(2.5))), R(2.5));
    assert_eq!(uncertainty_penalty::<R>(None), R(0.0));
    assert_eq!(uncertainty_penalty(Some(R(-3.0))), R(0.0));
    assert_eq!(uncertainty_penalty(Some(R(0.25))), R(0.25));
}

#[test]
fn a_model_is_probed_and_rehearsed() {
    let d = record(3);
    let layout = ObsLayout::default();
    let settings = probe_settings::<R>();
    assert_eq!((settings.epochs, settings.minibatch_size), (2, 64));
    let mut p: Ppo<R> = Ppo::new(16, settings, 777);
    let before = p.actor.parameters().to_vec();
    let stats = probe_model(&mut p, &still_model(0.1), &d, &layout).unwrap();
    assert_eq!(stats.steps, 128);
    assert_ne!(p.actor.parameters(), &before[..]);
    let mut nothing = record(3);
    nothing.episodes.clear();
    assert!(probe_model(&mut p, &still_model(0.1), &nothing, &layout).is_none());
    let t = &d.episodes[0].transitions[0];
    let (doubts, mean) = rehearse(&still_model(0.5), &t.state, t.action);
    assert_eq!(doubts, vec![R(0.5); 5]);
    assert_eq!(mean, R(0.5));
}

#[test]
fn cloning_brings_a_policy_closer_to_what_was_recorded() {
    let d = record(3);
    let layout = ObsLayout::default();
    let mut config: PpoConfig<R> = PpoConfig::default();
    config.hidden = 8;
    config.learning_rate = R(3e-3);
    let mut once: Ppo<R> = Ppo::new(16, config, 1);
    let (count, early) = behavior_clone_policy(&mut once, &d, &layout, 1, 1000);
    assert_eq!(count, d.transitions());
    let mut policy: Ppo<R> = Ppo::new(16, config, 1);
    let (_, late) = behavior_clone_policy(&mut policy, &d, &layout, 40, 1000);
    assert!(late.0 < early.0);
    let state = policy.rng.state;
    let critic = policy.critic.parameters().to_vec();
    let (thin, _) = behavior_clone_policy(&mut policy, &d, &layout, 1, 60);
    let stride = (d.transitions() + 59) / 60;
    assert_eq!(thin, (d.transitions() + stride - 1) / stride);
    assert_ne!(policy.rng.state, state);
    assert_eq!(policy.critic.parameters(), &critic[..]);
    let (same, zero) = behavior_clone_policy(&mut policy, &d, &layout, 0, 60);
    assert_eq!((same, zero), (thin, R(0.0)));
}

#[test]
fn lanes_are_driven_in_turn() {
    let layout = ObsLayout::default();
    let config = sac_settings::<R>(16, 2);
    assert_eq!(
        (config.obs_dim, config.batch_size, config.replay_capacity, config.warmup_steps),
        (16, 64, 100_000, 128)
    );
    let mut small = config;
    small.hidden = 4;
    small.replay_capacity = 600;
    let mut sac: Sac<R> = Sac::new(small, 42);
    let (mut envs, mut obs) = open_lanes::<R>(2, EnvConfig::default(), &layout);
    assert_eq!((envs.len(), obs.len()), (2, 2));
    assert_eq!(obs[1], Env::<R>::new(1).obs().to_vec());
    let (earned, completed) = sac_round(&mut sac, &mut envs, &mut obs, &layout).unwrap();
    assert!(earned.0.is_finite());
    assert!(completed >= 6);
    assert_eq!((sac.environment_steps, sac.replay_len()), (512, 512));
    assert_eq!(sac.updates, 512 - 127);
    let (mut none, mut empty) = open_lanes::<R>(0, EnvConfig::default(), &layout);
    assert_eq!(sac_round(&mut sac, &mut none, &mut empty, &layout), Some((R(0.0), 0)));
}

#[test]
fn policies_learn_in_the_simulator() {
    let layout = ObsLayout::default();
    let mut envs: Vec<RealEnv<R>> = (0..3)
        .map(|i| RealEnv::new(i, EnvConfig::default(), ObsLayout::default()))
        .collect();
    let mut config: PpoConfig<R> = PpoConfig::default();
    config.hidden = 8;
    config.epochs = 1;
    let mut p: Ppo<R> = Ppo::new(layout.dim, config, 42);
    assert!(p.is_consistent() && p.config.has_ordered_bounds());
    let s = p.train(&mut envs, 80);
    assert_eq!(s.steps, 240);
    assert!(s.episodes >= 3);
    assert_eq!(s.rejected_updates, 0);
}

#[test]
fn samples_are_thinned_evenly_under_their_bound() {
    let t = record(3).episodes[0].transitions[0].clone();
    let mut d = record(3);
    d.episodes[0].transitions = vec![t.clone(); 146_759];
    d.episodes[1].transitions = vec![t.clone()];
    d.episodes[2].transitions = vec![t];
    let mut config: PpoConfig<R> = PpoConfig::default();
    config.hidden = 2;
    let mut policy: Ppo<R> = Ppo::new(16, config, 1);
    let layout = ObsLayout::default();
    let (count, loss) = behavior_clone_policy(&mut policy, &d, &layout, 0, 120_000);
    assert_eq!((count, loss), (73_381, R(0.0)));
}
