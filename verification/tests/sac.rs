use push_learn::num::Scalar;
use push_learn::rl::policy::{
    bellman_target, clip_gradient, policy_output_gradient, sample_policy, softplus,
    TemperatureAdam,
};
use push_learn::rl::{
    Adam, Agent, Mlp, MlpGrad, ReplayBuffer, Rng, Sac, SacConfig, ACTION_DIM,
};
use serde_json::Value;

/// Single-precision numbers.
#[derive(Clone, Copy, Debug, PartialEq)]
struct R(f32);

impl Scalar for R {
    type Wide = f64;
    fn from_count(n: u64) -> R {
        R(n as f32)
    }
    fn from_ratio(n: u64, d: u64) -> R {
        R(n as f32 / d as f32)
    }
    fn plus(self, other: R) -> R {
        R(self.0 + other.0)
    }
    fn minus(self, other: R) -> R {
        R(self.0 - other.0)
    }
    fn times(self, other: R) -> R {
        R(self.0 * other.0)
    }
    fn over(self, other: R) -> R {
        R(self.0 / other.0)
    }
    fn neg(self) -> R {
        R(-self.0)
    }
    fn abs(self) -> R {
        R(self.0.abs())
    }
    fn square(self) -> R {
        R(self.0.powi(2))
    }
    fn sqrt(self) -> R {
        R(self.0.sqrt())
    }
    fn exp(self) -> R {
        R(self.0.exp())
    }
    fn ln(self) -> R {
        R(self.0.ln())
    }
    fn ln_1p(self) -> R {
        R(self.0.ln_1p())
    }
    fn sin(self) -> R {
        R(self.0.sin())
    }
    fn cos(self) -> R {
        R(self.0.cos())
    }
    fn acos(self) -> R {
        R(self.0.acos())
    }
    fn atan2(self, other: R) -> R {
        R(self.0.atan2(other.0))
    }
    fn tanh(self) -> R {
        R(self.0.tanh())
    }
    fn atanh(self) -> R {
        R(self.0.atanh())
    }
    fn powf(self, other: R) -> R {
        R(self.0.powf(other.0))
    }
    fn hypot(self, other: R) -> R {
        R(self.0.hypot(other.0))
    }
    fn max(self, other: R) -> R {
        R(self.0.max(other.0))
    }
    fn min(self, other: R) -> R {
        R(self.0.min(other.0))
    }
    fn floor(self) -> R {
        R(self.0.floor())
    }
    fn round(self) -> R {
        R(self.0.round())
    }
    fn to_u32(self) -> u32 {
        self.0 as u32
    }
    fn to_u64(self) -> u64 {
        self.0 as u64
    }
    fn less(self, other: R) -> bool {
        self.0 < other.0
    }
    fn at_most(self, other: R) -> bool {
        self.0 <= other.0
    }
    fn is_finite(self) -> bool {
        self.0.is_finite()
    }
    fn wide_zero() -> f64 {
        0.0
    }
    fn wide_plus_square(total: f64, x: R) -> f64 {
        total + (x.0 as f64).powi(2)
    }
    fn wide_root(total: f64) -> R {
        R(total.sqrt() as f32)
    }
}

fn reals(values: &[f32]) -> Vec<R> {
    values.iter().map(|&x| R(x)).collect()
}

fn test_config() -> SacConfig<R> {
    SacConfig {
        obs_dim: 3,
        hidden: 8,
        replay_capacity: 32,
        batch_size: 8,
        warmup_steps: 0,
        ..SacConfig::default()
    }
}

fn fill_replay(sac: &mut Sac<R>) {
    for i in 0..24 {
        let x = i as f32 / 24.0;
        sac.observe(
            &reals(&[x, x.sin(), 1.0]),
            [R(0.3 * x), R(-0.2)],
            R(1.0 - x),
            &reals(&[x + 0.01, (x + 0.01).sin(), 1.0]),
            i % 7 == 0,
            i % 5 == 0,
        );
    }
}

fn list(v: &[R]) -> Value {
    Value::from(v.iter().map(|x| x.0).collect::<Vec<f32>>())
}

fn read_list(v: &Value) -> Vec<R> {
    v.as_array().unwrap().iter().map(|x| R(x.as_f64().unwrap() as f32)).collect()
}

fn net(m: &Mlp<R>) -> Value {
    Value::from(vec![Value::from(vec![m.input, m.hidden, m.output]), list(&m.parameters)])
}

fn read_net(v: &Value) -> Mlp<R> {
    let size = |i: usize| v[0][i].as_u64().unwrap() as usize;
    Mlp { input: size(0), hidden: size(1), output: size(2), parameters: read_list(&v[1]) }
}

fn adam(a: &Adam<R>) -> Value {
    Value::from(vec![
        Value::from(a.step),
        list(&[a.learning_rate, a.beta1_power, a.beta2_power]),
        list(&a.m),
        list(&a.v),
    ])
}

fn read_adam(v: &Value) -> Adam<R> {
    let rates = read_list(&v[1]);
    Adam {
        learning_rate: rates[0],
        step: v[0].as_u64().unwrap(),
        beta1_power: rates[1],
        beta2_power: rates[2],
        m: read_list(&v[2]),
        v: read_list(&v[3]),
    }
}

/// Writes everything but the scratch storage and reads it again.
fn through_json(sac: &Sac<R>) -> Sac<R> {
    let b = &sac.replay;
    let c = &sac.config;
    let flat: Vec<R> = b.actions.iter().flat_map(|a| a.to_vec()).collect();
    let value = Value::from(vec![
        Value::from(vec![
            net(&sac.actor),
            net(&sac.q1),
            net(&sac.q2),
            net(&sac.target_q1),
            net(&sac.target_q2),
        ]),
        Value::from(vec![
            adam(&sac.actor_optimizer),
            adam(&sac.q1_optimizer),
            adam(&sac.q2_optimizer),
        ]),
        list(&[
            sac.log_alpha,
            sac.temperature_optimizer.moment,
            sac.temperature_optimizer.variance,
        ]),
        Value::from(vec![
            sac.temperature_optimizer.step,
            sac.rng.state,
            sac.environment_steps,
            sac.updates,
        ]),
        match sac.rng.spare {
            Some(x) => Value::from(x.0),
            None => Value::Null,
        },
        Value::from(vec![b.capacity, b.obs_dim, b.len, b.cursor]),
        list(&b.observations),
        list(&b.next_observations),
        list(&flat),
        list(&b.rewards),
        Value::from(b.terminated.clone()),
        Value::from(b.truncated.clone()),
        Value::from(vec![c.obs_dim, c.hidden, c.replay_capacity, c.batch_size]),
        Value::from(c.warmup_steps),
        Value::from(c.auto_temperature),
        list(&[
            c.gamma,
            c.tau,
            c.actor_lr,
            c.critic_lr,
            c.temperature_lr,
            c.alpha,
            c.target_entropy,
            c.max_grad_norm,
        ]),
    ]);
    let bytes = serde_json::to_vec(&value).unwrap();
    let v: Value = serde_json::from_slice(&bytes).unwrap();
    let temperature = read_list(&v[2]);
    let rates = read_list(&v[15]);
    let width = |i: usize| v[12][i].as_u64().unwrap() as usize;
    let count = |i: usize| v[3][i].as_u64().unwrap();
    let size = |i: usize| v[5][i].as_u64().unwrap() as usize;
    let flags = |i: usize| -> Vec<bool> {
        v[i].as_array().unwrap().iter().map(|x| x.as_bool().unwrap()).collect()
    };
    Sac {
        config: SacConfig {
            obs_dim: width(0),
            hidden: width(1),
            replay_capacity: width(2),
            batch_size: width(3),
            warmup_steps: v[13].as_u64().unwrap(),
            gamma: rates[0],
            tau: rates[1],
            actor_lr: rates[2],
            critic_lr: rates[3],
            temperature_lr: rates[4],
            alpha: rates[5],
            auto_temperature: v[14].as_bool().unwrap(),
            target_entropy: rates[6],
            max_grad_norm: rates[7],
        },
        actor: read_net(&v[0][0]),
        q1: read_net(&v[0][1]),
        q2: read_net(&v[0][2]),
        target_q1: read_net(&v[0][3]),
        target_q2: read_net(&v[0][4]),
        actor_optimizer: read_adam(&v[1][0]),
        q1_optimizer: read_adam(&v[1][1]),
        q2_optimizer: read_adam(&v[1][2]),
        log_alpha: temperature[0],
        temperature_optimizer: TemperatureAdam {
            moment: temperature[1],
            variance: temperature[2],
            step: count(0),
        },
        rng: Rng { state: count(1), spare: v[4].as_f64().map(|x| R(x as f32)) },
        replay: ReplayBuffer {
            capacity: size(0),
            obs_dim: size(1),
            observations: read_list(&v[6]),
            next_observations: read_list(&v[7]),
            actions: read_list(&v[8]).chunks(2).map(|a| [a[0], a[1]]).collect(),
            rewards: read_list(&v[9]),
            terminated: flags(10),
            truncated: flags(11),
            len: size(2),
            cursor: size(3),
        },
        environment_steps: count(2),
        updates: count(3),
        scratch: None,
    }
}

#[test]
fn replay_overwrites_oldest_and_preserves_end_flags() {
    let mut replay: ReplayBuffer<R> = ReplayBuffer::new(3, 1);
    for i in 0..5 {
        replay.push(
            &reals(&[i as f32]),
            [R(0.1), R(-0.1)],
            R(i as f32),
            &reals(&[i as f32 + 1.0]),
            i == 4,
            i == 3,
        );
    }
    assert_eq!(replay.len(), 3);
    assert_eq!(replay.cursor, 2);
    assert_eq!(replay.transition(0).observation, &[R(3.0)]);
    assert!(replay.transition(0).truncated);
    assert!(!replay.transition(0).terminated);
    assert_eq!(replay.transition(1).observation, &[R(4.0)]);
    assert!(replay.transition(1).terminated);
    assert_eq!(replay.transition(2).observation, &[R(2.0)]);
    let mut rng: Rng<R> = Rng::new(9);
    for _ in 0..100 {
        assert!(replay.sample_index(&mut rng) < 3);
    }
}

#[test]
fn truncation_bootstraps_but_termination_does_not() {
    let mut replay: ReplayBuffer<R> = ReplayBuffer::new(2, 1);
    let still = [R(0.0), R(0.0)];
    replay.push(&[R(0.0)], still, R(2.0), &[R(1.0)], false, true);
    replay.push(&[R(0.0)], still, R(2.0), &[R(1.0)], true, false);
    let truncated = replay.transition(0);
    let terminated = replay.transition(1);
    assert_eq!(
        bellman_target(truncated.reward, truncated.terminated, R(0.9), R(10.0)),
        R(11.0)
    );
    assert_eq!(
        bellman_target(terminated.reward, terminated.terminated, R(0.9), R(10.0)),
        R(2.0)
    );
}

#[test]
fn pathwise_policy_gradient_matches_finite_difference() {
    let output = [0.3f32, -0.4, -0.2, 0.1];
    let noise = [R(0.7), R(-0.9)];
    let q_gradient = [1.7f32, -0.8];
    let alpha = 0.2f32;
    let sample = sample_policy(&reals(&output), noise);
    let analytic = policy_output_gradient(&sample, &reals(&q_gradient), R(alpha), R(1.0));
    let objective = |values: &[f32]| {
        let sample = sample_policy(&reals(values), noise);
        alpha * sample.log_prob.0
            - q_gradient[0] * sample.action[0].0
            - q_gradient[1] * sample.action[1].0
    };
    for i in 0..4 {
        let mut plus = output;
        let mut minus = output;
        plus[i] += 1e-3;
        minus[i] -= 1e-3;
        let numeric = (objective(&plus) - objective(&minus)) / 2e-3;
        assert!(
            (numeric - analytic[i].0).abs() < 3e-4,
            "gradient {i}: {numeric} != {}",
            analytic[i].0
        );
    }
    let saturated = sample_policy(&reals(&[50.0, -50.0, 3.0, -10.0]), noise);
    assert!(saturated.log_prob.0.is_finite());
    assert_eq!(saturated.log_std_derivative, [R(0.0), R(0.0)]);
}

#[test]
fn updates_change_actor_critics_targets_and_keep_losses_finite() {
    let mut sac: Sac<R> = Sac::new(test_config(), 19);
    fill_replay(&mut sac);
    let actor_before = sac.actor.parameters().to_vec();
    let q1_before = sac.q1.parameters().to_vec();
    let q2_before = sac.q2.parameters().to_vec();
    let target_before = sac.target_q1.parameters().to_vec();
    let alpha_before = sac.alpha();
    for _ in 0..12 {
        let metrics = sac.update().unwrap();
        assert!(metrics.applied);
        assert!(metrics.actor_loss.0.is_finite() && metrics.critic_loss.0.is_finite());
        assert!(metrics.actor_grad_norm.0 > 0.0 && metrics.critic_grad_norm.0 > 0.0);
    }
    assert_ne!(actor_before, sac.actor.parameters());
    assert_ne!(q1_before, sac.q1.parameters());
    assert_ne!(q2_before, sac.q2.parameters());
    assert_ne!(target_before, sac.target_q1.parameters());
    assert_eq!(alpha_before, sac.alpha());
    assert_eq!(sac.updates, 12);
    assert!(sac
        .action(&reals(&[0.2, 0.1, 1.0]), false)
        .iter()
        .all(|a| (-1.0..=1.0).contains(&a.0)));
}

#[test]
fn target_network_interpolates_after_online_update() {
    let mut config = test_config();
    config.tau = R(0.25);
    let mut sac: Sac<R> = Sac::new(config, 31);
    fill_replay(&mut sac);
    let old_target = sac.target_q1.parameters().to_vec();
    assert!(sac.update().unwrap().applied);
    for ((old, online), target) in
        old_target.iter().zip(sac.q1.parameters()).zip(sac.target_q1.parameters())
    {
        assert!((target.0 - (0.75 * old.0 + 0.25 * online.0)).abs() < 1e-6);
    }
}

#[test]
fn automatic_temperature_updates_and_checkpoint_resumes_exactly() {
    let mut config = test_config();
    config.auto_temperature = true;
    let mut sac: Sac<R> = Sac::new(config, 51);
    fill_replay(&mut sac);
    let original_alpha = sac.alpha();
    assert!(sac.update().unwrap().applied);
    assert_ne!(original_alpha, sac.alpha());
    let mut resumed = through_json(&sac);
    assert!(resumed.is_consistent());
    assert_eq!(sac.replay_len(), resumed.replay_len());
    for _ in 0..4 {
        assert_eq!(
            sac.action(&reals(&[0.2, 0.1, 1.0]), false),
            resumed.action(&reals(&[0.2, 0.1, 1.0]), false)
        );
        let a = sac.update().unwrap();
        let b = resumed.update().unwrap();
        assert_eq!(a.actor_loss, b.actor_loss);
        assert_eq!(a.critic_loss, b.critic_loss);
        assert_eq!(a.alpha, b.alpha);
        assert_eq!(sac.actor.parameters(), resumed.actor.parameters());
        assert_eq!(sac.q1.parameters(), resumed.q1.parameters());
        assert_eq!(sac.target_q2.parameters(), resumed.target_q2.parameters());
    }
}

#[test]
fn warmup_requires_sufficient_data_and_deterministic_action_does_not_use_rng() {
    let mut config = test_config();
    config.warmup_steps = 25;
    let mut sac: Sac<R> = Sac::new(config, 81);
    fill_replay(&mut sac);
    assert!(sac.update().is_none());
    let mut other = through_json(&sac);
    let deterministic = sac.action(&reals(&[0.2, 0.1, 1.0]), true);
    assert_eq!(deterministic, sac.action(&reals(&[0.2, 0.1, 1.0]), true));
    assert_eq!(
        sac.action(&reals(&[0.2, 0.1, 1.0]), false),
        other.action(&reals(&[0.2, 0.1, 1.0]), false)
    );
    sac.observe(&reals(&[0.0; 3]), [R(0.0); 2], R(0.0), &reals(&[0.0; 3]), false, false);
    assert!(sac.update().unwrap().applied);
}

#[test]
fn settings_that_cannot_be_used_are_named() {
    let complaint = |change: fn(&mut SacConfig<R>)| {
        let mut config = test_config();
        change(&mut config);
        config.validate().unwrap_err()
    };
    assert!(test_config().validate().is_ok());
    assert!(SacConfig::<R>::default().validate().is_ok());
    let sizes = "observation and hidden dimensions must be positive";
    assert_eq!(complaint(|c| c.obs_dim = 0), sizes);
    assert_eq!(complaint(|c| c.hidden = 0), sizes);
    let batch = "replay capacity must be at least the positive batch size";
    assert_eq!(complaint(|c| c.batch_size = 0), batch);
    assert_eq!(complaint(|c| c.replay_capacity = 7), batch);
    let shares = "gamma and tau must lie in [0, 1]";
    assert_eq!(complaint(|c| c.gamma = R(1.5)), shares);
    assert_eq!(complaint(|c| c.tau = R(f32::NAN)), shares);
    let rates = "learning rates, alpha, and gradient limit must be positive and finite";
    assert_eq!(complaint(|c| c.critic_lr = R(0.0)), rates);
    assert_eq!(complaint(|c| c.max_grad_norm = R(f32::INFINITY)), rates);
    assert_eq!(
        complaint(|c| c.target_entropy = R(f32::NEG_INFINITY)),
        "target entropy must be finite"
    );
}

#[test]
fn a_fixed_temperature_stays_where_it_is() {
    let mut sac: Sac<R> = Sac::new(test_config(), 3);
    fill_replay(&mut sac);
    let log_alpha = sac.log_alpha;
    let metrics = sac.update().unwrap();
    assert_eq!(metrics.alpha, test_config().alpha);
    assert_eq!(sac.log_alpha, log_alpha);
    assert_eq!(sac.temperature_optimizer.step, 0);
}

#[test]
fn broken_updates_are_rejected_and_change_no_network() {
    let mut sac: Sac<R> = Sac::new(test_config(), 3);
    fill_replay(&mut sac);
    sac.replay.rewards.fill(R(f32::INFINITY));
    let before = sac.q1.parameters().to_vec();
    let metrics = sac.update().unwrap();
    assert!(!metrics.applied);
    assert_eq!(sac.q1.parameters(), &before[..]);
    assert_eq!(sac.updates, 0);
}

#[test]
fn warm_up_actions_are_drawn_and_counted_by_observations() {
    let mut config = test_config();
    config.warmup_steps = 100;
    let mut sac: Sac<R> = Sac::new(config, 5);
    let mut twin: Sac<R> = Sac::new(config, 5);
    let a = Agent::action(&mut sac, &reals(&[0.2, 0.1, 1.0]));
    assert_eq!(a, twin.action(&reals(&[-3.0, 2.0, 0.0]), false));
    assert!(a.iter().all(|x| (-1.0..=1.0).contains(&x.0)));
    assert_eq!(sac.environment_steps, 0);
    fill_replay(&mut sac);
    assert_eq!((sac.environment_steps, sac.replay_len()), (24, 24));
}

#[test]
fn pushes_ask_for_sound_transitions() {
    let replay: ReplayBuffer<R> = ReplayBuffer::new(2, 2);
    let still = [R(0.0), R(0.0)];
    assert!(replay.is_empty() && replay.is_consistent());
    assert_eq!((replay.capacity(), ACTION_DIM), (2, 2));
    assert!(replay.accepts(&reals(&[1.0, 2.0]), still, R(0.0), &reals(&[1.0, 2.0])));
    assert!(!replay.accepts(&reals(&[1.0]), still, R(0.0), &reals(&[1.0, 2.0])));
    assert!(!replay.accepts(&reals(&[1.0, 2.0]), still, R(f32::NAN), &reals(&[1.0, 2.0])));
    assert!(!replay.accepts(&reals(&[1.0, 2.0]), [R(f32::NAN); 2], R(0.0), &reals(&[1.0, 2.0])));
}

#[test]
fn inconsistent_parts_are_found() {
    let mut sac: Sac<R> = Sac::new(test_config(), 3);
    assert!(sac.is_consistent());
    sac.replay.len = 5;
    assert!(!sac.is_consistent());
    sac.replay.len = 0;
    sac.q1.parameters.pop();
    assert!(!sac.is_consistent());
}

#[test]
fn policies_are_squashed_and_gradients_clipped() {
    let s = sample_policy(&reals(&[0.0, 0.0, 0.0, 0.0]), [R(0.0), R(0.0)]);
    assert_eq!(s.action, [R(0.0), R(0.0)]);
    assert!((s.log_prob.0 + (2.0 * std::f32::consts::PI).ln()).abs() < 1e-5);
    assert!((softplus(R(0.0)).0 - 2f32.ln()).abs() < 1e-6);
    assert_eq!(softplus(R(40.0)), R(40.0));
    let mut g: MlpGrad<R> = MlpGrad { data: reals(&[6.0, 8.0]) };
    assert_eq!(clip_gradient(&mut g, R(5.0)), R(10.0));
    assert_eq!(g.data, reals(&[3.0, 4.0]));
    assert_eq!(clip_gradient(&mut g, R(50.0)), R(5.0));
    assert_eq!(g.data, reals(&[3.0, 4.0]));
}

#[test]
fn the_temperature_moves_against_its_gradient() {
    let mut t: TemperatureAdam<R> = TemperatureAdam::new();
    let mut x = R(1.0);
    assert!(t.update(&mut x, R(4.0), R(0.1)));
    assert!((x.0 - 0.9).abs() < 1e-5);
    assert_eq!(t.step, 1);
    let kept = x;
    assert!(!t.update(&mut x, R(f32::NAN), R(0.1)));
    assert_eq!((x, t.step), (kept, 1));
}

#[test]
fn default_trainers_take_sixteen_numbers() {
    let mut sac: Sac<R> = Sac::default();
    assert_eq!(sac.config.obs_dim, 16);
    assert!(sac.is_consistent());
    assert_eq!(sac.action(&[R(0.1); 16], true).len(), 2);
}

#[test]
fn the_target_share_matters_only_where_there_is_enough_to_learn_from() {
    let mut sac: Sac<R> = Sac::new(test_config(), 3);
    sac.config.tau = R(2.0);
    assert!(sac.update().is_none());
    assert_eq!(sac.updates, 0);
}

#[test]
fn resumed_trainers_agree_on_whatever_is_done_with_them() {
    let mut config = test_config();
    config.warmup_steps = 30;
    let mut a: Sac<R> = Sac::new(config, 12);
    fill_replay(&mut a);
    let mut b = through_json(&a);
    for i in 0..12 {
        let obs = reals(&[0.1 * i as f32, 0.4, 1.0]);
        assert_eq!(a.action(&obs, true), b.action(&obs, true));
        let action = a.action(&obs, false);
        assert_eq!(action, b.action(&obs, false));
        a.observe(&obs, action, R(0.5), &obs, false, false);
        b.observe(&obs, action, R(0.5), &obs, false, false);
        match (a.update(), b.update()) {
            (Some(x), Some(y)) => assert_eq!(
                (x.critic_loss, x.actor_loss, x.entropy, x.applied),
                (y.critic_loss, y.actor_loss, y.entropy, y.applied)
            ),
            (x, y) => assert!(x.is_none() && y.is_none()),
        }
        assert_eq!(a.q2.parameters(), b.q2.parameters());
        assert_eq!(a.rng.state, b.rng.state);
    }
    assert_eq!(a.updates, 7);
}
