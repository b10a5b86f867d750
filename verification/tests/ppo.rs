use push_learn::num::Scalar;
use push_learn::rl::rollout::collect;
use push_learn::rl::{Adam, Agent, Environment, Mlp, Ppo, PpoConfig, Rng, StepResult};
use serde_json::Value;

/// Single-precision numbers.
#[derive(Clone, Copy, Debug, PartialEq)]
struct R(f32);

impl Scalar for R {
    type Wide = f64;
    fn from_count(n: u64) -> R {
        R(n as f32)
    }
    fn from_ratio(n: u64, d: u64) -> R {
        R(n as f32 / d as f32)
    }
    fn plus(self, other: R) -> R {
        R(self.0 + other.0)
    }
    fn minus(self, other: R) -> R {
        R(self.0 - other.0)
    }
    fn times(self, other: R) -> R {
        R(self.0 * other.0)
    }
    fn over(self, other: R) -> R {
        R(self.0 / other.0)
    }
    fn neg(self) -> R {
        R(-self.0)
    }
    fn abs(self) -> R {
        R(self.0.abs())
    }
    fn square(self) -> R {
        R(self.0.powi(2))
    }
    fn sqrt(self) -> R {
        R(self.0.sqrt())
    }
    fn exp(self) -> R {
        R(self.0.exp())
    }
    fn ln(self) -> R {
        R(self.0.ln())
    }
    fn ln_1p(self) -> R {
        R(self.0.ln_1p())
    }
    fn sin(self) -> R {
        R(self.0.sin())
    }
    fn cos(self) -> R {
        R(self.0.cos())
    }
    fn acos(self) -> R {
        R(self.0.acos())
    }
    fn atan2(self, other: R) -> R {
        R(self.0.atan2(other.0))
    }
    fn tanh(self) -> R {
        R(self.0.tanh())
    }
    fn atanh(self) -> R {
        R(self.0.atanh())
    }
    fn powf(self, other: R) -> R {
        R(self.0.powf(other.0))
    }
    fn hypot(self, other: R) -> R {
        R(self.0.hypot(other.0))
    }
    fn max(self, other: R) -> R {
        R(self.0.max(other.0))
    }
    fn min(self, other: R) -> R {
        R(self.0.min(other.0))
    }
    fn floor(self) -> R {
        R(self.0.floor())
    }
    fn round(self) -> R {
        R(self.0.round())
    }
    fn to_u32(self) -> u32 {
        self.0 as u32
    }
    fn to_u64(self) -> u64 {
        self.0 as u64
    }
    fn less(self, other: R) -> bool {
        self.0 < other.0
    }
    fn at_most(self, other: R) -> bool {
        self.0 <= other.0
    }
    fn is_finite(self) -> bool {
        self.0.is_finite()
    }
    fn wide_zero() -> f64 {
        0.0
    }
    fn wide_plus_square(total: f64, x: R) -> f64 {
        total + (x.0 as f64).powi(2)
    }
    fn wide_root(total: f64) -> R {
        R(total.sqrt() as f32)
    }
}

struct Bandit {
    x: f32,
    n: usize,
}
impl Environment<R> for Bandit {
    fn obs_dim(&self) -> usize {
        1
    }
    fn observe(&self, out: &mut [R]) {
        out[0] = R(self.x)
    }
    fn step_env(&mut self, a: [R; 2]) -> StepResult<R> {
        self.n += 1;
        StepResult {
            reward: R(1.0 - (a[0].0 - 0.7).powi(2)),
            terminated: true,
            truncated: false,
            success: true,
        }
    }
    fn reset_env(&mut self) {
        self.n = 0;
    }
}

#[test]
fn ppo_updates_weights_and_checkpoint_rehydrates_workspaces() {
    let mut cfg: PpoConfig<R> = PpoConfig::default();
    cfg.hidden = 8;
    cfg.epochs = 2;
    cfg.minibatch_size = 8;
    cfg.learning_rate = R(1e-3);
    let mut p: Ppo<R> = Ppo::new(1, cfg, 9);
    let before = p.actor.parameters().to_vec();
    let mut e = (0..4).map(|_| Bandit { x: 1., n: 0 }).collect::<Vec<_>>();
    let st = p.train(&mut e, 8);
    assert!(st.updates > 0);
    assert!(p.actor.parameters().iter().zip(before).any(|(a, b)| a != &b));
    let s = save_json(&p);
    let mut q = load_json(&s);
    assert_eq!(q.actor.parameters(), p.actor.parameters());
    assert_eq!(q.deterministic_action(&[R(1.)]), p.deterministic_action(&[R(1.)]));
}

fn list(v: &[R]) -> Value {
    Value::from(v.iter().map(|x| x.0).collect::<Vec<f32>>())
}

fn read_list(v: &Value) -> Vec<R> {
    v.as_array().unwrap().iter().map(|x| R(x.as_f64().unwrap() as f32)).collect()
}

fn net(m: &Mlp<R>) -> Value {
    Value::from(vec![Value::from(vec![m.input, m.hidden, m.output]), list(&m.parameters)])
}

fn read_net(v: &Value) -> Mlp<R> {
    let size = |i: usize| v[0][i].as_u64().unwrap() as usize;
    Mlp { input: size(0), hidden: size(1), output: size(2), parameters: read_list(&v[1]) }
}

fn adam(a: &Adam<R>) -> Value {
    Value::from(vec![
        Value::from(a.step),
        list(&[a.learning_rate, a.beta1_power, a.beta2_power]),
        list(&a.m),
        list(&a.v),
    ])
}

fn read_adam(v: &Value) -> Adam<R> {
    let rates = read_list(&v[1]);
    Adam {
        learning_rate: rates[0],
        step: v[0].as_u64().unwrap(),
        beta1_power: rates[1],
        beta2_power: rates[2],
        m: read_list(&v[2]),
        v: read_list(&v[3]),
    }
}

/// A checkpoint of everything but the workspaces.
fn save_json(p: &Ppo<R>) -> String {
    let c = &p.config;
    let value = Value::from(vec![
        net(&p.actor),
        net(&p.critic),
        adam(&p.actor_optimizer),
        adam(&p.critic_optimizer),
        Value::from(p.rng.state),
        match p.rng.spare {
            Some(x) => Value::from(x.0),
            None => Value::Null,
        },
        Value::from(vec![c.hidden, c.epochs, c.minibatch_size]),
        Value::from(c.parallel),
        list(&[
            c.learning_rate,
            c.gamma,
            c.gae_lambda,
            c.clip_ratio,
            c.value_clip,
            c.entropy_coef,
            c.value_coef,
            c.max_grad_norm,
        ]),
    ]);
    serde_json::to_string(&value).unwrap()
}

fn load_json(s: &str) -> Ppo<R> {
    let v: Value = serde_json::from_str(s).unwrap();
    let size = |i: usize| v[6][i].as_u64().unwrap() as usize;
    let rates = read_list(&v[8]);
    Ppo {
        actor: read_net(&v[0]),
        critic: read_net(&v[1]),
        actor_optimizer: read_adam(&v[2]),
        critic_optimizer: read_adam(&v[3]),
        rng: Rng { state: v[4].as_u64().unwrap(), spare: v[5].as_f64().map(|x| R(x as f32)) },
        config: PpoConfig {
            hidden: size(0),
            learning_rate: rates[0],
            gamma: rates[1],
            gae_lambda: rates[2],
            clip_ratio: rates[3],
            value_clip: rates[4],
            entropy_coef: rates[5],
            value_coef: rates[6],
            max_grad_norm: rates[7],
            epochs: size(1),
            minibatch_size: size(2),
            parallel: v[7].as_bool().unwrap(),
        },
        actor_workspace: None,
        critic_workspace: None,
    }
}

#[test]
fn learners_go_on_from_a_checkpoint_as_if_nothing_had_happened() {
    let mut p = learner(true);
    let bandits = || (0..3).map(|i| Bandit { x: 0.2 * i as f32, n: 0 }).collect::<Vec<_>>();
    p.train(&mut bandits(), 8);
    let mut q = load_json(&save_json(&p));
    let mut twin = p.clone();
    assert!(q.is_consistent());
    let a = p.train(&mut bandits(), 8);
    let b = q.train(&mut bandits(), 8);
    twin.train(&mut bandits(), 8);
    assert_eq!((a.reward_sum, a.policy_loss, a.value_loss), (b.reward_sum, b.policy_loss, b.value_loss));
    assert_eq!(p.actor.parameters(), q.actor.parameters());
    assert_eq!(p.actor.parameters(), twin.actor.parameters());
    assert_eq!(p.action(&[R(0.5)]), q.action(&[R(0.5)]));
}

#[test]
fn settings_whose_bounds_are_out_of_order_are_found() {
    let mut config: PpoConfig<R> = PpoConfig::default();
    assert!(config.has_ordered_bounds());
    config.clip_ratio = R(-0.1);
    assert!(!config.has_ordered_bounds());
    config.clip_ratio = R(0.2);
    config.value_clip = R(f32::NAN);
    assert!(!config.has_ordered_bounds());
}

#[test]
fn default_learners_take_sixteen_numbers() {
    let mut p: Ppo<R> = Ppo::default();
    assert_eq!((p.actor.input_dim(), p.config.hidden, p.config.epochs), (16, 32, 4));
    assert_eq!(p.config.gamma, R(0.99));
    assert!(p.deterministic_action(&[R(0.1); 16]).iter().all(|x| x.0.abs() <= 1.0));
}

fn learner(parallel: bool) -> Ppo<R> {
    let mut cfg: PpoConfig<R> = PpoConfig::default();
    cfg.hidden = 8;
    cfg.minibatch_size = 8;
    cfg.parallel = parallel;
    Ppo::new(1, cfg, 5)
}

#[test]
fn rolling_out_at_once_and_in_turn_comes_to_the_same() {
    let bandits = || {
        (0..5).map(|i| Bandit { x: 0.1 * i as f32, n: 0 }).collect::<Vec<_>>()
    };
    let mut a = learner(true);
    let mut b = learner(false);
    let sa = a.train(&mut bandits(), 16);
    let sb = b.train(&mut bandits(), 16);
    assert_eq!(sa.steps, 80);
    assert_eq!(sa.episodes, 80);
    assert_eq!(sa.successes, 80);
    assert_eq!(sa.reward_sum, sb.reward_sum);
    assert_eq!(sa.policy_loss, sb.policy_loss);
    assert_eq!(a.actor.parameters(), b.actor.parameters());
    assert_eq!(a.critic.parameters(), b.critic.parameters());
    assert_eq!(a.rng.state, b.rng.state);
}

#[test]
fn a_round_without_environments_does_nothing() {
    let mut p = learner(true);
    let before = p.actor.parameters().to_vec();
    let mut none: Vec<Bandit> = Vec::new();
    let s = p.train(&mut none, 8);
    assert_eq!((s.steps, s.updates, s.episodes), (0, 0, 0));
    let mut one = vec![Bandit { x: 1.0, n: 0 }];
    let s = p.train(&mut one, 0);
    assert_eq!((s.steps, s.updates, s.episodes), (0, 0, 0));
    assert_eq!(p.actor.parameters(), &before[..]);
    assert_eq!(one[0].n, 0);
}

#[test]
fn drawn_actions_move_the_stream_and_preferred_ones_do_not() {
    let mut p = learner(true);
    let state = p.rng.state;
    let a = p.deterministic_action(&[R(0.3)]);
    assert_eq!(a, p.deterministic_action(&[R(0.3)]));
    assert_eq!(p.rng.state, state);
    let b = p.action(&[R(0.3)]);
    assert!(b.iter().all(|x| (-1.0..=1.0).contains(&x.0)));
    assert_ne!(p.rng.state, state);
}

/// Episodes of two decisions that end by themselves or are cut short.
struct Short {
    n: usize,
    cut: bool,
}
impl Environment<R> for Short {
    fn obs_dim(&self) -> usize {
        1
    }
    fn observe(&self, out: &mut [R]) {
        out[0] = R(0.3 + 0.4 * self.n as f32)
    }
    fn step_env(&mut self, _a: [R; 2]) -> StepResult<R> {
        self.n += 1;
        let over = self.n == 2;
        StepResult {
            reward: R(self.n as f32),
            terminated: over && !self.cut,
            truncated: over && self.cut,
            success: over,
        }
    }
    fn reset_env(&mut self) {
        self.n = 0;
    }
}

#[test]
fn cut_episodes_bootstrap_finished_ones_do_not_and_none_leaks_into_the_next() {
    let p = learner(true);
    let (gamma, lambda) = (R(0.9), R(0.8));
    let roll = |cut: bool, steps: usize| {
        let mut env = Short { n: 0, cut };
        collect(&mut env, &p.actor, &p.critic, steps, 3, gamma, lambda)
    };
    let value = |x: f32| {
        let mut w = p.critic.workspace();
        p.critic.forward(&[R(x)], &mut w)[0].0
    };
    let ended = roll(false, 4);
    let cut = roll(true, 4);
    assert_eq!(ended.dones, vec![false, true, false, true]);
    assert_eq!(ended.rewards, vec![R(1.0), R(2.0), R(1.0), R(2.0)]);
    assert_eq!((ended.episodes, ended.successes, ended.reward_sum), (2, 2, R(6.0)));
    assert_eq!((ended.next_values[1], ended.next_values[3]), (R(0.0), R(0.0)));
    assert_eq!(cut.next_values[1], R(value(1.1)));
    assert_eq!(ended.advantages[1], R(2.0 + 0.9 * 0.0 - value(0.7)));
    assert_eq!(cut.advantages[1], R(2.0 + 0.9 * value(1.1) - value(0.7)));
    assert_eq!(ended.value_targets[1], R(value(0.7) + ended.advantages[1].0));
    let shorter = roll(false, 2);
    assert_eq!(shorter.advantages[..], ended.advantages[..2]);
    let wider = ended.advantages[0].0;
    let first = 1.0 + 0.9 * value(0.7) - value(0.3);
    assert_eq!(R(wider), R(first + 0.9 * 0.8 * ended.advantages[1].0));
}
