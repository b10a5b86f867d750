use push_learn::num::Scalar;
use push_learn::rl::{Mlp, Rng};
use push_learn::world::{
    Dataset, Episode, EpisodeSplit, Transition, WorldConfig, WorldMetrics, WorldModel,
};
use serde_json::Value;

/// Single-precision numbers.
#[derive(Clone, Copy, Debug, PartialEq)]
struct R(f32);

impl Scalar for R {
    type Wide = f64;
    fn from_count(n: u64) -> R {
        R(n as f32)
    }
    fn from_ratio(n: u64, d: u64) -> R {
        R(n as f32 / d as f32)
    }
    fn plus(self, other: R) -> R {
        R(self.0 + other.0)
    }
    fn minus(self, other: R) -> R {
        R(self.0 - other.0)
    }
    fn times(self, other: R) -> R {
        R(self.0 * other.0)
    }
    fn over(self, other: R) -> R {
        R(self.0 / other.0)
    }
    fn neg(self) -> R {
        R(-self.0)
    }
    fn abs(self) -> R {
        R(self.0.abs())
    }
    fn square(self) -> R {
        R(self.0.powi(2))
    }
    fn sqrt(self) -> R {
        R(self.0.sqrt())
    }
    fn exp(self) -> R {
        R(self.0.exp())
    }
    fn ln(self) -> R {
        R(self.0.ln())
    }
    fn ln_1p(self) -> R {
        R(self.0.ln_1p())
    }
    fn sin(self) -> R {
        R(self.0.sin())
    }
    fn cos(self) -> R {
        R(self.0.cos())
    }
    fn acos(self) -> R {
        R(self.0.acos())
    }
    fn atan2(self, other: R) -> R {
        R(self.0.atan2(other.0))
    }
    fn tanh(self) -> R {
        R(self.0.tanh())
    }
    fn atanh(self) -> R {
        R(self.0.atanh())
    }
    fn powf(self, other: R) -> R {
        R(self.0.powf(other.0))
    }
    fn hypot(self, other: R) -> R {
        R(self.0.hypot(other.0))
    }
    fn max(self, other: R) -> R {
        R(self.0.max(other.0))
    }
    fn min(self, other: R) -> R {
        R(self.0.min(other.0))
    }
    fn floor(self) -> R {
        R(self.0.floor())
    }
    fn round(self) -> R {
        R(self.0.round())
    }
    fn to_u32(self) -> u32 {
        self.0 as u32
    }
    fn to_u64(self) -> u64 {
        self.0 as u64
    }
    fn less(self, other: R) -> bool {
        self.0 < other.0
    }
    fn at_most(self, other: R) -> bool {
        self.0 <= other.0
    }
    fn is_finite(self) -> bool {
        self.0.is_finite()
    }
    fn wide_zero() -> f64 {
        0.0
    }
    fn wide_plus_square(total: f64, x: R) -> f64 {
        total + (x.0 as f64).powi(2)
    }
    fn wide_root(total: f64) -> R {
        R(total.sqrt() as f32)
    }
}

fn reals(values: &[f32]) -> Vec<R> {
    values.iter().map(|&x| R(x)).collect()
}

fn synthetic() -> Dataset<R> {
    let mut rng: Rng<R> = Rng::new(7);
    let episodes = (0..20)
        .map(|id| {
            let mut state = vec![rng.uniform().0 * 2.0 - 1.0, rng.uniform().0 * 2.0 - 1.0];
            let transitions = (0..20)
                .map(|_| {
                    let action = [rng.uniform().0 * 2.0 - 1.0, rng.uniform().0 * 2.0 - 1.0];
                    let next = vec![state[0] + 0.1 * action[0], state[1] + 0.2 * action[1]];
                    let t = Transition {
                        state: reals(&state),
                        action: [R(action[0]), R(action[1])],
                        next_state: reals(&next),
                        reward: R(0.0),
                        terminated: false,
                        truncated: false,
                    };
                    state = next;
                    t
                })
                .collect();
            Episode { id, seed: id, transitions }
        })
        .collect();
    Dataset {
        version: "push-state-dataset-v1".into(),
        config_hash: "test".into(),
        state_dim: 2,
        episodes,
    }
}

fn small() -> WorldConfig<R> {
    WorldConfig {
        members: 2,
        hidden: 16,
        epochs: 35,
        batch_size: 32,
        predicted_indices: vec![0, 1],
        time_index: None,
        hold_index: None,
        ..Default::default()
    }
}

#[test]
fn split_is_episode_disjoint() {
    let d = synthetic();
    let s = d.split(7);
    let all: std::collections::HashSet<_> =
        s.train.iter().chain(&s.validation).chain(&s.test).collect();
    assert_eq!(all.len(), d.episodes.len());
    assert!(!s.test.is_empty());
}

fn list(v: &[R]) -> Value {
    Value::from(v.iter().map(|x| x.0).collect::<Vec<f32>>())
}

fn read_list(v: &Value) -> Vec<R> {
    v.as_array().unwrap().iter().map(|x| R(x.as_f64().unwrap() as f32)).collect()
}

/// Writes a model and reads it again.
fn through_json(m: &WorldModel<R>) -> WorldModel<R> {
    let c = &m.config;
    let nets: Vec<Value> = m
        .members
        .iter()
        .map(|n| Value::from(vec![Value::from(vec![n.input, n.hidden, n.output]), list(&n.parameters)]))
        .collect();
    let value = Value::from(vec![
        Value::from(nets),
        list(&m.input_mean),
        list(&m.input_std),
        list(&m.delta_mean),
        list(&m.delta_std),
        Value::from(m.state_dim),
        Value::from(m.config.predicted_indices.clone()),
        Value::from(vec![m.version.clone(), m.config_hash.clone()]),
        Value::from(vec![c.members, c.hidden, c.epochs, c.batch_size]),
        list(&[c.learning_rate, c.decision_dt]),
        Value::from(c.time_index),
        Value::from(c.hold_index),
        Value::from(m.split.train.clone()),
        Value::from(m.split.validation.clone()),
        Value::from(m.split.test.clone()),
        list(&[
            m.metrics.train_normalized_mse,
            m.metrics.validation_normalized_mse,
            m.metrics.test_one_step_mse,
            m.metrics.test_five_step_mse,
        ]),
        Value::from(vec![
            m.metrics.train_episodes,
            m.metrics.validation_episodes,
            m.metrics.test_episodes,
        ]),
    ]);
    let encoded = serde_json::to_string(&value).unwrap();
    let v: Value = serde_json::from_str(&encoded).unwrap();
    let size = |v: &Value| v.as_u64().unwrap() as usize;
    let sizes = |v: &Value| v.as_array().unwrap().iter().map(size).collect::<Vec<usize>>();
    let rates = read_list(&v[9]);
    let errors = read_list(&v[15]);
    WorldModel {
        version: v[7][0].as_str().unwrap().to_string(),
        config_hash: v[7][1].as_str().unwrap().to_string(),
        config: WorldConfig {
            members: size(&v[8][0]),
            hidden: size(&v[8][1]),
            epochs: size(&v[8][2]),
            batch_size: size(&v[8][3]),
            learning_rate: rates[0],
            predicted_indices: sizes(&v[6]),
            time_index: v[10].as_u64().map(|i| i as usize),
            hold_index: v[11].as_u64().map(|i| i as usize),
            decision_dt: rates[1],
        },
        state_dim: size(&v[5]),
        members: v[0]
            .as_array()
            .unwrap()
            .iter()
            .map(|n| Mlp {
                input: size(&n[0][0]),
                hidden: size(&n[0][1]),
                output: size(&n[0][2]),
                parameters: read_list(&n[1]),
            })
            .collect(),
        input_mean: read_list(&v[1]),
        input_std: read_list(&v[2]),
        delta_mean: read_list(&v[3]),
        delta_std: read_list(&v[4]),
        split: EpisodeSplit { train: sizes(&v[12]), validation: sizes(&v[13]), test: sizes(&v[14]) },
        metrics: WorldMetrics {
            train_normalized_mse: errors[0],
            validation_normalized_mse: errors[1],
            test_one_step_mse: errors[2],
            test_five_step_mse: errors[3],
            train_episodes: size(&v[16][0]),
            validation_episodes: size(&v[16][1]),
            test_episodes: size(&v[16][2]),
        },
    }
}

#[test]
fn learns_action_conditioned_delta_and_roundtrips() {
    let d = synthetic();
    let c = small();
    let m: WorldModel<R> = WorldModel::train(&d, c, 4).unwrap();
    assert!(m.metrics.test_one_step_mse.0 < 0.0006, "{:?}", m.metrics);
    let restored = through_json(&m);
    let mut a = [R(0.0); 2];
    let mut b = [R(0.0); 2];
    let mut ws = m.workspace();
    let mut ws2 = restored.workspace();
    m.predict(&reals(&[0.1, 0.2]), [R(0.7), R(-0.4)], &mut a, None, &mut ws);
    restored.predict(&reals(&[0.1, 0.2]), [R(0.7), R(-0.4)], &mut b, None, &mut ws2);
    assert_eq!(a, b);
    assert_eq!(restored.rollout_mse(&d, 5), m.metrics.test_five_step_mse);
    assert_eq!(restored.metrics.test_one_step_mse, m.metrics.test_one_step_mse);
    assert!((a[0].0 - 0.17).abs() < 0.05 && (a[1].0 - 0.12).abs() < 0.05);
}

#[test]
fn training_is_fixed_by_data_settings_and_seed() {
    let d = synthetic();
    let quick = || WorldConfig { epochs: 2, ..small() };
    let a: WorldModel<R> = WorldModel::train(&d, quick(), 4).unwrap();
    let b: WorldModel<R> = WorldModel::train(&d, quick(), 4).unwrap();
    let c: WorldModel<R> = WorldModel::train(&d, quick(), 5).unwrap();
    assert_eq!(a.members[1].parameters, b.members[1].parameters);
    assert_ne!(a.members[1].parameters, c.members[1].parameters);
    assert_ne!(a.members[0].parameters, a.members[1].parameters);
    assert_eq!(a.split.train.len(), a.metrics.train_episodes);
    assert_eq!(a.split.train, d.split(4).train);
    assert_eq!(a.metrics.test_one_step_mse, a.rollout_mse(&d, 1));
    assert_eq!(a.metrics.test_five_step_mse, a.rollout_mse(&d, 5));
    assert!(a.is_consistent());
}

#[test]
fn datasets_with_faults_are_refused_by_name() {
    let complaint = |change: fn(&mut Dataset<R>)| {
        let mut d = synthetic();
        change(&mut d);
        d.validate().unwrap_err()
    };
    assert!(synthetic().validate().is_ok());
    assert_eq!(synthetic().transitions(), 400);
    let whole = "dataset needs version v1, a state dimension and at least 3 episodes";
    assert_eq!(complaint(|d| d.episodes.truncate(2)), whole);
    assert_eq!(complaint(|d| d.state_dim = 0), whole);
    assert_eq!(complaint(|d| d.version = "other".into()), whole);
    let ids = "episode IDs must be unique and episodes nonempty";
    assert_eq!(complaint(|d| d.episodes[4].id = 3), ids);
    assert_eq!(complaint(|d| d.episodes[4].transitions.clear()), ids);
    let numbers = "invalid/nonfinite transition";
    assert_eq!(complaint(|d| d.episodes[4].transitions[1].reward = R(f32::NAN)), numbers);
    assert_eq!(complaint(|d| d.episodes[4].transitions[1].action[0] = R(f32::NAN)), numbers);
    let mut d = synthetic();
    d.episodes[2].transitions[0].next_state.pop();
    assert_eq!(d.validate().unwrap_err(), numbers);
    assert_eq!(WorldModel::train(&d, small(), 4).unwrap_err(), numbers);
}

#[test]
fn ensembles_that_cannot_be_trained_are_refused() {
    let d = synthetic();
    for bad in [
        WorldConfig { members: 1, ..small() },
        WorldConfig { hidden: 0, ..small() },
        WorldConfig { epochs: 0, ..small() },
        WorldConfig { batch_size: 0, ..small() },
        WorldConfig { predicted_indices: vec![], ..small() },
        WorldConfig { predicted_indices: vec![0, 2], ..small() },
        WorldConfig { learning_rate: R(0.0), ..small() },
    ] {
        assert_eq!(
            WorldModel::<R>::train(&d, bad, 4).unwrap_err(),
            "invalid world configuration"
        );
    }
    assert!(small().is_valid(2) && !small().is_valid(1));
    assert!(small().is_manageable(&d));
    assert!(!WorldConfig { time_index: Some(2), ..small() }.is_manageable(&d));
}

/// Members that each add a constant.
fn constant_model(shifts: &[f32]) -> WorldModel<R> {
    WorldModel {
        version: "test".into(),
        config_hash: "test".into(),
        config: WorldConfig {
            members: shifts.len(),
            hidden: 1,
            predicted_indices: vec![1],
            time_index: Some(0),
            hold_index: Some(2),
            decision_dt: R(0.5),
            ..Default::default()
        },
        state_dim: 3,
        members: shifts
            .iter()
            .map(|&s| Mlp {
                input: 5,
                hidden: 1,
                output: 1,
                parameters: {
                    let mut p = vec![R(0.0); 10];
                    p[9] = R(s);
                    p
                },
            })
            .collect(),
        input_mean: vec![R(0.0); 5],
        input_std: vec![R(1.0); 5],
        delta_mean: vec![R(0.25)],
        delta_std: vec![R(2.0)],
        split: EpisodeSplit { train: vec![], validation: vec![], test: vec![] },
        metrics: Default::default(),
    }
}

#[test]
fn predictions_average_the_members_and_keep_the_clocks() {
    let m = constant_model(&[1.0, 3.0]);
    assert!(m.is_consistent());
    let mut ws = m.workspace();
    let mut next = vec![R(9.0); 3];
    let doubt =
        m.predict(&reals(&[1.0, 2.0, 4.0]), [R(0.0), R(0.0)], &mut next, None, &mut ws);
    assert_eq!(next[0], R(1.5));
    assert_eq!(next[1], R(2.0 + 0.25 + 2.0 * 2.0));
    assert_eq!(next[2], R(4.0));
    assert!((doubt.0 - 1.0).abs() < 1e-6);
    let mut one = vec![R(9.0); 3];
    m.predict(&reals(&[1.0, 2.0, 4.0]), [R(0.0), R(0.0)], &mut one, Some(1), &mut ws);
    assert_eq!(one[1], R(2.0 + 0.25 + 2.0 * 3.0));
    let same = m.clone();
    assert_eq!(same.members[1].parameters, m.members[1].parameters);
}

#[test]
fn models_with_missing_parts_are_found() {
    let mut m = constant_model(&[1.0, 3.0]);
    m.delta_std.clear();
    assert!(!m.is_consistent());
    let mut m = constant_model(&[1.0, 3.0]);
    m.config.predicted_indices[0] = 3;
    assert!(!m.is_consistent());
    let mut m = constant_model(&[1.0, 3.0]);
    m.members[1].parameters.pop();
    assert!(!m.is_consistent());
}

#[test]
fn trained_models_have_the_shapes_that_were_asked_for() {
    let mut d = synthetic();
    for e in &mut d.episodes {
        for t in &mut e.transitions {
            t.state[1] = R(0.5);
            t.next_state[1] = R(0.5);
        }
    }
    let c = WorldConfig { epochs: 1, hidden: 5, predicted_indices: vec![0, 1], ..small() };
    let m: WorldModel<R> = WorldModel::train(&d, c, 9).unwrap();
    assert_eq!(m.members.len(), 2);
    for net in &m.members {
        assert_eq!((net.input_dim(), net.hidden_dim(), net.output_dim()), (4, 5, 2));
    }
    assert_eq!((m.input_mean.len(), m.input_std.len()), (4, 4));
    assert_eq!((m.delta_mean.len(), m.delta_std.len()), (2, 2));
    assert!(m.input_std.iter().all(|x| x.0 >= 1e-3));
    assert_eq!((m.input_std[1], m.delta_std[1]), (R(1e-3), R(1e-4)));
    let split = d.split(9);
    assert_eq!(
        (m.split.train, m.split.validation, m.split.test),
        (split.train, split.validation, split.test)
    );
    assert_eq!(
        (m.metrics.train_episodes, m.metrics.validation_episodes, m.metrics.test_episodes),
        (16, 2, 2)
    );
    assert_eq!((m.config_hash, m.version), ("test".into(), "push-delta-ensemble-v1".into()));
}
