use push_learn::num::Scalar;
use push_learn::rl::{Adam, Mlp, MlpGrad, Rng, Workspace};

/// Single-precision numbers.
#[derive(Clone, Copy, Debug, PartialEq)]
struct R(f32);

impl Scalar for R {
    type Wide = f64;
    fn from_count(n: u64) -> R {
        R(n as f32)
    }
    fn from_ratio(n: u64, d: u64) -> R {
        R(n as f32 / d as f32)
    }
    fn plus(self, other: R) -> R {
        R(self.0 + other.0)
    }
    fn minus(self, other: R) -> R {
        R(self.0 - other.0)
    }
    fn times(self, other: R) -> R {
        R(self.0 * other.0)
    }
    fn over(self, other: R) -> R {
        R(self.0 / other.0)
    }
    fn neg(self) -> R {
        R(-self.0)
    }
    fn abs(self) -> R {
        R(self.0.abs())
    }
    fn square(self) -> R {
        R(self.0.powi(2))
    }
    fn sqrt(self) -> R {
        R(self.0.sqrt())
    }
    fn exp(self) -> R {
        R(self.0.exp())
    }
    fn ln(self) -> R {
        R(self.0.ln())
    }
    fn ln_1p(self) -> R {
        R(self.0.ln_1p())
    }
    fn sin(self) -> R {
        R(self.0.sin())
    }
    fn cos(self) -> R {
        R(self.0.cos())
    }
    fn acos(self) -> R {
        R(self.0.acos())
    }
    fn atan2(self, other: R) -> R {
        R(self.0.atan2(other.0))
    }
    fn tanh(self) -> R {
        R(self.0.tanh())
    }
    fn atanh(self) -> R {
        R(self.0.atanh())
    }
    fn powf(self, other: R) -> R {
        R(self.0.powf(other.0))
    }
    fn hypot(self, other: R) -> R {
        R(self.0.hypot(other.0))
    }
    fn max(self, other: R) -> R {
        R(self.0.max(other.0))
    }
    fn min(self, other: R) -> R {
        R(self.0.min(other.0))
    }
    fn floor(self) -> R {
        R(self.0.floor())
    }
    fn round(self) -> R {
        R(self.0.round())
    }
    fn to_u32(self) -> u32 {
        self.0 as u32
    }
    fn to_u64(self) -> u64 {
        self.0 as u64
    }
    fn less(self, other: R) -> bool {
        self.0 < other.0
    }
    fn at_most(self, other: R) -> bool {
        self.0 <= other.0
    }
    fn is_finite(self) -> bool {
        self.0.is_finite()
    }
    fn wide_zero() -> f64 {
        0.0
    }
    fn wide_plus_square(total: f64, x: R) -> f64 {
        total + (x.0 as f64).powi(2)
    }
    fn wide_root(total: f64) -> R {
        R(total.sqrt() as f32)
    }
}

fn reals(values: &[f32]) -> Vec<R> {
    values.iter().map(|&x| R(x)).collect()
}

#[test]
fn backward_matches_finite_differences_for_parameters_and_inputs() {
    let mut m: Mlp<R> = Mlp::new(3, 4, 2, &mut Rng::new(7));
    let mut w = m.workspace();
    let input = [0.2f32, -0.4, 0.7];
    let dout = [0.7f32, -0.3];
    let mut grad = MlpGrad::new(&m);
    m.forward(&reals(&input), &mut w);
    let dx = m.backward(&mut w, &reals(&dout), &mut grad).to_vec();
    let eval = |m: &Mlp<R>, input: &[f32], w: &mut Workspace<R>| -> f32 {
        m.forward(&reals(input), w).iter().zip(dout).map(|(a, b)| a.0 * b).sum()
    };
    let eps = 0.001;
    for i in 0..m.parameters().len() {
        let orig = m.parameters()[i].0;
        m.parameters_mut()[i] = R(orig + eps);
        let hi = eval(&m, &input, &mut w);
        m.parameters_mut()[i] = R(orig - eps);
        let lo = eval(&m, &input, &mut w);
        m.parameters_mut()[i] = R(orig);
        assert!(((hi - lo) / (2.0 * eps) - grad.data[i].0).abs() < 0.0002, "parameter {i}");
    }
    for i in 0..3 {
        let mut x = input;
        x[i] += eps;
        let hi = eval(&m, &x, &mut w);
        x[i] -= 2.0 * eps;
        let lo = eval(&m, &x, &mut w);
        assert!(((hi - lo) / (2.0 * eps) - dx[i].0).abs() < 0.0002);
    }
}

/// A network and its optimizer, written and read again.
fn through_json(m: &Mlp<R>, a: &Adam<R>) -> (Mlp<R>, Adam<R>) {
    let list = |v: &[R]| serde_json::Value::from(v.iter().map(|x| x.0).collect::<Vec<f32>>());
    let value = serde_json::Value::from(vec![
        list(&m.parameters),
        list(&a.m),
        list(&a.v),
        list(&[a.learning_rate, a.beta1_power, a.beta2_power]),
        serde_json::Value::from(vec![m.input, m.hidden, m.output]),
        serde_json::Value::from(a.step),
    ]);
    let encoded = serde_json::to_string(&value).unwrap();
    let v: serde_json::Value = serde_json::from_str(&encoded).unwrap();
    let read = |v: &serde_json::Value| {
        v.as_array().unwrap().iter().map(|x| R(x.as_f64().unwrap() as f32)).collect::<Vec<R>>()
    };
    let size = |i: usize| v[4][i].as_u64().unwrap() as usize;
    let rates = read(&v[3]);
    (
        Mlp { input: size(0), hidden: size(1), output: size(2), parameters: read(&v[0]) },
        Adam {
            learning_rate: rates[0],
            step: v[5].as_u64().unwrap(),
            beta1_power: rates[1],
            beta2_power: rates[2],
            m: read(&v[1]),
            v: read(&v[2]),
        },
    )
}

#[test]
fn adam_rejects_nonfinite_atomically_and_resumes_exactly() {
    let mut m: Mlp<R> = Mlp::new(2, 3, 1, &mut Rng::new(8));
    let mut a: Adam<R> = Adam::new(&m, R(0.001));
    let mut g = MlpGrad::new(&m);
    g.data.fill(R(0.2));
    assert!(a.step(&mut m, &g));
    let (mut m2, mut a2) = through_json(&m, &a);
    g.data[0] = R(f32::NAN);
    assert!(!a.step(&mut m, &g));
    assert_eq!(m.parameters, m2.parameters);
    assert_eq!(a.steps(), a2.steps());
    g.data[0] = R(0.2);
    a.step(&mut m, &g);
    a2.step(&mut m2, &g);
    assert_eq!(m.parameters, m2.parameters);
}

#[test]
fn the_first_step_of_adam_is_the_learning_rate() {
    let mut m: Mlp<R> = Mlp::new(2, 3, 1, &mut Rng::new(8));
    let before = m.parameters.clone();
    let mut a: Adam<R> = Adam::new(&m, R(0.01));
    let mut g = MlpGrad::new(&m);
    g.data.fill(R(-3.0));
    assert!(a.validate(&m));
    assert!(a.step(&mut m, &g));
    assert_eq!(a.steps(), 1);
    for (now, was) in m.parameters.iter().zip(&before) {
        assert!((now.0 - was.0 - 0.01).abs() < 1e-6);
    }
    a.v[0] = R(-1.0);
    assert!(!a.validate(&m));
}

#[test]
fn steps_refuse_gradients_of_another_shape() {
    let mut m: Mlp<R> = Mlp::new(2, 3, 1, &mut Rng::new(8));
    let before = m.parameters.clone();
    let mut a: Adam<R> = Adam::new(&m, R(0.01));
    let g = MlpGrad { data: vec![R(1.0); 3] };
    assert!(!a.step(&mut m, &g));
    assert_eq!((a.steps(), &m.parameters), (0, &before));
}

#[test]
fn networks_have_as_many_parameters_as_their_widths_call_for() {
    let mut m: Mlp<R> = Mlp::new(3, 4, 2, &mut Rng::new(7));
    assert_eq!(m.parameters().len(), 4 * 3 + 4 + 4 * 4 + 4 + 2 * 4 + 2);
    assert_eq!((m.input_dim(), m.hidden_dim(), m.output_dim()), (3, 4, 2));
    assert!(m.parameters()[12..16].iter().all(|b| b.0 == 0.0));
    assert!(m.validate() && m.is_shaped() && m.is_finite());
    m.parameters_mut()[0] = R(f32::INFINITY);
    assert!(!m.validate() && m.is_shaped() && !m.is_finite());
    m.parameters.pop();
    assert!(!m.is_shaped());
}

#[test]
fn a_network_is_two_squashed_layers_and_a_linear_one() {
    let m: Mlp<R> = Mlp {
        input: 1,
        hidden: 1,
        output: 1,
        parameters: reals(&[0.5, 0.1, -0.7, 0.2, 2.0, -0.3]),
    };
    let mut w = m.workspace();
    let h1 = (0.1f32 + 0.5 * 0.8).tanh();
    let h2 = (0.2f32 + -0.7 * h1).tanh();
    let y = m.forward(&reals(&[0.8]), &mut w)[0].0;
    assert!((y - (-0.3 + 2.0 * h2)).abs() < 1e-6);
}

#[test]
fn targets_move_by_their_share() {
    let mut target: Mlp<R> = Mlp::new(2, 3, 1, &mut Rng::new(1));
    let source: Mlp<R> = Mlp::new(2, 3, 1, &mut Rng::new(2));
    let before = target.parameters.clone();
    target.soft_update(&source, R(0.0));
    assert_eq!(target.parameters, before);
    target.soft_update(&source, R(1.0));
    for (t, s) in target.parameters.iter().zip(&source.parameters) {
        assert!((t.0 - s.0).abs() < 1e-6);
    }
}

#[test]
fn gradients_are_cleared_scaled_and_measured() {
    let mut g: MlpGrad<R> = MlpGrad { data: reals(&[3.0, -4.0]) };
    assert_eq!(g.norm(), R(5.0));
    g.scale(R(0.5));
    assert_eq!(g.data, reals(&[1.5, -2.0]));
    assert!(g.is_finite());
    g.data[0] = R(f32::NAN);
    assert!(!g.is_finite());
    g.zero();
    assert_eq!(g.data, reals(&[0.0, 0.0]));
}

#[test]
fn streams_are_fixed_by_their_seeds() {
    let mut a: Rng<R> = Rng::new(0);
    assert_eq!(a.next_u64(), 0xe220a8397b1dcdaf);
    assert_eq!(a.next_u64(), 0x6e789e6aa1b965f4);
    let mut a: Rng<R> = Rng::new(41);
    let mut b: Rng<R> = Rng::new(41);
    for _ in 0..200 {
        let u = a.uniform();
        assert_eq!(u, b.uniform());
        assert!(u.0 > 0.0 && u.0 < 1.0);
        assert_eq!(a.normal(), b.normal());
        let i = a.index(7);
        assert_eq!(i, b.index(7));
        assert!(i < 7);
    }
    assert_eq!(a.normal_pair(), b.normal_pair());
}

#[test]
fn shuffles_keep_what_they_reorder() {
    let mut a: Rng<R> = Rng::new(3);
    let mut v: Vec<usize> = (0..50).collect();
    a.shuffle(&mut v);
    assert_ne!(v, (0..50).collect::<Vec<_>>());
    let mut sorted = v.clone();
    sorted.sort();
    assert_eq!(sorted, (0..50).collect::<Vec<_>>());
    a.mix(&mut v);
    assert_ne!(v, sorted);
    v.sort();
    assert_eq!(v, sorted);
    a.shuffle(&mut Vec::<usize>::new());
}
