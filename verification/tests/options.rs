use push_learn::env::{ActionMode, ObsLayout};
use push_learn::num::Scalar;
use push_learn::rl::TrainStats;
use push_learn::stages::imagine::imagined_settings;
use push_learn::stages::options::{
    action_mode, announces, arg, arg_u64, checkpoint, dataset_path, following, imagine_options,
    bench_settings, lanes_or, mentions, parse_u64, parse_usize, policy_checkpoint, raised,
    sac_checkpoint, selected_layout, simulator_settings, spare_lanes, stage_of, string_arg, success_rate, tried_lanes, unsolved,
    world_settings, Stage,
};

/// Single-precision numbers.
#[derive(Clone, Copy, Debug, PartialEq)]
struct R(f32);

impl Scalar for R {
    type Wide = f64;
    fn from_count(n: u64) -> R {
        R(n as f32)
    }
    fn from_ratio(n: u64, d: u64) -> R {
        R(n as f32 / d as f32)
    }
    fn plus(self, other: R) -> R {
        R(self.0 + other.0)
    }
    fn minus(self, other: R) -> R {
        R(self.0 - other.0)
    }
    fn times(self, other: R) -> R {
        R(self.0 * other.0)
    }
    fn over(self, other: R) -> R {
        R(self.0 / other.0)
    }
    fn neg(self) -> R {
        R(-self.0)
    }
    fn abs(self) -> R {
        R(self.0.abs())
    }
    fn square(self) -> R {
        R(self.0.powi(2))
    }
    fn sqrt(self) -> R {
        R(self.0.sqrt())
    }
    fn exp(self) -> R {
        R(self.0.exp())
    }
    fn ln(self) -> R {
        R(self.0.ln())
    }
    fn ln_1p(self) -> R {
        R(self.0.ln_1p())
    }
    fn sin(self) -> R {
        R(self.0.sin())
    }
    fn cos(self) -> R {
        R(self.0.cos())
    }
    fn acos(self) -> R {
        R(self.0.acos())
    }
    fn atan2(self, other: R) -> R {
        R(self.0.atan2(other.0))
    }
    fn tanh(self) -> R {
        R(self.0.tanh())
    }
    fn atanh(self) -> R {
        R(self.0.atanh())
    }
    fn powf(self, other: R) -> R {
        R(self.0.powf(other.0))
    }
    fn hypot(self, other: R) -> R {
        R(self.0.hypot(other.0))
    }
    fn max(self, other: R) -> R {
        R(self.0.max(other.0))
    }
    fn min(self, other: R) -> R {
        R(self.0.min(other.0))
    }
    fn floor(self) -> R {
        R(self.0.floor())
    }
    fn round(self) -> R {
        R(self.0.round())
    }
    fn to_u32(self) -> u32 {
        self.0 as u32
    }
    fn to_u64(self) -> u64 {
        self.0 as u64
    }
    fn less(self, other: R) -> bool {
        self.0 < other.0
    }
    fn at_most(self, other: R) -> bool {
        self.0 <= other.0
    }
    fn is_finite(self) -> bool {
        self.0.is_finite()
    }
    fn wide_zero() -> f64 {
        0.0
    }
    fn wide_plus_square(total: f64, x: R) -> f64 {
        total + (x.0 as f64).powi(2)
    }
    fn wide_root(total: f64) -> R {
        R(total.sqrt() as f32)
    }
}

fn words(line: &str) -> Vec<String> {
    line.split_whitespace().map(|x| x.to_string()).collect()
}

#[test]
fn numbers_are_digits_after_an_optional_plus_sign() {
    assert_eq!(parse_u64("0"), Some(0));
    assert_eq!(parse_u64("+0042"), Some(42));
    assert_eq!(parse_u64("18446744073709551615"), Some(u64::MAX));
    assert_eq!(parse_u64("18446744073709551616"), None);
    assert_eq!(parse_u64("99999999999999999999999"), None);
    for wrong in ["", "+", "-", "-1", "1 ", " 1", "1.0", "1e3", "++1", "0x1", "\u{0663}"] {
        assert_eq!(parse_u64(wrong), None, "{wrong}");
        assert_eq!(wrong.parse::<u64>().ok(), None);
        assert_eq!(parse_usize(wrong), None);
    }
    assert_eq!(parse_usize("75"), Some(75));
}

#[test]
fn options_take_the_word_after_their_first_mention() {
    let args = words("push --updates 7 --updates 9 --episodes many --last");
    assert_eq!(arg(&args, "--updates", 10), 7);
    assert_eq!(arg(&args, "--episodes", 100), 100);
    assert_eq!(arg(&args, "--last", 3), 3);
    assert_eq!(arg(&args, "--missing", 4), 4);
    assert_eq!(arg_u64(&args, "--updates", 1), 7);
    assert_eq!(string_arg(&args, "--episodes", "x"), "many");
    assert_eq!(string_arg(&args, "--last", "x"), "x");
    assert_eq!(following(&args, "--episodes"), Some("many"));
    assert_eq!(following(&args, "--last"), None);
    assert!(mentions(&args, "many") && !mentions(&args, "--update"));
}

#[test]
fn files_have_default_places() {
    let none = words("push");
    assert_eq!(checkpoint(&none), "runs/ppo.json");
    assert_eq!(policy_checkpoint(&none), "runs/ppo.json");
    assert_eq!(dataset_path(&none), "runs/dataset.json");
    let args = words("push --checkpoint a --policy-checkpoint b --dataset c");
    assert_eq!(checkpoint(&args), "a");
    assert_eq!(policy_checkpoint(&args), "b");
    assert_eq!(dataset_path(&args), "c");
}

#[test]
fn the_second_algorithm_renames_its_checkpoint() {
    assert_eq!(sac_checkpoint(&words("push")), "runs/sac.json");
    for path in ["ppo", "pppo", "ppoppo", "po/pp.json", "x/\u{e9}ppo\u{e9}", "ppppoo", "pp"] {
        let args = words(&format!("push --checkpoint {path}"));
        assert_eq!(sac_checkpoint(&args), path.replace("ppo", "sac"));
    }
}

#[test]
fn actions_and_layouts_are_chosen_by_name() {
    assert_eq!(action_mode(&words("push")), ActionMode::Position);
    assert_eq!(action_mode(&words("push --action velocity")), ActionMode::Velocity);
    assert_eq!(action_mode(&words("push --action acceleration")), ActionMode::Acceleration);
    assert_eq!(action_mode(&words("push --action absolute")), ActionMode::Absolute);
    assert_eq!(action_mode(&words("push --action joint-delta")), ActionMode::JointDelta);
    assert_eq!(action_mode(&words("push --action other")), ActionMode::Position);
    assert_eq!(selected_layout(&words("push")), Some(Ok(ObsLayout::default())));
    let layout = selected_layout(&words("push --obs bias,jointAngles")).unwrap().unwrap();
    assert_eq!(layout.dim, 3);
    assert_eq!(
        selected_layout(&words("push --obs bias,what")),
        Some(Err("unknown observation key: what".to_string()))
    );
    assert_eq!(
        selected_layout(&words("push --obs ,")),
        Some(Err("observation selection is empty".to_string()))
    );
    assert_eq!(selected_layout(&words("push --obs bias,bias")), None);
}

#[test]
fn the_stage_is_the_first_that_is_asked_for() {
    let stage = |line: &str| stage_of(&words(line));
    assert_eq!(stage("push"), Stage::TrainPpo);
    assert_eq!(stage("push --algorithm sac"), Stage::TrainSac);
    assert_eq!(stage("push sac"), Stage::TrainPpo);
    assert_eq!(stage("push --evaluate --algorithm sac"), Stage::Evaluate);
    assert_eq!(stage("push --evaluate --evaluate-world"), Stage::EvaluateWorld);
    assert_eq!(stage("push --collect"), Stage::CollectData);
    assert_eq!(stage("push --collect-data"), Stage::CollectData);
    assert_eq!(stage("push --train-world --dataset x"), Stage::TrainWorld);
    assert_eq!(stage("push --compare-world --world-model m"), Stage::CompareWorld);
    assert_eq!(stage("push --imagine --world-model m"), Stage::Imagine);
    assert_eq!(stage("push --world-model"), Stage::WorldModel);
    assert_eq!(stage("push --imagine -h"), Stage::Help);
    assert_eq!(stage("push --help"), Stage::Help);
}

#[test]
fn lanes_come_from_the_environment_or_the_machine() {
    assert_eq!(lanes_or(Some("13"), 8), 13);
    assert_eq!(lanes_or(Some("x"), 8), 8);
    assert_eq!(lanes_or(None, 4), 4);
    assert_eq!(raised(0, 1), 1);
    assert_eq!(raised(5, 1), 5);
    assert_eq!(spare_lanes(None), 1);
    assert_eq!(spare_lanes(Some(2)), 1);
    assert_eq!(spare_lanes(Some(3)), 1);
    assert_eq!(spare_lanes(Some(16)), 14);
    assert_eq!(tried_lanes(1), vec![1]);
    assert_eq!(tried_lanes(14), vec![1, 2, 4, 8]);
    assert_eq!(tried_lanes(1000), vec![1, 2, 4, 8, 16, 32, 64]);
}

#[test]
fn training_inside_a_model_has_its_own_options() {
    let o = imagine_options(&words("push --imagine"));
    assert_eq!(
        (o.policy_hidden, o.seed, o.bc_epochs, o.bc_samples, o.rollout_steps, o.horizon, o.updates),
        (32, 777, 0, 50_000, 256, 75, 500)
    );
    assert!(!o.replays() && !o.finetunes() && !o.clones());
    let o = imagine_options(&words(
        "push --imagine --mode cold-start --bc-epochs 3 --imagine-starts replay \
         --policy-hidden 1 --bc-samples 0 --rollout-steps 0 --imagine-horizon 0 --updates 0",
    ));
    assert!(o.replays() && o.clones());
    assert_eq!(
        (o.policy_hidden, o.bc_samples, o.rollout_steps, o.horizon, o.updates),
        (4, 1, 1, 1, 0)
    );
    let o = imagine_options(&words("push --mode finetune --bc-epochs 3"));
    assert!(o.finetunes() && !o.clones());
}

#[test]
fn ensembles_have_two_members_at_least() {
    let c = world_settings::<R>(&words("push --world-epochs 10 --world-members 1"));
    assert_eq!((c.epochs, c.members, c.hidden, c.batch_size), (10, 2, 32, 128));
    assert_eq!(c.learning_rate, R(1e-3));
    assert_eq!(c.decision_dt, R(1.0 / 15.0));
    assert_eq!(c.predicted_indices, (0..14).collect::<Vec<_>>());
    assert_eq!((c.time_index, c.hold_index), (Some(16), Some(17)));
}

#[test]
fn rounds_are_summed_up() {
    let mut s: TrainStats<R> = TrainStats::default();
    assert_eq!(success_rate(&s), R(0.0));
    s.episodes = 8;
    s.successes = 2;
    assert_eq!(success_rate(&s), R(0.25));
    assert_eq!(unsolved(&s), 6);
    s.successes = 9;
    assert_eq!(unsolved(&s), 0);
    let told: Vec<usize> = (0..25).filter(|&u| announces(u)).collect();
    assert_eq!(told, vec![0, 9, 19]);
}

#[test]
fn policies_have_their_settings_by_stage() {
    let s = simulator_settings::<R>();
    assert_eq!((s.hidden, s.epochs, s.minibatch_size, s.parallel), (32, 4, 256, true));
    assert_eq!((s.learning_rate, s.gamma, s.gae_lambda), (R(3e-4), R(0.99), R(0.95)));
    let s = bench_settings::<R>();
    assert_eq!((s.hidden, s.epochs, s.minibatch_size, s.clip_ratio), (32, 1, 256, R(0.2)));
    let s = imagined_settings::<R>(7);
    assert_eq!((s.hidden, s.epochs, s.minibatch_size, s.max_grad_norm), (7, 4, 256, R(0.5)));
}
