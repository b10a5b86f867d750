//! What the words of a command line stand for.
use crate::env::observation::{self, ObsLayout};
use crate::env::reward::ActionMode;
use crate::num::{self, Meaning, Scalar};
use crate::rl::ppo::{self, PpoConfig, TrainStats};
use crate::text::{joined, same_text};
use crate::world::model::WorldConfig;
use vstd::prelude::*;
use vstd::string::StrSliceExecFns;

verus! {

/// What a command line asks for.
#[derive(Clone, Copy, Debug, PartialEq, Eq, Structural)]
pub enum Stage {
    Help,
    EvaluateWorld,
    Evaluate,
    CollectData,
    TrainWorld,
    CompareWorld,
    Imagine,
    WorldModel,
    TrainSac,
    TrainPpo,
}

/// What a command line says of training inside a model.
#[derive(Debug)]
pub struct ImagineOptions {
    pub start_mode: String,
    pub mode: String,
    pub policy_hidden: usize,
    pub seed: u64,
    pub bc_epochs: usize,
    pub bc_samples: usize,
    pub rollout_steps: usize,
    pub horizon: usize,
    pub updates: usize,
}

/// The words as sequences of characters.
pub open spec fn words(args: Seq<String>) -> Seq<Seq<char>> {
    Seq::new(args.len(), |i: int| args[i]@)
}

/// Whether a word occurs.
pub open spec fn occurs(args: Seq<Seq<char>>, name: Seq<char>) -> bool {
    exists|i: int| 0 <= i < args.len() && #[trigger] args[i] == name
}

/// The place of a word, from the place `at` on.
pub open spec fn place_of(args: Seq<Seq<char>>, name: Seq<char>, at: nat) -> Option<nat>
    decreases args.len() - at,
{
    if at >= args.len() {
        None
    } else if args[at as int] == name {
        Some(at)
    } else {
        place_of(args, name, at + 1)
    }
}

/// The word that follows the first occurrence of `name`.
pub open spec fn word_after(args: Seq<Seq<char>>, name: Seq<char>) -> Option<Seq<char>> {
    match place_of(args, name, 0) {
        None => None,
        Some(i) => if i + 1 < args.len() {
            Some(args[i as int + 1])
        } else {
            None
        },
    }
}

/// The number that the first `n` characters stand for, if all of them are digits.
pub open spec fn digits_value(s: Seq<char>, n: nat) -> Option<nat>
    decreases n,
{
    if n == 0 {
        Some(0)
    } else {
        match digits_value(s, (n - 1) as nat) {
            None => None,
            Some(v) => if '0' <= s[n - 1] <= '9' {
                Some((v * 10 + (s[n - 1] as int - '0' as int)) as nat)
            } else {
                None
            },
        }
    }
}

/// The digits of a number: what follows an optional plus sign.
pub open spec fn unsigned(s: Seq<char>) -> Seq<char> {
    if s.len() > 0 && s[0] == '+' {
        s.skip(1)
    } else {
        s
    }
}

/// The number up to `max` that a word stands for: digits after an optional plus sign.
pub open spec fn number_in(s: Seq<char>, max: nat) -> Option<nat> {
    let d = unsigned(s);
    if d.len() == 0 {
        None
    } else {
        match digits_value(d, d.len()) {
            None => None,
            Some(v) => if v <= max {
                Some(v)
            } else {
                None
            },
        }
    }
}

/// The number up to `max` that follows `name`, or `otherwise`.
pub open spec fn number_after(
    args: Seq<Seq<char>>,
    name: Seq<char>,
    max: nat,
    otherwise: nat,
) -> nat {
    match word_after(args, name) {
        None => otherwise,
        Some(s) => match number_in(s, max) {
            None => otherwise,
            Some(v) => v,
        },
    }
}

/// The word that follows `name`, or `otherwise`.
pub open spec fn text_after(
    args: Seq<Seq<char>>,
    name: Seq<char>,
    otherwise: Seq<char>,
) -> Seq<char> {
    match word_after(args, name) {
        None => otherwise,
        Some(s) => s,
    }
}

/// The larger of two numbers.
pub open spec fn at_least(n: nat, least: nat) -> nat {
    if n < least {
        least
    } else {
        n
    }
}

/// More digits do not make a number smaller, nor digits of something else.
proof fn lemma_digits(s: Seq<char>, m: nat, n: nat)
    requires
        m <= n,
    ensures
        digits_value(s, m) is None ==> digits_value(s, n) is None,
        digits_value(s, m) is Some && digits_value(s, n) is Some ==> digits_value(s, m)->Some_0
            <= digits_value(s, n)->Some_0,
    decreases n,
{
    if m < n {
        lemma_digits(s, m, (n - 1) as nat);
    }
}

/// The number that a word stands for: digits after an optional plus sign.
pub fn parse_u64(text: &str) -> (r: Option<u64>)
    ensures
        number_in(text@, u64::MAX as nat) == (match r {
            Some(v) => Some(v as nat),
            None => None,
        }),
{
    let n: usize = text.unicode_len();
    let first: usize = if n > 0 && text.get_char(0) == '+' {
        1
    } else {
        0
    };
    let ghost d = unsigned(text@);
    if n == first {
        return None;
    }
    assert(d =~= text@.skip(first as int));
    let mut value: u64 = 0;
    for i in first..n
        invariant
            n == text@.len(),
            first < n,
            d == text@.skip(first as int),
            d == unsigned(text@),
            digits_value(d, (i - first) as nat) == Some(value as nat),
    {
        let c: char = text.get_char(i);
        assert(c == d[i - first]);
        if c < '0' || '9' < c {
            proof {
                lemma_digits(d, (i - first + 1) as nat, d.len());
            }
            return None;
        }
        let digit: u64 = c as u64 - '0' as u64;
        let ghost next = value * 10 + digit;
        assert(digits_value(d, (i - first + 1) as nat) == Some(next as nat));
        match value.checked_mul(10) {
            None => {
                proof {
                    lemma_digits(d, (i - first + 1) as nat, d.len());
                }
                return None;
            },
            Some(tens) => match tens.checked_add(digit) {
                None => {
                    proof {
                        lemma_digits(d, (i - first + 1) as nat, d.len());
                    }
                    return None;
                },
                Some(sum) => {
                    value = sum;
                },
            },
        }
    }
    Some(value)
}

/// As [`parse_u64`], for numbers that a machine word can hold.
pub fn parse_usize(text: &str) -> (r: Option<usize>)
    ensures
        number_in(text@, usize::MAX as nat) == (match r {
            Some(v) => Some(v as nat),
            None => None,
        }),
{
    match parse_u64(text) {
        None => None,
        Some(v) => if v <= usize::MAX as u64 {
            Some(v as usize)
        } else {
            None
        },
    }
}

/// Whether a word occurs.
pub fn mentions(args: &[String], name: &str) -> (r: bool)
    ensures
        r == occurs(words(args@), name@),
{
    let n: usize = args.len();
    for i in 0..n
        invariant
            n == args@.len(),
            forall|k: int| 0 <= k < i ==> (#[trigger] words(args@)[k]) != name@,
    {
        if same_text(args[i].as_str(), name) {
            assert(words(args@)[i as int] == name@);
            return true;
        }
    }
    false
}

/// The word that follows the first occurrence of `name`.
pub fn following<'a>(args: &'a [String], name: &str) -> (r: Option<&'a str>)
    ensures
        word_after(words(args@), name@) == (match r {
            Some(s) => Some(s@),
            None => None,
        }),
{
    let n: usize = args.len();
    for i in 0..n
        invariant
            n == args@.len(),
            place_of(words(args@), name@, 0) == place_of(words(args@), name@, i as nat),
    {
        if same_text(args[i].as_str(), name) {
            return if i + 1 < n {
                Some(args[i + 1].as_str())
            } else {
                None
            };
        }
    }
    None
}

/// The number that follows `name`, or `default`.
pub fn arg(args: &[String], name: &str, default: usize) -> (r: usize)
    ensures
        r == number_after(words(args@), name@, usize::MAX as nat, default as nat),
{
    match following(args, name) {
        None => default,
        Some(s) => match parse_usize(s) {
            None => default,
            Some(v) => v,
        },
    }
}

/// As [`arg`], for 64-bit numbers.
pub fn arg_u64(args: &[String], name: &str, default: u64) -> (r: u64)
    ensures
        r == number_after(words(args@), name@, u64::MAX as nat, default as nat),
{
    match following(args, name) {
        None => default,
        Some(s) => match parse_u64(s) {
            None => default,
            Some(v) => v,
        },
    }
}

/// The word that follows `name`, or `default`.
pub fn string_arg(args: &[String], name: &str, default: &str) -> (r: String)
    ensures
        r@ == text_after(words(args@), name@, default@),
{
    match following(args, name) {
        None => default.to_owned(),
        Some(s) => s.to_owned(),
    }
}

/// Where the policy is written.
pub fn checkpoint(args: &[String]) -> (r: String)
    ensures
        r@ == text_after(words(args@), "--checkpoint"@, "runs/ppo.json"@),
{
    string_arg(args, "--checkpoint", "runs/ppo.json")
}

/// Where the policy is read.
pub fn policy_checkpoint(args: &[String]) -> (r: String)
    ensures
        r@ == text_after(words(args@), "--policy-checkpoint"@, "runs/ppo.json"@),
{
    string_arg(args, "--policy-checkpoint", "runs/ppo.json")
}

/// Where the dataset is.
pub fn dataset_path(args: &[String]) -> (r: String)
    ensures
        r@ == text_after(words(args@), "--dataset"@, "runs/dataset.json"@),
{
    string_arg(args, "--dataset", "runs/dataset.json")
}

/// Whether `word` stands in `s` at the place `at`.
pub open spec fn stands_at(s: Seq<char>, word: Seq<char>, at: int) -> bool {
    at + word.len() <= s.len() && s.subrange(at, at + word.len()) == word
}

/// `s` from the place `at` on, with `from` replaced by `to` wherever it stands, from the left and
/// without overlaps.
pub open spec fn replaced(s: Seq<char>, from: Seq<char>, to: Seq<char>, at: int) -> Seq<char>
    decreases s.len() - at,
{
    if at >= s.len() || from.len() == 0 {
        Seq::empty()
    } else if stands_at(s, from, at) {
        to + replaced(s, from, to, at + from.len())
    } else {
        seq![s[at]] + replaced(s, from, to, at + 1)
    }
}

/// Where the policy of the second algorithm is written.
pub fn sac_checkpoint(args: &[String]) -> (r: String)
    ensures
        r@ == replaced(
            text_after(words(args@), "--checkpoint"@, "runs/ppo.json"@),
            "ppo"@,
            "sac"@,
            0,
        ),
{
    let path: String = checkpoint(args);
    let text: &str = path.as_str();
    let n: usize = text.unicode_len();
    let mut r: String = "".to_owned();
    let mut at: usize = 0;
    proof {
        reveal_strlit("ppo");
        reveal_strlit("sac");
        reveal_strlit("");
        assert(r@ + replaced(text@, "ppo"@, "sac"@, 0) =~= replaced(text@, "ppo"@, "sac"@, 0));
    }
    while at < n
        invariant
            at <= n == text@.len(),
            "ppo"@.len() == 3,
            "ppo"@[0] == 'p',
            "ppo"@[1] == 'p',
            "ppo"@[2] == 'o',
            r@ + replaced(text@, "ppo"@, "sac"@, at as int) == replaced(
                text@,
                "ppo"@,
                "sac"@,
                0,
            ),
        decreases n - at,
    {
        let ghost done = r@;
        let here: bool = n - at >= 3 && text.get_char(at) == 'p' && text.get_char(at + 1) == 'p'
            && text.get_char(at + 2) == 'o';
        proof {
            if here {
                assert(text@.subrange(at as int, at + 3) =~= "ppo"@);
            } else if stands_at(text@, "ppo"@, at as int) {
                let part = text@.subrange(at as int, at + 3);
                assert(part[0] == text@[at as int] && part[1] == text@[at + 1] && part[2]
                    == text@[at + 2]);
            }
        }
        if here {
            r = joined(r.as_str(), "sac");
            at = at + 3;
            assert(done + ("sac"@ + replaced(text@, "ppo"@, "sac"@, at as int)) =~= r@ + replaced(
                text@,
                "ppo"@,
                "sac"@,
                at as int,
            ));
        } else {
            let part: &str = text.substring_char(at, at + 1);
            r = joined(r.as_str(), part);
            proof {
                assert(part@ =~= seq![text@[at as int]]);
                assert(done + (seq![text@[at as int]] + replaced(text@, "ppo"@, "sac"@, at + 1))
                    =~= r@ + replaced(text@, "ppo"@, "sac"@, at + 1));
            }
            at = at + 1;
        }
    }
    assert(r@ + replaced(text@, "ppo"@, "sac"@, n as int) =~= r@);
    r
}

/// The meaning of actions that a word stands for.
pub open spec fn mode_named(name: Option<Seq<char>>) -> ActionMode {
    match name {
        None => ActionMode::Position,
        Some(s) => if s == "velocity"@ {
            ActionMode::Velocity
        } else if s == "acceleration"@ {
            ActionMode::Acceleration
        } else if s == "absolute"@ {
            ActionMode::Absolute
        } else if s == "joint-delta"@ {
            ActionMode::JointDelta
        } else {
            ActionMode::Position
        },
    }
}

/// The meaning of actions that a command line asks for.
pub fn action_mode(args: &[String]) -> (r: ActionMode)
    ensures
        r == mode_named(word_after(words(args@), "--action"@)),
{
    match following(args, "--action") {
        None => ActionMode::Position,
        Some(s) => if same_text(s, "velocity") {
            ActionMode::Velocity
        } else if same_text(s, "acceleration") {
            ActionMode::Acceleration
        } else if same_text(s, "absolute") {
            ActionMode::Absolute
        } else if same_text(s, "joint-delta") {
            ActionMode::JointDelta
        } else {
            ActionMode::Position
        },
    }
}

/// The layout that a command line asks for, or a message where it names an unknown group or none.
/// Returns `None` where a group is named twice.
pub fn selected_layout(args: &[String]) -> (r: Option<Result<ObsLayout, String>>)
    ensures
        match word_after(words(args@), "--obs"@) {
            None => r matches Some(Ok(layout)) && layout.wf() && layout.keys@
                == observation::default_keys(),
            Some(csv) => match observation::keys_listed(csv) {
                Err(id) => r matches Some(Err(e)) && e@ == "unknown observation key: "@ + id,
                Ok(keys) => if !keys.no_duplicates() {
                    r is None
                } else if keys.len() == 0 {
                    r matches Some(Err(e)) && e@ == "observation selection is empty"@
                } else {
                    r matches Some(Ok(layout)) && layout.wf() && layout.keys@ == keys
                },
            },
        },
{
    match following(args, "--obs") {
        None => Some(Ok(ObsLayout::default())),
        Some(csv) => if ObsLayout::repeats_key(csv) {
            None
        } else {
            Some(ObsLayout::from_csv(csv))
        },
    }
}

/// What a command line asks for: the first of these that it mentions.
pub open spec fn stage_named(args: Seq<Seq<char>>) -> Stage {
    if occurs(args, "--help"@) || occurs(args, "-h"@) {
        Stage::Help
    } else if occurs(args, "--evaluate-world"@) {
        Stage::EvaluateWorld
    } else if occurs(args, "--evaluate"@) {
        Stage::Evaluate
    } else if occurs(args, "--collect-data"@) || occurs(args, "--collect"@) {
        Stage::CollectData
    } else if occurs(args, "--train-world"@) {
        Stage::TrainWorld
    } else if occurs(args, "--compare-world"@) {
        Stage::CompareWorld
    } else if occurs(args, "--imagine"@) {
        Stage::Imagine
    } else if occurs(args, "--world-model"@) {
        Stage::WorldModel
    } else if occurs(args, "--algorithm"@) && occurs(args, "sac"@) {
        Stage::TrainSac
    } else {
        Stage::TrainPpo
    }
}

/// What a command line asks for.
pub fn stage_of(args: &[String]) -> (r: Stage)
    ensures
        r == stage_named(words(args@)),
{
    if mentions(args, "--help") || mentions(args, "-h") {
        Stage::Help
    } else if mentions(args, "--evaluate-world") {
        Stage::EvaluateWorld
    } else if mentions(args, "--evaluate") {
        Stage::Evaluate
    } else if mentions(args, "--collect-data") || mentions(args, "--collect") {
        Stage::CollectData
    } else if mentions(args, "--train-world") {
        Stage::TrainWorld
    } else if mentions(args, "--compare-world") {
        Stage::CompareWorld
    } else if mentions(args, "--imagine") {
        Stage::Imagine
    } else if mentions(args, "--world-model") {
        Stage::WorldModel
    } else if mentions(args, "--algorithm") && mentions(args, "sac") {
        Stage::TrainSac
    } else {
        Stage::TrainPpo
    }
}

/// `n`, but at least `least`.
pub fn raised(n: usize, least: usize) -> (r: usize)
    ensures
        r == at_least(n as nat, least as nat),
{
    if n < least {
        least
    } else {
        n
    }
}

/// The number of environments that a text asks for, or `default`.
pub fn lanes_or(text: Option<&str>, default: usize) -> (r: usize)
    ensures
        r == (match text {
            None => default as nat,
            Some(s) => match number_in(s@, usize::MAX as nat) {
                None => default as nat,
                Some(v) => v,
            },
        }),
{
    match text {
        None => default,
        Some(s) => match parse_usize(s) {
            None => default,
            Some(v) => v,
        },
    }
}

/// The number of environments for a machine: two less than what it runs at once, but at least one.
pub fn spare_lanes(cpus: Option<usize>) -> (r: usize)
    ensures
        r == (match cpus {
            None => 1,
            Some(n) => if n > 3 {
                n - 2
            } else {
                1
            },
        }),
{
    match cpus {
        None => 1,
        Some(n) => if n > 3 {
            n - 2
        } else {
            1
        },
    }
}

/// The numbers of environments that are tried on a machine: powers of two up to 64 that are at most
/// `most`.
pub fn tried_lanes(most: usize) -> (r: Vec<usize>)
    ensures
        r@ == seq![1usize, 2, 4, 8, 16, 32, 64].filter(|n: usize| n <= most),
{
    let all: [usize; 7] = [1, 2, 4, 8, 16, 32, 64];
    let ghost list = seq![1usize, 2, 4, 8, 16, 32, 64];
    let ghost f = |n: usize| n <= most;
    assert(all@ =~= list);
    let mut r: Vec<usize> = Vec::new();
    assert(list.take(0).filter(f) =~= Seq::empty()) by {
        reveal(Seq::filter);
    }
    for i in 0..7usize
        invariant
            all@ == list,
            list.len() == 7,
            f == (|n: usize| n <= most),
            r@ == list.take(i as int).filter(f),
    {
        assert(list.take(i + 1).drop_last() =~= list.take(i as int));
        assert(list.take(i + 1).last() == list[i as int]);
        proof {
            reveal(Seq::filter);
        }
        if all[i] <= most {
            r.push(all[i]);
        }
    }
    assert(list.take(7) =~= list);
    r
}

/// What a command line says of training inside a model.
pub fn imagine_options(args: &[String]) -> (r: ImagineOptions)
    ensures
        ({
            let w = words(args@);
            let max = usize::MAX as nat;
            &&& r.start_mode@ == text_after(w, "--imagine-starts"@, "episode-start"@)
            &&& r.mode@ == text_after(w, "--mode"@, "cold-start"@)
            &&& r.policy_hidden == at_least(number_after(w, "--policy-hidden"@, max, 32), 4)
            &&& r.seed == number_after(w, "--imagine-seed"@, u64::MAX as nat, 777)
            &&& r.bc_epochs == number_after(w, "--bc-epochs"@, max, 0)
            &&& r.bc_samples == at_least(number_after(w, "--bc-samples"@, max, 50_000), 1)
            &&& r.rollout_steps == at_least(number_after(w, "--rollout-steps"@, max, 256), 1)
            &&& r.horizon == at_least(number_after(w, "--imagine-horizon"@, max, 75), 1)
            &&& r.updates == number_after(w, "--updates"@, max, 500)
        }),
{
    ImagineOptions {
        start_mode: string_arg(args, "--imagine-starts", "episode-start"),
        mode: string_arg(args, "--mode", "cold-start"),
        policy_hidden: raised(arg(args, "--policy-hidden", 32), 4),
        seed: arg_u64(args, "--imagine-seed", 777),
        bc_epochs: arg(args, "--bc-epochs", 0),
        bc_samples: raised(arg(args, "--bc-samples", 50_000), 1),
        rollout_steps: raised(arg(args, "--rollout-steps", 256), 1),
        horizon: raised(arg(args, "--imagine-horizon", 75), 1),
        updates: arg(args, "--updates", 500),
    }
}

impl ImagineOptions {
    /// Whether rollouts start all over the dataset.
    pub fn replays(&self) -> (r: bool)
        ensures
            r == (self.start_mode@ == "replay"@),
    {
        same_text(self.start_mode.as_str(), "replay")
    }

    /// Whether a given policy is trained further.
    pub fn finetunes(&self) -> (r: bool)
        ensures
            r == (self.mode@ == "finetune"@),
    {
        same_text(self.mode.as_str(), "finetune")
    }

    /// Whether the policy is first trained to imitate.
    pub fn clones(&self) -> (r: bool)
        ensures
            r == (self.mode@ == "cold-start"@ && self.bc_epochs > 0),
    {
        same_text(self.mode.as_str(), "cold-start") && self.bc_epochs > 0
    }
}

/// What a command line says of training an ensemble.
pub fn world_settings<S: Scalar>(args: &[String]) -> (r: WorldConfig<S>)
    ensures
        r.epochs == number_after(words(args@), "--world-epochs"@, usize::MAX as nat, 30),
        r.members == at_least(
            number_after(words(args@), "--world-members"@, usize::MAX as nat, 3),
            2,
        ),
        r.hidden == 32,
        r.batch_size == 128,
        r.predicted_indices@ == num::counting(14),
        r.time_index == Some(16usize),
        r.hold_index == Some(17usize),
        num::repeatable::<S>() ==> r.learning_rate == S::fraction(1, 1000),
        num::repeatable::<S>() ==> r.decision_dt == S::fraction(1, 15),
{
    let mut r: WorldConfig<S> = WorldConfig::default();
    r.epochs = arg(args, "--world-epochs", r.epochs);
    r.members = raised(arg(args, "--world-members", r.members), 2);
    r
}

/// The settings of a policy that learns in the simulator.
pub fn simulator_settings<S: Scalar>() -> (r: PpoConfig<S>)
    ensures
        r.hidden == 32,
        r.epochs == 4,
        r.minibatch_size == 256,
        r.parallel,
        num::repeatable::<S>() ==> r == (PpoConfig {
            minibatch_size: 256,
            ..ppo::default_settings::<S>()
        }),
{
    let mut r: PpoConfig<S> = PpoConfig::default();
    r.minibatch_size = 256;
    r
}

/// The settings of a policy whose throughput is measured.
pub fn bench_settings<S: Scalar>() -> (r: PpoConfig<S>)
    ensures
        r.hidden == 32,
        r.epochs == 1,
        r.minibatch_size == 256,
        r.parallel,
        num::repeatable::<S>() ==> r == (PpoConfig {
            epochs: 1,
            minibatch_size: 256,
            ..ppo::default_settings::<S>()
        }),
{
    let mut r: PpoConfig<S> = PpoConfig::default();
    r.epochs = 1;
    r.minibatch_size = 256;
    r
}

/// The share of the episodes that ended in success.
pub fn success_rate<S: Scalar>(stats: &TrainStats<S>) -> (r: S)
    ensures
        num::repeatable::<S>() ==> r == S::counted(stats.successes as u64).quotient(
            S::counted(ppo::at_least_one(stats.episodes as nat) as u64),
        ),
{
    let episodes: usize = if stats.episodes == 0 {
        1
    } else {
        stats.episodes
    };
    S::from_count(stats.successes as u64).over(S::from_count(episodes as u64))
}

/// The number of episodes that did not end in success.
pub fn unsolved<S: Scalar>(stats: &TrainStats<S>) -> (r: usize)
    ensures
        r == (if stats.episodes >= stats.successes {
            stats.episodes - stats.successes
        } else {
            0
        }),
{
    if stats.episodes >= stats.successes {
        stats.episodes - stats.successes
    } else {
        0
    }
}

/// Whether the round with the number `update` is announced: the first one, and every tenth.
pub fn announces(update: usize) -> (r: bool)
    requires
        update < usize::MAX,
    ensures
        r == (update == 0 || (update + 1) % 10 == 0),
{
    update == 0 || (update + 1) % 10 == 0
}

} // verus!
