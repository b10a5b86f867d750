//! Recorded episodes, what makes a dataset usable, and its division by whole episodes.
use crate::num::{self, Meaning, Scalar};
use crate::rl::rng::{self, Rng};
use crate::text;
use std::collections::HashSet;
use vstd::prelude::*;

verus! {

/// One decision: the state before it, the action, and what came of it.
#[derive(Clone, Debug)]
pub struct Transition<S> {
    pub state: Vec<S>,
    pub action: [S; 2],
    pub next_state: Vec<S>,
    pub reward: S,
    pub terminated: bool,
    pub truncated: bool,
}

/// The decisions of one episode in their order.
#[derive(Clone, Debug)]
pub struct Episode<S> {
    pub id: u64,
    pub seed: u64,
    pub transitions: Vec<Transition<S>>,
}

/// Recorded episodes.
#[derive(Clone, Debug)]
pub struct Dataset<S> {
    pub version: String,
    pub config_hash: String,
    pub state_dim: usize,
    pub episodes: Vec<Episode<S>>,
}

/// The episodes of a dataset, divided in three.
#[derive(Clone, Debug)]
pub struct EpisodeSplit {
    pub train: Vec<usize>,
    pub validation: Vec<usize>,
    pub test: Vec<usize>,
}

/// What can be wrong with an episode.
pub enum Fault {
    Repeated,
    Unsound,
}

/// Whether one of the first `n` episodes has the given id.
pub open spec fn id_taken<S>(episodes: Seq<Episode<S>>, n: nat, id: u64) -> bool {
    exists|i: int| 0 <= i < n && (#[trigger] episodes[i]).id == id
}

/// What is wrong with the first of the first `n` episodes with which anything is.
pub open spec fn first_fault<S: Scalar>(
    episodes: Seq<Episode<S>>,
    dim: usize,
    n: nat,
) -> Option<Fault>
    decreases n,
{
    if n == 0 {
        None
    } else {
        match first_fault(episodes, dim, (n - 1) as nat) {
            Some(fault) => Some(fault),
            None => {
                let e = episodes[n - 1];
                if id_taken(episodes, (n - 1) as nat, e.id) || e.transitions@.len() == 0 {
                    Some(Fault::Repeated)
                } else if !e.sound(dim) {
                    Some(Fault::Unsound)
                } else {
                    None
                }
            },
        }
    }
}

/// The number of transitions in the first `n` episodes.
pub open spec fn transition_count<S>(episodes: Seq<Episode<S>>, n: nat) -> nat
    decreases n,
{
    if n == 0 {
        0
    } else {
        transition_count(episodes, (n - 1) as nat) + episodes[n - 1].transitions@.len()
    }
}

/// The size of the two smaller parts when `n` episodes are divided.
pub open spec fn held_out(n: nat) -> nat {
    if n / 10 > 1 {
        n / 10
    } else {
        1
    }
}

/// The order in which a seed puts the numbers of `n` episodes before they are divided.
pub open spec fn dealt(n: nat, seed: u64) -> Seq<usize> {
    rng::mix_all(seed, num::counting(n)).1
}

impl<S: Scalar> Transition<S> {
    /// Whether the states have the length `dim`.
    pub open spec fn shaped(&self, dim: usize) -> bool {
        self.state@.len() == dim && self.next_state@.len() == dim
    }

    /// Whether the states have the length `dim` and every number is finite.
    pub open spec fn sound(&self, dim: usize) -> bool {
        &&& self.shaped(dim)
        &&& num::all_finite(self.state@)
        &&& num::all_finite(self.next_state@)
        &&& num::all_finite(self.action@)
        &&& self.reward.finite()
    }

    /// Whether the states have the length `dim` and every number is finite.
    fn is_sound(&self, dim: usize) -> (r: bool)
        ensures
            r ==> self.shaped(dim),
            num::repeatable::<S>() ==> r == self.sound(dim),
    {
        self.state.len() == dim && self.next_state.len() == dim && num::every_finite(
            self.state.as_slice(),
        ) && num::every_finite(self.next_state.as_slice()) && num::every_finite(
            self.action.as_slice(),
        ) && self.reward.is_finite()
    }
}

impl<S: Scalar> Episode<S> {
    /// Whether every transition is sound.
    pub open spec fn sound(&self, dim: usize) -> bool {
        forall|t: int| 0 <= t < self.transitions@.len() ==> (#[trigger] self.transitions@[t]).sound(dim)
    }

    /// Whether every transition has states of the length `dim`.
    pub open spec fn shaped(&self, dim: usize) -> bool {
        forall|t: int|
            0 <= t < self.transitions@.len() ==> (#[trigger] self.transitions@[t]).shaped(dim)
    }

    /// Whether every transition is sound.
    fn is_sound(&self, dim: usize) -> (r: bool)
        ensures
            r ==> self.shaped(dim),
            num::repeatable::<S>() ==> r == self.sound(dim),
    {
        let n: usize = self.transitions.len();
        for t in 0..n
            invariant
                n == self.transitions@.len(),
                forall|k: int| 0 <= k < t ==> (#[trigger] self.transitions@[k]).shaped(dim),
                num::repeatable::<S>() ==> forall|k: int|
                    0 <= k < t ==> (#[trigger] self.transitions@[k]).sound(dim),
        {
            if !self.transitions[t].is_sound(dim) {
                return false;
            }
        }
        true
    }
}

impl<S: Scalar> Dataset<S> {
    /// Whether the dataset has the known version, a state dimension and three episodes.
    pub open spec fn announced(&self) -> bool {
        &&& self.version@ == "push-state-dataset-v1"@
        &&& self.state_dim > 0
        &&& self.episodes@.len() >= 3
    }

    /// Whether the dataset is announced, no two episodes have the same id, none is empty, and
    /// every state has the length that is given.
    pub open spec fn shaped(&self) -> bool {
        &&& self.announced()
        &&& forall|i: int, j: int|
            0 <= i < j < self.episodes@.len() ==> (#[trigger] self.episodes@[i]).id != (
            #[trigger] self.episodes@[j]).id
        &&& forall|i: int|
            0 <= i < self.episodes@.len() ==> (#[trigger] self.episodes@[i]).transitions@.len() > 0
                && self.episodes@[i].shaped(self.state_dim)
    }

    /// What is wrong with the episodes.
    pub open spec fn fault(&self) -> Option<Fault> {
        first_fault(self.episodes@, self.state_dim, self.episodes@.len())
    }

    /// What is said of the dataset where it cannot be used.
    pub open spec fn complaint(&self) -> Option<Seq<char>> {
        if !self.announced() {
            Some("dataset needs version v1, a state dimension and at least 3 episodes"@)
        } else {
            match self.fault() {
                None => None,
                Some(Fault::Repeated) => Some(
                    "episode IDs must be unique and episodes nonempty"@,
                ),
                Some(Fault::Unsound) => Some("invalid/nonfinite transition"@),
            }
        }
    }

    /// Whether the dataset can pass for valid.
    pub open spec fn passes(&self) -> bool {
        &&& self.shaped()
        &&& num::repeatable::<S>() ==> self.complaint() is None
    }

    /// Whether the dataset can be used, or what is wrong with it.
    pub fn validate(&self) -> (r: Result<(), String>)
        ensures
            r is Ok ==> self.passes(),
            !self.announced() ==> (r matches Err(e) && Some(e@) == self.complaint()),
            num::repeatable::<S>() ==> match r {
                Ok(_) => self.complaint() is None,
                Err(e) => self.complaint() == Some(e@),
            },
    {
        broadcast use vstd::std_specs::hash::group_hash_axioms;

        if !text::same_text(self.version.as_str(), "push-state-dataset-v1") || self.state_dim == 0
            || self.episodes.len() < 3 {
            return Err(
                "dataset needs version v1, a state dimension and at least 3 episodes".to_owned(),
            );
        }
        let n: usize = self.episodes.len();
        let dim: usize = self.state_dim;
        let mut ids: HashSet<u64> = HashSet::new();
        for i in 0..n
            invariant
                n == self.episodes@.len(),
                dim == self.state_dim,
                self.announced(),
                forall|id: u64| #[trigger] ids@.contains(id) <==> id_taken(self.episodes@, i as nat, id),
                forall|a: int, b: int|
                    0 <= a < b < i ==> (#[trigger] self.episodes@[a]).id != (
                    #[trigger] self.episodes@[b]).id,
                forall|a: int|
                    0 <= a < i ==> (#[trigger] self.episodes@[a]).transitions@.len() > 0
                        && self.episodes@[a].shaped(dim),
                num::repeatable::<S>() ==> first_fault(self.episodes@, dim, i as nat) is None,
        {
            let e: &Episode<S> = &self.episodes[i];
            let ghost before = ids@;
            let fresh: bool = ids.insert(e.id);
            proof {
                assert(fresh == !before.contains(e.id));
                assert(id_taken(self.episodes@, i as nat, e.id) == !fresh);
            }
            if !fresh || e.transitions.len() == 0 {
                proof {
                    lemma_fault_stays(self.episodes@, dim, (i + 1) as nat, n as nat);
                }
                return Err("episode IDs must be unique and episodes nonempty".to_owned());
            }
            if !e.is_sound(dim) {
                proof {
                    if num::repeatable::<S>() {
                        lemma_fault_stays(self.episodes@, dim, (i + 1) as nat, n as nat);
                    }
                }
                return Err("invalid/nonfinite transition".to_owned());
            }
            proof {
                assert forall|id: u64| #[trigger] ids@.contains(id) <==> id_taken(
                    self.episodes@,
                    (i + 1) as nat,
                    id,
                ) by {
                    if id == e.id {
                        assert(self.episodes@[i as int].id == id);
                    }
                    if id_taken(self.episodes@, (i + 1) as nat, id) && id != e.id {
                        let k = choose|k: int|
                            0 <= k < i + 1 && (#[trigger] self.episodes@[k]).id == id;
                        assert(k < i);
                        assert(id_taken(self.episodes@, i as nat, id));
                    }
                    if before.contains(id) {
                        let k = choose|k: int|
                            0 <= k < i && (#[trigger] self.episodes@[k]).id == id;
                        assert(id_taken(self.episodes@, (i + 1) as nat, id));
                    }
                }
            }
        }
        Ok(())
    }

    /// Divides the episodes into a part to train on, a part to choose by and a part to test on.
    pub fn split(&self, seed: u64) -> (r: EpisodeSplit)
        requires
            self.episodes@.len() >= 3,
        ensures
            r.train@ + r.validation@ + r.test@ == dealt(self.episodes@.len(), seed),
            r.validation@.len() == held_out(self.episodes@.len()),
            r.test@.len() == held_out(self.episodes@.len()),
            r.divides(self.episodes@.len()),
    {
        let n: usize = self.episodes.len();
        let mut indices: Vec<usize> = num::count_up(n);
        let mut rng: Rng<S> = Rng::new(seed);
        rng.mix(indices.as_mut_slice());
        proof {
            rng::lemma_mix_permutes(seed, num::counting(n as nat));
        }
        let valid: usize = if n / 10 > 1 {
            n / 10
        } else {
            1
        };
        let all: &[usize] = indices.as_slice();
        let train: &[usize] = vstd::slice::slice_subrange(all, 0, n - valid - valid);
        let validation: &[usize] = vstd::slice::slice_subrange(all, n - valid - valid, n - valid);
        let test: &[usize] = vstd::slice::slice_subrange(all, n - valid, n);
        let r: EpisodeSplit = EpisodeSplit {
            train: vstd::slice::slice_to_vec(train),
            validation: vstd::slice::slice_to_vec(validation),
            test: vstd::slice::slice_to_vec(test),
        };
        proof {
            assert(r.train@ + r.validation@ + r.test@ =~= dealt(n as nat, seed));
            lemma_dealt(n as nat, seed);
        }
        r
    }

    /// The number of transitions.
    pub fn transitions(&self) -> (r: usize)
        requires
            transition_count(self.episodes@, self.episodes@.len()) <= usize::MAX,
        ensures
            r == transition_count(self.episodes@, self.episodes@.len()),
    {
        let n: usize = self.episodes.len();
        let mut sum: usize = 0;
        for i in 0..n
            invariant
                n == self.episodes@.len(),
                transition_count(self.episodes@, n as nat) <= usize::MAX,
                sum == transition_count(self.episodes@, i as nat),
        {
            proof {
                lemma_transition_count(self.episodes@, (i + 1) as nat, n as nat);
            }
            sum = sum + self.episodes[i].transitions.len();
        }
        sum
    }
}

impl EpisodeSplit {
    /// The numbers of all episodes, part by part.
    pub open spec fn all(&self) -> Seq<usize> {
        self.train@ + self.validation@ + self.test@
    }

    /// Whether each of `n` episodes is in one part, in no other and there only once, and no part
    /// is empty.
    pub open spec fn divides(&self, n: nat) -> bool {
        &&& self.all().no_duplicates()
        &&& forall|i: usize| self.all().contains(i) <==> i < n
        &&& self.train@.len() > 0
        &&& self.validation@.len() > 0
        &&& self.test@.len() > 0
    }
}

/// Every episode is dealt once.
pub proof fn lemma_dealt(n: nat, seed: u64)
    requires
        n <= usize::MAX,
    ensures
        dealt(n, seed).len() == n,
        dealt(n, seed).no_duplicates(),
        forall|i: usize| dealt(n, seed).contains(i) <==> i < n,
{
    broadcast use vstd::seq_lib::group_to_multiset_ensures;

    let from = num::counting(n);
    let to = dealt(n, seed);
    rng::lemma_mix_permutes(seed, from);
    from.lemma_multiset_has_no_duplicates();
    to.lemma_multiset_has_no_duplicates_conv();
    assert forall|i: usize| to.contains(i) <==> i < n by {
        assert(to.contains(i) <==> to.to_multiset().count(i) > 0);
        assert(from.contains(i) <==> from.to_multiset().count(i) > 0);
        if i < n {
            assert(from[i as int] == i);
        }
    }
}

/// A fault stays the first one, whatever follows.
proof fn lemma_fault_stays<S: Scalar>(episodes: Seq<Episode<S>>, dim: usize, m: nat, n: nat)
    requires
        m <= n,
        first_fault(episodes, dim, m) is Some,
    ensures
        first_fault(episodes, dim, n) == first_fault(episodes, dim, m),
    decreases n,
{
    if m < n {
        lemma_fault_stays(episodes, dim, m, (n - 1) as nat);
    }
}

/// Fewer episodes do not hold more transitions.
pub proof fn lemma_transition_count<S>(episodes: Seq<Episode<S>>, m: nat, n: nat)
    requires
        m <= n,
    ensures
        transition_count(episodes, m) <= transition_count(episodes, n),
    decreases n,
{
    if m < n {
        lemma_transition_count(episodes, m, (n - 1) as nat);
    }
}

/// No fault is found exactly where all episodes have ids of their own, are nonempty and are sound.
proof fn lemma_no_fault<S: Scalar>(episodes: Seq<Episode<S>>, dim: usize, n: nat)
    requires
        n <= episodes.len(),
    ensures
        first_fault(episodes, dim, n) is None <==> {
            &&& forall|i: int, j: int|
                0 <= i < j < n ==> (#[trigger] episodes[i]).id != (#[trigger] episodes[j]).id
            &&& forall|i: int|
                0 <= i < n ==> (#[trigger] episodes[i]).transitions@.len() > 0
                    && episodes[i].sound(dim)
        },
    decreases n,
{
    if n > 0 {
        let m = (n - 1) as nat;
        lemma_no_fault(episodes, dim, m);
        let e = episodes[n - 1];
        if id_taken(episodes, m, e.id) {
            let i = choose|i: int| 0 <= i < m && (#[trigger] episodes[i]).id == e.id;
            assert(episodes[i].id == episodes[n - 1].id);
        } else {
            assert forall|i: int| 0 <= i < m implies (#[trigger] episodes[i]).id != e.id by {}
        }
    }
}

/// A dataset is accepted exactly where it is announced, its episodes have ids of their own and are
/// nonempty, their states have the given length, and every number in them is finite.
pub proof fn lemma_accepted_datasets<S: Scalar>(d: Dataset<S>)
    ensures
        d.complaint() is None <==> {
            &&& d.shaped()
            &&& forall|i: int|
                0 <= i < d.episodes@.len() ==> (#[trigger] d.episodes@[i]).sound(d.state_dim)
        },
{
    lemma_no_fault(d.episodes@, d.state_dim, d.episodes@.len());
    if d.complaint() is None {
        assert forall|i: int| 0 <= i < d.episodes@.len() implies (
        #[trigger] d.episodes@[i]).transitions@.len() > 0 && d.episodes@[i].shaped(
            d.state_dim,
        ) by {
            assert(d.episodes@[i].sound(d.state_dim));
        }
    }
}

} // verus!
