//! Ensembles of networks that predict how the state moves.
use crate::num::{self, Meaning, Scalar};
use crate::rl::neural::{Mlp, Net, Workspace};
use crate::world::dataset::EpisodeSplit;
use vstd::prelude::*;

verus! {

/// How an ensemble is built and trained, and which fields of the state it predicts.
#[derive(Clone, Debug)]
pub struct WorldConfig<S> {
    pub members: usize,
    pub hidden: usize,
    pub epochs: usize,
    pub batch_size: usize,
    pub learning_rate: S,
    /// Only these state fields are learned. Goal, branch, time and success hold are analytical.
    pub predicted_indices: Vec<usize>,
    pub time_index: Option<usize>,
    pub hold_index: Option<usize>,
    pub decision_dt: S,
}

/// How well an ensemble has learned.
#[derive(Clone, Copy, Debug)]
pub struct WorldMetrics<S> {
    pub train_normalized_mse: S,
    pub validation_normalized_mse: S,
    pub test_one_step_mse: S,
    pub test_five_step_mse: S,
    pub train_episodes: usize,
    pub validation_episodes: usize,
    pub test_episodes: usize,
}

/// An ensemble with the scaling of its inputs and outputs.
#[derive(Debug)]
pub struct WorldModel<S> {
    pub version: String,
    pub config_hash: String,
    pub config: WorldConfig<S>,
    pub state_dim: usize,
    pub members: Vec<Mlp<S>>,
    pub input_mean: Vec<S>,
    pub input_std: Vec<S>,
    pub delta_mean: Vec<S>,
    pub delta_std: Vec<S>,
    pub split: EpisodeSplit,
    pub metrics: WorldMetrics<S>,
}

/// The scratch of one prediction.
#[derive(Debug)]
pub struct PredictionWorkspace<S> {
    pub input: Vec<S>,
    pub outputs: Vec<S>,
    pub member_workspaces: Vec<Workspace<S>>,
}

/// The value of an ensemble: everything that its predictions depend on.
#[verifier::ext_equal]
pub struct Dynamics<S> {
    pub state_dim: nat,
    pub predicted: Seq<usize>,
    pub time_index: Option<usize>,
    pub hold_index: Option<usize>,
    pub decision_dt: S,
    pub members: Seq<Net<S>>,
    pub input_mean: Seq<S>,
    pub input_std: Seq<S>,
    pub delta_mean: Seq<S>,
    pub delta_std: Seq<S>,
}

/// The values of a list of networks.
pub open spec fn nets_of<S: Scalar>(members: Seq<Mlp<S>>) -> Seq<Net<S>> {
    Seq::new(members.len(), |m: int| members[m]@)
}

impl<S: Scalar> View for WorldModel<S> {
    type V = Dynamics<S>;

    open spec fn view(&self) -> Dynamics<S> {
        Dynamics {
            state_dim: self.state_dim as nat,
            predicted: self.config.predicted_indices@,
            time_index: self.config.time_index,
            hold_index: self.config.hold_index,
            decision_dt: self.config.decision_dt,
            members: nets_of(self.members@),
            input_mean: self.input_mean@,
            input_std: self.input_std@,
            delta_mean: self.delta_mean@,
            delta_std: self.delta_std@,
        }
    }
}

impl<S: Scalar> Dynamics<S> {
    /// Whether an optional field of the state exists.
    pub open spec fn has_field(self, index: Option<usize>) -> bool {
        index matches Some(i) ==> i < self.state_dim
    }

    /// Whether the networks take a state and an action and give one number for each predicted
    /// field, there is a scale for each of these, and all named fields exist.
    pub open spec fn wf(self) -> bool {
        &&& forall|m: int|
            0 <= m < self.members.len() ==> {
                &&& (#[trigger] self.members[m]).wf()
                &&& self.members[m].input == self.state_dim + 2
                &&& self.members[m].output == self.predicted.len()
            }
        &&& forall|k: int|
            0 <= k < self.predicted.len() ==> (#[trigger] self.predicted[k]) < self.state_dim
        &&& self.has_field(self.time_index)
        &&& self.has_field(self.hold_index)
        &&& self.input_mean.len() >= self.state_dim + 2
        &&& self.input_std.len() >= self.state_dim + 2
        &&& self.delta_mean.len() >= self.predicted.len()
        &&& self.delta_std.len() >= self.predicted.len()
        &&& self.state_dim + 2 <= usize::MAX
        &&& self.members.len() * self.predicted.len() <= usize::MAX
    }

    /// What the networks are given for a state and an action.
    pub open spec fn input(self, state: Seq<S>, action: Seq<S>) -> Seq<S> {
        Seq::new(
            self.state_dim + 2,
            |i: int|
                {
                    let x = if i < self.state_dim {
                        state[i]
                    } else {
                        action[i - self.state_dim]
                    };
                    x.difference(self.input_mean[i]).quotient(self.input_std[i])
                },
        )
    }

    /// What the members say, for a state and an action, of the predicted field with the number
    /// `k`.
    pub open spec fn votes(self, state: Seq<S>, action: Seq<S>, k: int) -> Seq<S> {
        Seq::new(
            self.members.len(),
            |m: int| self.members[m].value(self.input(state, action))[k],
        )
    }

    /// What the members say on average.
    pub open spec fn mean(self, state: Seq<S>, action: Seq<S>, k: int) -> S {
        average(self.votes(state, action, k))
    }

    /// How far the members are apart, squared.
    pub open spec fn spread(self, state: Seq<S>, action: Seq<S>, k: int) -> S {
        average(
            squares_around(self.votes(state, action, k), self.mean(state, action, k)),
        )
    }

    /// How far the members are apart in each of the predicted fields, squared.
    pub open spec fn spreads(self, state: Seq<S>, action: Seq<S>) -> Seq<S> {
        Seq::new(self.predicted.len(), |k: int| self.spread(state, action, k))
    }

    /// How far the members are apart, in the units of the networks' outputs.
    pub open spec fn uncertainty(self, state: Seq<S>, action: Seq<S>) -> S {
        num::total(self.spreads(state, action), self.predicted.len()).quotient(
            S::counted(self.predicted.len() as u64),
        ).root()
    }

    /// What is predicted of a field: the average, or what one member says.
    pub open spec fn prediction(
        self,
        state: Seq<S>,
        action: Seq<S>,
        member: Option<usize>,
        k: int,
    ) -> S {
        match member {
            None => self.mean(state, action, k),
            Some(m) => self.votes(state, action, k)[m as int % self.members.len() as int],
        }
    }

    /// The state with the first `n` predicted fields moved.
    pub open spec fn moved(
        self,
        state: Seq<S>,
        action: Seq<S>,
        member: Option<usize>,
        n: nat,
    ) -> Seq<S>
        decreases n,
    {
        if n == 0 {
            state
        } else {
            let i = self.predicted[n - 1] as int;
            self.moved(state, action, member, (n - 1) as nat).update(
                i,
                state[i].sum(
                    self.prediction(state, action, member, n - 1).product(self.delta_std[n - 1]),
                ).sum(self.delta_mean[n - 1]),
            )
        }
    }

    /// `next` with the clock moved by one decision from what it was in `state`.
    pub open spec fn timed(self, state: Seq<S>, next: Seq<S>) -> Seq<S> {
        match self.time_index {
            Some(i) => next.update(i as int, state[i as int].sum(self.decision_dt)),
            None => next,
        }
    }

    /// `next` with the clock of success as it was in `state`.
    pub open spec fn held(self, state: Seq<S>, next: Seq<S>) -> Seq<S> {
        match self.hold_index {
            Some(i) => next.update(i as int, state[i as int]),
            None => next,
        }
    }

    /// The state that is predicted to follow.
    pub open spec fn next(self, state: Seq<S>, action: Seq<S>, member: Option<usize>) -> Seq<S> {
        self.held(
            state,
            self.timed(state, self.moved(state, action, member, self.predicted.len())),
        )
    }
}

/// The sum of the numbers divided by their count.
pub open spec fn average<S: Scalar>(values: Seq<S>) -> S {
    num::total(values, values.len()).quotient(S::counted(values.len() as u64))
}

/// The squares of the distances from `center`.
pub open spec fn squares_around<S: Scalar>(values: Seq<S>, center: S) -> Seq<S> {
    Seq::new(values.len(), |i: int| values[i].difference(center).squared())
}

impl<S: Scalar> Default for WorldConfig<S> {
    /// Three members that predict the first fourteen fields.
    fn default() -> (r: Self)
        ensures
            r.members == 3,
            r.hidden == 32,
            r.epochs == 30,
            r.batch_size == 128,
            r.predicted_indices@ == num::counting(14),
            r.time_index == Some(16usize),
            r.hold_index == Some(17usize),
            num::repeatable::<S>() ==> r.learning_rate == S::fraction(1, 1000),
            num::repeatable::<S>() ==> r.decision_dt == S::fraction(1, 15),
    {
        WorldConfig {
            members: 3,
            hidden: 32,
            epochs: 30,
            batch_size: 128,
            learning_rate: S::from_ratio(1, 1000),
            predicted_indices: num::count_up(14),
            time_index: Some(16),
            hold_index: Some(17),
            decision_dt: S::from_ratio(1, 15),
        }
    }
}

impl<S: Scalar> Default for WorldMetrics<S> {
    fn default() -> (r: Self)
        ensures
            r.train_episodes == 0,
            r.validation_episodes == 0,
            r.test_episodes == 0,
            num::repeatable::<S>() ==> {
                &&& r.train_normalized_mse == num::zero::<S>()
                &&& r.validation_normalized_mse == num::zero::<S>()
                &&& r.test_one_step_mse == num::zero::<S>()
                &&& r.test_five_step_mse == num::zero::<S>()
            },
    {
        WorldMetrics {
            train_normalized_mse: S::from_count(0),
            validation_normalized_mse: S::from_count(0),
            test_one_step_mse: S::from_count(0),
            test_five_step_mse: S::from_count(0),
            train_episodes: 0,
            validation_episodes: 0,
            test_episodes: 0,
        }
    }
}

/// Copies of the networks of a list.
fn clone_nets<S: Scalar>(members: &Vec<Mlp<S>>) -> (r: Vec<Mlp<S>>)
    ensures
        nets_of(r@) == nets_of(members@),
{
    let n: usize = members.len();
    let mut r: Vec<Mlp<S>> = Vec::with_capacity(n);
    for m in 0..n
        invariant
            n == members@.len(),
            r@.len() == m,
            forall|i: int| 0 <= i < m ==> (#[trigger] r@[i])@ == members@[i]@,
    {
        r.push(members[m].clone());
    }
    assert(nets_of(r@) =~= nets_of(members@));
    r
}

/// A copy of `values`.
fn copied<T: Copy>(values: &Vec<T>) -> (r: Vec<T>)
    ensures
        r@ == values@,
{
    vstd::slice::slice_to_vec(values.as_slice())
}

impl<S: Scalar> Clone for WorldModel<S> {
    fn clone(&self) -> (r: Self)
        ensures
            r@ == self@,
            r.version@ == self.version@,
            r.config_hash@ == self.config_hash@,
            r.metrics == self.metrics,
            r.split.train@ == self.split.train@,
            r.split.validation@ == self.split.validation@,
            r.split.test@ == self.split.test@,
            r.config.members == self.config.members,
            r.config.hidden == self.config.hidden,
            r.config.epochs == self.config.epochs,
            r.config.batch_size == self.config.batch_size,
            r.config.learning_rate == self.config.learning_rate,
    {
        WorldModel {
            version: self.version.as_str().to_owned(),
            config_hash: self.config_hash.as_str().to_owned(),
            config: WorldConfig {
                members: self.config.members,
                hidden: self.config.hidden,
                epochs: self.config.epochs,
                batch_size: self.config.batch_size,
                learning_rate: self.config.learning_rate,
                predicted_indices: copied(&self.config.predicted_indices),
                time_index: self.config.time_index,
                hold_index: self.config.hold_index,
                decision_dt: self.config.decision_dt,
            },
            state_dim: self.state_dim,
            members: clone_nets(&self.members),
            input_mean: copied(&self.input_mean),
            input_std: copied(&self.input_std),
            delta_mean: copied(&self.delta_mean),
            delta_std: copied(&self.delta_std),
            split: EpisodeSplit {
                train: copied(&self.split.train),
                validation: copied(&self.split.validation),
                test: copied(&self.split.test),
            },
            metrics: self.metrics,
        }
    }
}

impl<S: Scalar> PredictionWorkspace<S> {
    /// Whether the workspace has room for a prediction of `model`.
    pub open spec fn fits(&self, model: Dynamics<S>) -> bool {
        &&& self.input@.len() == model.state_dim + 2
        &&& self.outputs@.len() == model.members.len() * model.predicted.len()
        &&& self.member_workspaces@.len() == model.members.len()
        &&& forall|m: int|
            0 <= m < model.members.len() ==> (#[trigger] self.member_workspaces@[m]).fits(
                model.members[m],
            )
    }
}

/// Cells of a table with rows of the length `n` lie apart from each other, row by row.
proof fn lemma_cell(m: nat, rows: nat, n: nat, k: nat)
    requires
        m < rows,
        k < n,
    ensures
        m * n + k < (m + 1) * n <= rows * n,
        (m + 1) * n == m * n + n,
{
    assert(m * n + k < (m + 1) * n <= rows * n && (m + 1) * n == m * n + n) by (nonlinear_arith)
        requires
            m < rows,
            k < n,
    ;
}

/// The average of the column `k` of a table with `rows` rows of the length `n`.
fn column_mean<S: Scalar>(table: &Vec<S>, rows: usize, n: usize, k: usize) -> (r: S)
    requires
        table@.len() == rows * n,
        k < n,
    ensures
        num::repeatable::<S>() ==> forall|column: Seq<S>|
            column.len() == rows && (forall|m: int|
                0 <= m < rows ==> column[m] == #[trigger] table@[m * n + k]) ==> r
                == #[trigger] average(column),
{
    let ghost column = Seq::new(rows as nat, |m: int| table@[m * n + k]);
    let size: usize = table.len();
    let mut sum: S = S::from_count(0);
    for m in 0..rows
        invariant
            size == table@.len() == rows * n,
            k < n,
            column == Seq::new(rows as nat, |m: int| table@[m * n + k]),
            num::repeatable::<S>() ==> sum == num::total(column, m as nat),
    {
        proof {
            lemma_cell(m as nat, rows as nat, n as nat, k as nat);
        }
        sum = sum.plus(table[m * n + k]);
    }
    proof {
        assert forall|other: Seq<S>|
            other.len() == rows && (forall|m: int|
                0 <= m < rows ==> other[m] == #[trigger] table@[m * n + k]) implies other
            == column by {
            assert forall|m: int| 0 <= m < rows implies other[m] == column[m] by {
                assert(other[m] == table@[m * n + k]);
            }
            assert(other =~= column);
        }
    }
    sum.over(S::from_count(rows as u64))
}

/// The average squared distance of a column from `center`.
fn column_spread<S: Scalar>(table: &Vec<S>, rows: usize, n: usize, k: usize, center: S) -> (r: S)
    requires
        table@.len() == rows * n,
        k < n,
    ensures
        num::repeatable::<S>() ==> forall|column: Seq<S>|
            column.len() == rows && (forall|m: int|
                0 <= m < rows ==> column[m] == #[trigger] table@[m * n + k]) ==> r == average(
                #[trigger] squares_around(column, center),
            ),
{
    let ghost column = Seq::new(rows as nat, |m: int| table@[m * n + k]);
    let size: usize = table.len();
    let mut sum: S = S::from_count(0);
    for m in 0..rows
        invariant
            size == table@.len() == rows * n,
            k < n,
            column == Seq::new(rows as nat, |m: int| table@[m * n + k]),
            num::repeatable::<S>() ==> sum == num::total(squares_around(column, center), m as nat),
    {
        proof {
            lemma_cell(m as nat, rows as nat, n as nat, k as nat);
        }
        sum = sum.plus(table[m * n + k].minus(center).square());
    }
    proof {
        assert forall|other: Seq<S>|
            other.len() == rows && (forall|m: int|
                0 <= m < rows ==> other[m] == #[trigger] table@[m * n + k]) implies other
            == column by {
            assert forall|m: int| 0 <= m < rows implies other[m] == column[m] by {
                assert(other[m] == table@[m * n + k]);
            }
            assert(other =~= column);
        }
    }
    sum.over(S::from_count(rows as u64))
}

impl<S: Scalar> WorldModel<S> {
    /// Whether the networks take a state and an action and give one number for each predicted
    /// field, there is a scale for each of these, and all named fields exist.
    pub fn is_consistent(&self) -> (r: bool)
        ensures
            r == self@.wf(),
    {
        let outputs: usize = self.config.predicted_indices.len();
        let members: usize = self.members.len();
        if self.state_dim > usize::MAX - 2 || members.checked_mul(outputs).is_none() {
            return false;
        }
        let inputs: usize = self.state_dim + 2;
        for m in 0..members
            invariant
                members == self.members@.len(),
                inputs == self.state_dim + 2,
                outputs == self@.predicted.len(),
                forall|i: int|
                    0 <= i < m ==> {
                        &&& (#[trigger] self@.members[i]).wf()
                        &&& self@.members[i].input == inputs
                        &&& self@.members[i].output == outputs
                    },
        {
            let net: &Mlp<S> = &self.members[m];
            assert(self@.members[m as int] == net@);
            if !net.is_shaped() || net.input_dim() != inputs || net.output_dim() != outputs {
                return false;
            }
        }
        for k in 0..outputs
            invariant
                outputs == self@.predicted.len(),
                self@.predicted == self.config.predicted_indices@,
                forall|i: int| 0 <= i < k ==> (#[trigger] self@.predicted[i]) < self.state_dim,
        {
            assert(self@.predicted[k as int] == self.config.predicted_indices@[k as int]);
            if self.config.predicted_indices[k] >= self.state_dim {
                return false;
            }
        }
        let clocked: bool = match self.config.time_index {
            Some(i) => i < self.state_dim,
            None => true,
        };
        let held: bool = match self.config.hold_index {
            Some(i) => i < self.state_dim,
            None => true,
        };
        clocked && held && self.input_mean.len() >= inputs && self.input_std.len() >= inputs
            && self.delta_mean.len() >= outputs && self.delta_std.len() >= outputs
    }

    /// A workspace with room for a prediction.
    pub fn workspace(&self) -> (r: PredictionWorkspace<S>)
        requires
            self@.state_dim + 2 <= usize::MAX,
            self@.members.len() * self@.predicted.len() <= usize::MAX,
        ensures
            r.fits(self@),
            num::repeatable::<S>() ==> r.input@ == num::copies(
                num::zero::<S>(),
                self@.state_dim + 2,
            ),
            num::repeatable::<S>() ==> r.outputs@ == num::copies(
                num::zero::<S>(),
                self@.members.len() * self@.predicted.len(),
            ),
    {
        let n: usize = self.members.len();
        let mut member_workspaces: Vec<Workspace<S>> = Vec::with_capacity(n);
        for m in 0..n
            invariant
                n == self.members@.len(),
                member_workspaces@.len() == m,
                forall|i: int|
                    0 <= i < m ==> (#[trigger] member_workspaces@[i]).fits(self.members@[i]@),
        {
            member_workspaces.push(self.members[m].workspace());
        }
        PredictionWorkspace {
            input: num::repeat(S::from_count(0), self.state_dim + 2),
            outputs: num::repeat(S::from_count(0), n * self.config.predicted_indices.len()),
            member_workspaces,
        }
    }

    /// Writes what the networks are given for a state and an action to `ws.input`.
    fn fill_input(&self, state: &[S], action: [S; 2], ws: &mut PredictionWorkspace<S>)
        requires
            self@.wf(),
            old(ws).fits(self@),
            state@.len() >= self@.state_dim,
        ensures
            final(ws).fits(self@),
            num::repeatable::<S>() ==> final(ws).input@ == self@.input(state@, action@),
    {
        let d: usize = self.state_dim;
        for i in 0..d
            invariant
                self@.wf(),
                d == self.state_dim,
                ws.fits(self@),
                state@.len() >= d,
                num::repeatable::<S>() ==> forall|k: int|
                    0 <= k < i ==> ws.input@[k] == self@.input(state@, action@)[k],
        {
            ws.input[i] = state[i].minus(self.input_mean[i]).over(self.input_std[i]);
        }
        for i in 0..2usize
            invariant
                self@.wf(),
                d == self.state_dim,
                ws.fits(self@),
                num::repeatable::<S>() ==> forall|k: int|
                    0 <= k < d + i ==> ws.input@[k] == self@.input(state@, action@)[k],
        {
            ws.input[d + i] = action[i].minus(self.input_mean[d + i]).over(self.input_std[d + i]);
        }
        proof {
            if num::repeatable::<S>() {
                assert(ws.input@ =~= self@.input(state@, action@));
            }
        }
    }

    /// Asks every member, and writes what they say to `ws.outputs`, row by row.
    fn ask_members(&self, ws: &mut PredictionWorkspace<S>)
        requires
            self@.wf(),
            old(ws).fits(self@),
        ensures
            final(ws).fits(self@),
            final(ws).input@ == old(ws).input@,
            num::repeatable::<S>() ==> forall|m: int, k: int|
                0 <= m < self@.members.len() && 0 <= k < self@.predicted.len()
                    ==> #[trigger] final(ws).outputs@[m * self@.predicted.len() + k]
                    == self@.members[m].value(old(ws).input@)[k],
    {
        let n: usize = self.config.predicted_indices.len();
        let count: usize = self.members.len();
        let size: usize = ws.outputs.len();
        let mut at: usize = 0;
        assert(0 * n == 0) by (nonlinear_arith);
        for m in 0..count
            invariant
                self@.wf(),
                n == self@.predicted.len(),
                count == self@.members.len(),
                size == count * n,
                at == m * n,
                ws.fits(self@),
                ws.input@ == old(ws).input@,
                num::repeatable::<S>() ==> forall|i: int, k: int|
                    0 <= i < m && 0 <= k < n ==> #[trigger] ws.outputs@[i * n + k]
                        == self@.members[i].value(ws.input@)[k],
        {
            assert((m + 1) * n == m * n + n && (m + 1) * n <= count * n) by (nonlinear_arith)
                requires
                    m < count,
            ;
            let ghost before = ws.outputs@;
            assert(self@.members[m as int] == self.members@[m as int]@);
            let output: &[S] = self.members[m].forward(
                ws.input.as_slice(),
                &mut ws.member_workspaces[m],
            );
            num::overwrite(&mut ws.outputs, at, output);
            proof {
                let net = self@.members[m as int];
                assert forall|i: int, k: int|
                    0 <= i < m + 1 && 0 <= k < n && num::repeatable::<S>() implies
                    #[trigger] ws.outputs@[i * n + k] == self@.members[i].value(ws.input@)[k] by {
                    if i < m {
                        lemma_cell(i as nat, m as nat, n as nat, k as nat);
                        assert(ws.outputs@[i * n + k] == before[i * n + k]);
                    } else {
                        assert(ws.outputs@[m * n + k] == net.value(ws.input@)[k]);
                    }
                }
            }
            at = at + n;
        }
    }

    /// Writes the state that is predicted to follow to `next`, and returns how far the members are
    /// apart, as a standard deviation in the units of the networks' outputs. No physics and no
    /// allocations.
    pub fn predict(
        &self,
        state: &[S],
        action: [S; 2],
        next: &mut [S],
        member: Option<usize>,
        ws: &mut PredictionWorkspace<S>,
    ) -> (r: S)
        requires
            self@.wf(),
            old(ws).fits(self@),
            state@.len() >= self@.state_dim,
            old(next)@.len() == state@.len(),
            member is Some ==> self@.members.len() > 0,
        ensures
            final(ws).fits(self@),
            final(next)@.len() == state@.len(),
            forall|i: int|
                0 <= i < state@.len() && !self@.predicted.contains(i as usize)
                    && self@.time_index != Some(i as usize) ==> final(next)@[i] == state@[i],
            self@.hold_index matches Some(i) ==> final(next)@[i as int] == state@[i as int],
            num::repeatable::<S>() ==> final(next)@ == self@.next(state@, action@, member),
            num::repeatable::<S>() ==> r == self@.uncertainty(state@, action@),
    {
        let n: usize = self.config.predicted_indices.len();
        let count: usize = self.members.len();
        num::copy_over(next, state);
        self.fill_input(state, action, ws);
        self.ask_members(ws);
        let mut variance: S = S::from_count(0);
        for k in 0..n
            invariant
                self@.wf(),
                n == self@.predicted.len(),
                count == self@.members.len(),
                ws.fits(self@),
                state@.len() >= self@.state_dim,
                next@.len() == state@.len(),
                member is Some ==> count > 0,
                forall|i: int|
                    0 <= i < state@.len() && !self@.predicted.contains(i as usize) ==> next@[i]
                        == state@[i],
                num::repeatable::<S>() ==> forall|m: int, j: int|
                    0 <= m < count && 0 <= j < n ==> #[trigger] ws.outputs@[m * n + j]
                        == self@.members[m].value(self@.input(state@, action@))[j],
                num::repeatable::<S>() ==> variance == num::total(
                    self@.spreads(state@, action@),
                    k as nat,
                ),
                num::repeatable::<S>() ==> next@ == self@.moved(
                    state@,
                    action@,
                    member,
                    k as nat,
                ),
        {
            let index: usize = self.config.predicted_indices[k];
            let ghost votes = self@.votes(state@, action@, k as int);
            proof {
                if num::repeatable::<S>() {
                    assert forall|m: int| 0 <= m < count implies votes[m]
                        == #[trigger] ws.outputs@[m * n + k] by {}
                }
                assert(self@.predicted[k as int] == index);
                assert(self@.predicted.contains(index));
            }
            let mean: S = column_mean(&ws.outputs, count, n, k);
            let spread: S = column_spread(&ws.outputs, count, n, k, mean);
            proof {
                if num::repeatable::<S>() {
                    assert(mean == average(votes));
                    assert(spread == average(squares_around(votes, mean)));
                }
            }
            variance = variance.plus(spread);
            let prediction: S = match member {
                None => mean,
                Some(m) => {
                    let row: usize = m % count;
                    proof {
                        lemma_cell(row as nat, count as nat, n as nat, k as nat);
                    }
                    ws.outputs[row * n + k]
                },
            };
            next[index] =
            state[index].plus(prediction.times(self.delta_std[k])).plus(self.delta_mean[k]);
        }
        if let Some(i) = self.config.time_index {
            next[i] = state[i].plus(self.config.decision_dt);
        }
        if let Some(i) = self.config.hold_index {
            next[i] = state[i];
        }
        variance.over(S::from_count(n as u64)).sqrt()
    }
}

/// A prediction moves the predicted fields and the clock alone. The clock moves by the duration of a
/// decision, and the clock of success stays as it was.
pub proof fn lemma_next<S: Scalar>(
    model: Dynamics<S>,
    state: Seq<S>,
    action: Seq<S>,
    member: Option<usize>,
)
    requires
        model.wf(),
        state.len() >= model.state_dim,
    ensures
        model.next(state, action, member).len() == state.len(),
        forall|i: int|
            0 <= i < state.len() && !model.predicted.contains(i as usize) && model.time_index
                != Some(i as usize) ==> model.next(state, action, member)[i] == state[i],
        model.time_index matches Some(i) ==> (model.hold_index != Some(i) ==> model.next(
            state,
            action,
            member,
        )[i as int] == state[i as int].sum(model.decision_dt)),
        model.hold_index matches Some(i) ==> model.next(state, action, member)[i as int]
            == state[i as int],
{
    lemma_moved(model, state, action, member, model.predicted.len());
}

/// The fields that are not predicted are not moved.
pub proof fn lemma_moved<S: Scalar>(
    model: Dynamics<S>,
    state: Seq<S>,
    action: Seq<S>,
    member: Option<usize>,
    n: nat,
)
    requires
        model.wf(),
        state.len() >= model.state_dim,
        n <= model.predicted.len(),
    ensures
        model.moved(state, action, member, n).len() == state.len(),
        forall|i: int|
            0 <= i < state.len() && !model.predicted.contains(i as usize) ==> model.moved(
                state,
                action,
                member,
                n,
            )[i] == state[i],
    decreases n,
{
    if n > 0 {
        lemma_moved(model, state, action, member, (n - 1) as nat);
        assert(model.predicted.contains(model.predicted[n - 1]));
    }
}

} // verus!
