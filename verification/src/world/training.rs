//! How the networks of an ensemble learn.
use crate::num::{self, Meaning, Scalar};
use crate::rl::adam::{self, Adam, Moments};
use crate::rl::neural::{self, Mlp, MlpGrad, Net, Workspace};
use crate::rl::rng::{self, Rng};
use crate::world::scaling;
use vstd::prelude::*;

verus! {

/// A network and its optimizer.
#[verifier::ext_equal]
pub struct Learner<S> {
    pub net: Net<S>,
    pub moments: Moments<S>,
}

/// The course of one member's training: what it is, and the best network so far.
#[verifier::ext_equal]
pub struct Search<S> {
    pub learner: Learner<S>,
    pub state: u64,
    pub order: Seq<usize>,
    pub best: Net<S>,
    pub best_loss: S,
}

/// What every member learns from, and how.
pub struct Lesson<S> {
    pub xs: Seq<Seq<S>>,
    pub ys: Seq<Seq<S>>,
    pub val_xs: Seq<Seq<S>>,
    pub val_ys: Seq<Seq<S>>,
    pub lens: Seq<usize>,
    pub input: nat,
    pub hidden: nat,
    pub output: nat,
    pub epochs: nat,
    pub batch: nat,
    pub rate: S,
}

/// The derivatives of the mean squared error with respect to the outputs.
pub open spec fn output_errors<S: Scalar>(net: Net<S>, x: Seq<S>, y: Seq<S>) -> Seq<S> {
    Seq::new(
        y.len(),
        |k: int|
            S::counted(2).product(net.value(x)[k].difference(y[k])).quotient(
                S::counted(y.len() as u64),
            ),
    )
}

/// The gradient that the first `n` rows of a batch add up to.
pub open spec fn batch_gradient<S: Scalar>(
    net: Net<S>,
    xs: Seq<Seq<S>>,
    ys: Seq<Seq<S>>,
    batch: Seq<usize>,
    n: nat,
) -> Seq<S>
    decreases n,
{
    if n == 0 {
        num::copies(num::zero(), net.p.len())
    } else {
        let i = batch[n - 1] as int;
        net.gradient(
            batch_gradient(net, xs, ys, batch, (n - 1) as nat),
            xs[i],
            output_errors(net, xs[i], ys[i]),
        )
    }
}

impl<S: Scalar> Learner<S> {
    /// The learner after one batch.
    pub open spec fn after_batch(
        self,
        xs: Seq<Seq<S>>,
        ys: Seq<Seq<S>>,
        batch: Seq<usize>,
    ) -> Self {
        let g = neural::scaled(
            batch_gradient(self.net, xs, ys, batch, batch.len()),
            num::one::<S>().quotient(S::counted(batch.len() as u64)),
        );
        Learner {
            net: self.net.with(self.moments.applied(self.net.p, g)),
            moments: self.moments.after(self.net.p, g),
        }
    }

    /// The learner after the batches of `order` from the place `from` on.
    pub open spec fn after_batches(
        self,
        xs: Seq<Seq<S>>,
        ys: Seq<Seq<S>>,
        order: Seq<usize>,
        size: nat,
        from: nat,
    ) -> Self
        decreases order.len() - from,
    {
        if from >= order.len() || size == 0 {
            self
        } else {
            let end = chunk_end(order.len(), size, from);
            self.after_batch(xs, ys, order.subrange(from as int, end as int)).after_batches(
                xs,
                ys,
                order,
                size,
                end,
            )
        }
    }
}

/// Where a chunk that starts at `from` ends.
pub open spec fn chunk_end(len: nat, size: nat, from: nat) -> nat {
    if from + size < len {
        from + size
    } else {
        len
    }
}

/// The squared errors of the first `n` rows, added up.
pub open spec fn squared_errors<S: Scalar>(
    net: Net<S>,
    xs: Seq<Seq<S>>,
    ys: Seq<Seq<S>>,
    n: nat,
) -> S
    decreases n,
{
    if n == 0 {
        num::zero()
    } else {
        squared_errors(net, xs, ys, (n - 1) as nat).sum(
            num::total(
                squared_distances(net.value(xs[n - 1]), ys[n - 1]),
                ys[n - 1].len(),
            ),
        )
    }
}

/// The squares of the differences of two rows.
pub open spec fn squared_distances<S: Scalar>(a: Seq<S>, b: Seq<S>) -> Seq<S> {
    Seq::new(b.len(), |k: int| a[k].difference(b[k]).squared())
}

/// The mean squared error of a network.
pub open spec fn mse<S: Scalar>(net: Net<S>, xs: Seq<Seq<S>>, ys: Seq<Seq<S>>) -> S {
    squared_errors(net, xs, ys, xs.len()).quotient(
        S::counted(at_least_one(xs.len() * net.output) as u64),
    )
}

/// `n`, or one where it is zero.
pub open spec fn at_least_one(n: nat) -> nat {
    if n == 0 {
        1
    } else {
        n
    }
}

/// The number of rows before the episode with the number `e`.
pub open spec fn offset(lens: Seq<usize>, e: nat) -> nat
    decreases e,
{
    if e == 0 {
        0
    } else {
        offset(lens, (e - 1) as nat) + lens[e - 1] as nat
    }
}

/// The numbers `from .. from + n`.
pub open spec fn span(from: nat, n: nat) -> Seq<usize> {
    Seq::new(n, |i: int| (from + i) as usize)
}

/// The rows of `n` episodes that are drawn with repetition, and the state of the stream after it.
pub open spec fn bootstrapped(state: u64, lens: Seq<usize>, n: nat) -> (u64, Seq<usize>)
    decreases n,
{
    if n == 0 {
        (state, Seq::empty())
    } else {
        let (before, rows) = bootstrapped(state, lens, (n - 1) as nat);
        let next = rng::advance(before);
        let e = rng::scramble(next) as nat % lens.len();
        (next, rows + span(offset(lens, e), lens[e as int] as nat))
    }
}

impl<S: Scalar> Lesson<S> {
    /// The search after one more epoch.
    pub open spec fn after_epoch(self, s: Search<S>) -> Search<S> {
        let (state, order) = rng::mix_all(s.state, s.order);
        let learner = s.learner.after_batches(self.xs, self.ys, order, self.batch, 0);
        let loss = mse(learner.net, self.val_xs, self.val_ys);
        let better = loss.finite() && loss.is_less(s.best_loss);
        Search {
            learner,
            state,
            order,
            best: if better {
                learner.net
            } else {
                s.best
            },
            best_loss: if better {
                loss
            } else {
                s.best_loss
            },
        }
    }

    /// The search after `n` more epochs.
    pub open spec fn after_epochs(self, s: Search<S>, n: nat) -> Search<S>
        decreases n,
    {
        if n == 0 {
            s
        } else {
            self.after_epoch(self.after_epochs(s, (n - 1) as nat))
        }
    }

    /// The search that a member starts with, for a stream in `state`.
    pub open spec fn start(self, state: u64) -> Search<S> {
        let net = neural::initial_net::<S>(state, self.input, self.hidden, self.output);
        let drawn = rng::advanced(
            state,
            neural::weight_count(self.input, self.hidden, self.output),
        );
        let (after, order) = bootstrapped(drawn, self.lens, self.lens.len());
        Search {
            learner: Learner { net, moments: adam::fresh(net.p.len(), self.rate) },
            state: after,
            order,
            best: net,
            best_loss: S::fraction(1, 0),
        }
    }

    /// The search of a member, for a stream in `state`.
    pub open spec fn search(self, state: u64) -> Search<S> {
        self.after_epochs(self.start(state), self.epochs)
    }

    /// The state of the stream and the best networks of the first `n` members, unless the loss of
    /// one of them is not finite.
    pub open spec fn raised(self, state: u64, n: nat) -> Option<(u64, Seq<Net<S>>)>
        decreases n,
    {
        if n == 0 {
            Some((state, Seq::empty()))
        } else {
            match self.raised(state, (n - 1) as nat) {
                None => None,
                Some((before, nets)) => {
                    let s = self.search(before);
                    if s.best_loss.finite() {
                        Some((s.state, nets.push(s.best)))
                    } else {
                        None
                    }
                },
            }
        }
    }
}

/// A member that fails is not made up for by the following ones.
pub proof fn lemma_raised_fails<S: Scalar>(lesson: Lesson<S>, state: u64, m: nat, n: nat)
    requires
        m <= n,
        lesson.raised(state, m) is None,
    ensures
        lesson.raised(state, n) is None,
    decreases n,
{
    if m < n {
        lemma_raised_fails(lesson, state, m, (n - 1) as nat);
    }
}

/// Fewer episodes do not have more rows.
pub proof fn lemma_offset(lens: Seq<usize>, m: nat, n: nat)
    requires
        m <= n,
    ensures
        offset(lens, m) <= offset(lens, n),
    decreases n,
{
    if m < n {
        lemma_offset(lens, m, (n - 1) as nat);
    }
}

/// Learns from one batch of rows.
fn learn_batch<S: Scalar>(
    net: &mut Mlp<S>,
    optimizer: &mut Adam<S>,
    gradient: &mut MlpGrad<S>,
    ws: &mut Workspace<S>,
    xs: &Vec<Vec<S>>,
    ys: &Vec<Vec<S>>,
    batch: &[usize],
)
    requires
        old(net)@.wf(),
        old(ws).fits(old(net)@),
        old(gradient).data@.len() == old(net)@.p.len(),
        xs@.len() == ys@.len(),
        scaling::wide(scaling::rows_of(xs@), old(net)@.input),
        scaling::wide(scaling::rows_of(ys@), old(net)@.output),
        forall|i: int| 0 <= i < batch@.len() ==> (#[trigger] batch@[i]) < xs@.len(),
    ensures
        final(net)@.wf(),
        final(net)@.same_shape(old(net)@),
        final(ws).fits(final(net)@),
        final(gradient).data@.len() == old(gradient).data@.len(),
        num::repeatable::<S>() ==> (Learner { net: final(net)@, moments: final(optimizer)@ }) == (
        Learner { net: old(net)@, moments: old(optimizer)@ }).after_batch(
            scaling::rows_of(xs@),
            scaling::rows_of(ys@),
            batch@,
        ),
{
    let n: usize = batch.len();
    let outputs: usize = net.output;
    let ghost x_rows = scaling::rows_of(xs@);
    let ghost y_rows = scaling::rows_of(ys@);
    let mut output_grad: Vec<S> = num::repeat(S::from_count(0), outputs);
    gradient.zero();
    for b in 0..n
        invariant
            n == batch@.len(),
            net@ == old(net)@,
            net@.wf(),
            outputs == net@.output,
            ws.fits(net@),
            gradient.data@.len() == net@.p.len(),
            output_grad@.len() == outputs,
            xs@.len() == ys@.len(),
            x_rows == scaling::rows_of(xs@),
            y_rows == scaling::rows_of(ys@),
            scaling::wide(x_rows, net@.input),
            scaling::wide(y_rows, net@.output),
            forall|i: int| 0 <= i < batch@.len() ==> (#[trigger] batch@[i]) < xs@.len(),
            num::repeatable::<S>() ==> gradient.data@ == batch_gradient(
                net@,
                x_rows,
                y_rows,
                batch@,
                b as nat,
            ),
    {
        let i: usize = batch[b];
        assert(x_rows[i as int] == xs@[i as int]@);
        assert(y_rows[i as int] == ys@[i as int]@);
        let pred: &[S] = net.forward(xs[i].as_slice(), ws);
        let ghost errors = output_errors(net@, x_rows[i as int], y_rows[i as int]);
        for k in 0..outputs
            invariant
                outputs == pred@.len() == output_grad@.len() == ys@[i as int]@.len(),
                i < ys@.len(),
                errors == output_errors(net@, xs@[i as int]@, ys@[i as int]@),
                num::repeatable::<S>() ==> pred@ == net@.value(xs@[i as int]@),
                num::repeatable::<S>() ==> forall|j: int|
                    0 <= j < k ==> output_grad@[j] == errors[j],
        {
            output_grad[k] =
            S::from_count(2).times(pred[k].minus(ys[i][k])).over(S::from_count(outputs as u64));
        }
        proof {
            if num::repeatable::<S>() {
                assert(output_grad@ =~= errors);
            }
        }
        net.backward(ws, output_grad.as_slice(), gradient);
    }
    gradient.scale(S::from_count(1).over(S::from_count(n as u64)));
    optimizer.step(net, gradient);
}

/// Learns from rows, batch by batch.
fn learn_batches<S: Scalar>(
    net: &mut Mlp<S>,
    optimizer: &mut Adam<S>,
    gradient: &mut MlpGrad<S>,
    ws: &mut Workspace<S>,
    xs: &Vec<Vec<S>>,
    ys: &Vec<Vec<S>>,
    order: &Vec<usize>,
    size: usize,
)
    requires
        old(net)@.wf(),
        old(ws).fits(old(net)@),
        old(gradient).data@.len() == old(net)@.p.len(),
        xs@.len() == ys@.len(),
        scaling::wide(scaling::rows_of(xs@), old(net)@.input),
        scaling::wide(scaling::rows_of(ys@), old(net)@.output),
        forall|i: int| 0 <= i < order@.len() ==> (#[trigger] order@[i]) < xs@.len(),
        size > 0,
    ensures
        final(net)@.wf(),
        final(net)@.same_shape(old(net)@),
        final(ws).fits(final(net)@),
        final(gradient).data@.len() == old(gradient).data@.len(),
        num::repeatable::<S>() ==> (Learner { net: final(net)@, moments: final(optimizer)@ }) == (
        Learner { net: old(net)@, moments: old(optimizer)@ }).after_batches(
            scaling::rows_of(xs@),
            scaling::rows_of(ys@),
            order@,
            size as nat,
            0,
        ),
{
    let n: usize = order.len();
    let mut from: usize = 0;
    let ghost x_rows = scaling::rows_of(xs@);
    let ghost y_rows = scaling::rows_of(ys@);
    let ghost target = (Learner { net: net@, moments: optimizer@ }).after_batches(
        x_rows,
        y_rows,
        order@,
        size as nat,
        0,
    );
    while from < n
        invariant
            from <= n == order@.len(),
            size > 0,
            net@.wf(),
            net@.same_shape(old(net)@),
            ws.fits(net@),
            gradient.data@.len() == net@.p.len() == old(gradient).data@.len(),
            xs@.len() == ys@.len(),
            x_rows == scaling::rows_of(xs@),
            y_rows == scaling::rows_of(ys@),
            scaling::wide(x_rows, net@.input),
            scaling::wide(y_rows, net@.output),
            forall|i: int| 0 <= i < order@.len() ==> (#[trigger] order@[i]) < xs@.len(),
            num::repeatable::<S>() ==> target == (Learner {
                net: net@,
                moments: optimizer@,
            }).after_batches(x_rows, y_rows, order@, size as nat, from as nat),
        decreases n - from,
    {
        let end: usize = if size < n - from {
            from + size
        } else {
            n
        };
        let batch: &[usize] = vstd::slice::slice_subrange(order.as_slice(), from, end);
        learn_batch(net, optimizer, gradient, ws, xs, ys, batch);
        from = end;
    }
}

/// The mean squared error of a network.
pub fn network_mse<S: Scalar>(net: &Mlp<S>, xs: &Vec<Vec<S>>, ys: &Vec<Vec<S>>) -> (r: S)
    requires
        net@.wf(),
        xs@.len() == ys@.len(),
        scaling::wide(scaling::rows_of(xs@), net@.input),
        scaling::wide(scaling::rows_of(ys@), net@.output),
        xs@.len() * net@.output <= usize::MAX,
    ensures
        num::repeatable::<S>() ==> r == mse(net@, scaling::rows_of(xs@), scaling::rows_of(ys@)),
{
    let n: usize = xs.len();
    let outputs: usize = net.output;
    let mut ws: Workspace<S> = net.workspace();
    let mut sq: S = S::from_count(0);
    let ghost x_rows = scaling::rows_of(xs@);
    let ghost y_rows = scaling::rows_of(ys@);
    for t in 0..n
        invariant
            n == xs@.len() == ys@.len(),
            net@.wf(),
            outputs == net@.output,
            ws.fits(net@),
            x_rows == scaling::rows_of(xs@),
            y_rows == scaling::rows_of(ys@),
            scaling::wide(x_rows, net@.input),
            scaling::wide(y_rows, net@.output),
            num::repeatable::<S>() ==> sq == squared_errors(net@, x_rows, y_rows, t as nat),
    {
        assert(x_rows[t as int] == xs@[t as int]@);
        assert(y_rows[t as int] == ys@[t as int]@);
        let pred: &[S] = net.forward(xs[t].as_slice(), &mut ws);
        let ghost distances = squared_distances(net@.value(x_rows[t as int]), y_rows[t as int]);
        let mut sum: S = S::from_count(0);
        for k in 0..outputs
            invariant
                t < ys@.len(),
                outputs == pred@.len() == ys@[t as int]@.len(),
                distances == squared_distances(net@.value(xs@[t as int]@), ys@[t as int]@),
                num::repeatable::<S>() ==> pred@ == net@.value(xs@[t as int]@),
                num::repeatable::<S>() ==> sum == num::total(distances, k as nat),
        {
            sum = sum.plus(pred[k].minus(ys[t][k]).square());
        }
        sq = sq.plus(sum);
    }
    let cells: usize = n * outputs;
    let count: usize = if cells == 0 {
        1
    } else {
        cells
    };
    sq.over(S::from_count(count as u64))
}

/// The rows of as many episodes as there are, drawn with repetition.
fn bootstrap<S: Scalar>(rng: &mut Rng<S>, lens: &Vec<usize>) -> (r: Vec<usize>)
    requires
        offset(lens@, lens@.len()) <= usize::MAX,
    ensures
        final(rng).spare == old(rng).spare,
        (final(rng).state, r@) == bootstrapped(old(rng).state, lens@, lens@.len()),
        forall|i: int| 0 <= i < r@.len() ==> (#[trigger] r@[i]) < offset(lens@, lens@.len()),
{
    let n: usize = lens.len();
    let ghost all = offset(lens@, lens@.len());
    let mut offsets: Vec<usize> = Vec::with_capacity(n);
    let mut sum: usize = 0;
    for e in 0..n
        invariant
            n == lens@.len(),
            all == offset(lens@, lens@.len()) <= usize::MAX,
            sum == offset(lens@, e as nat),
            offsets@.len() == e,
            forall|k: int| 0 <= k < e ==> (#[trigger] offsets@[k]) == offset(lens@, k as nat),
    {
        proof {
            lemma_offset(lens@, (e + 1) as nat, n as nat);
        }
        offsets.push(sum);
        sum = sum + lens[e];
    }
    let mut r: Vec<usize> = Vec::new();
    for k in 0..n
        invariant
            n == lens@.len() == offsets@.len(),
            all == offset(lens@, lens@.len()) <= usize::MAX,
            forall|k: int| 0 <= k < n ==> (#[trigger] offsets@[k]) == offset(lens@, k as nat),
            rng.spare == old(rng).spare,
            (rng.state, r@) == bootstrapped(old(rng).state, lens@, k as nat),
            forall|i: int| 0 <= i < r@.len() ==> (#[trigger] r@[i]) < all,
    {
        let e: usize = rng.index(n);
        let from: usize = offsets[e];
        let count: usize = lens[e];
        let ghost done = r@;
        proof {
            lemma_offset(lens@, (e + 1) as nat, n as nat);
        }
        for i in 0..count
            invariant
                from + count <= all <= usize::MAX,
                forall|i: int| 0 <= i < r@.len() ==> (#[trigger] r@[i]) < all,
                r@ == done + span(from as nat, i as nat),
        {
            r.push(from + i);
            assert(r@ =~= done + span(from as nat, (i + 1) as nat));
        }
    }
    r
}

/// Trains one member and returns its best network, with the loss of that one.
pub fn train_member<S: Scalar>(
    xs: &Vec<Vec<S>>,
    ys: &Vec<Vec<S>>,
    val_xs: &Vec<Vec<S>>,
    val_ys: &Vec<Vec<S>>,
    lens: &Vec<usize>,
    widths: (usize, usize, usize),
    epochs: usize,
    batch_size: usize,
    learning_rate: S,
    rng: &mut Rng<S>,
) -> (r: (Mlp<S>, S))
    requires
        widths.0 > 0,
        widths.1 > 0,
        widths.2 > 0,
        batch_size > 0,
        neural::parameter_count(widths.0 as nat, widths.1 as nat, widths.2 as nat) <= usize::MAX,
        xs@.len() == ys@.len(),
        val_xs@.len() == val_ys@.len(),
        scaling::wide(scaling::rows_of(xs@), widths.0 as nat),
        scaling::wide(scaling::rows_of(ys@), widths.2 as nat),
        scaling::wide(scaling::rows_of(val_xs@), widths.0 as nat),
        scaling::wide(scaling::rows_of(val_ys@), widths.2 as nat),
        val_xs@.len() * widths.2 <= usize::MAX,
        offset(lens@, lens@.len()) == xs@.len(),
        num::repeatable::<S>() ==> num::positive(learning_rate),
    ensures
        r.0@.wf(),
        r.0@.input == widths.0,
        r.0@.hidden == widths.1,
        r.0@.output == widths.2,
        final(rng).spare == old(rng).spare,
        num::repeatable::<S>() ==> ({
            let s = (Lesson {
                xs: scaling::rows_of(xs@),
                ys: scaling::rows_of(ys@),
                val_xs: scaling::rows_of(val_xs@),
                val_ys: scaling::rows_of(val_ys@),
                lens: lens@,
                input: widths.0 as nat,
                hidden: widths.1 as nat,
                output: widths.2 as nat,
                epochs: epochs as nat,
                batch: batch_size as nat,
                rate: learning_rate,
            }).search(old(rng).state);
            &&& final(rng).state == s.state
            &&& r.0@ == s.best
            &&& r.1 == s.best_loss
        }),
{
    let ghost lesson = Lesson {
        xs: scaling::rows_of(xs@),
        ys: scaling::rows_of(ys@),
        val_xs: scaling::rows_of(val_xs@),
        val_ys: scaling::rows_of(val_ys@),
        lens: lens@,
        input: widths.0 as nat,
        hidden: widths.1 as nat,
        output: widths.2 as nat,
        epochs: epochs as nat,
        batch: batch_size as nat,
        rate: learning_rate,
    };
    let ghost start = lesson.start(rng.state);
    let rows: usize = xs.len();
    let mut net: Mlp<S> = Mlp::new(widths.0, widths.1, widths.2, rng);
    let mut optimizer: Adam<S> = Adam::new(&net, learning_rate);
    let mut gradient: MlpGrad<S> = MlpGrad::new(&net);
    let mut ws: Workspace<S> = net.workspace();
    let mut order: Vec<usize> = bootstrap(rng, lens);
    let mut best: Mlp<S> = net.clone();
    let mut best_loss: S = S::from_ratio(1, 0);
    for e in 0..epochs
        invariant
            net@.wf(),
            net@.input == widths.0,
            net@.hidden == widths.1,
            net@.output == widths.2,
            best@.wf(),
            best@.same_shape(net@),
            ws.fits(net@),
            gradient.data@.len() == net@.p.len(),
            batch_size > 0,
            rows == xs@.len() == ys@.len(),
            val_xs@.len() == val_ys@.len(),
            scaling::wide(scaling::rows_of(xs@), widths.0 as nat),
            scaling::wide(scaling::rows_of(ys@), widths.2 as nat),
            scaling::wide(scaling::rows_of(val_xs@), widths.0 as nat),
            scaling::wide(scaling::rows_of(val_ys@), widths.2 as nat),
            val_xs@.len() * widths.2 <= usize::MAX,
            forall|i: int| 0 <= i < order@.len() ==> (#[trigger] order@[i]) < rows,
            rng.spare == old(rng).spare,
            lesson.xs == scaling::rows_of(xs@),
            lesson.ys == scaling::rows_of(ys@),
            lesson.val_xs == scaling::rows_of(val_xs@),
            lesson.val_ys == scaling::rows_of(val_ys@),
            lesson.batch == batch_size,
            num::repeatable::<S>() ==> lesson.after_epochs(start, e as nat) == (Search {
                learner: Learner { net: net@, moments: optimizer@ },
                state: rng.state,
                order: order@,
                best: best@,
                best_loss,
            }),
    {
        let ghost from = order@;
        let held: usize = order.len();
        proof {
            rng::lemma_mix_permutes(rng.state, from);
        }
        rng.mix(order.as_mut_slice());
        proof {
            rng::lemma_reordered_bound(from, order@, rows as nat);
        }
        learn_batches(&mut net, &mut optimizer, &mut gradient, &mut ws, xs, ys, &order, batch_size);
        let loss: S = network_mse(&net, val_xs, val_ys);
        if loss.is_finite() && loss.less(best_loss) {
            best_loss = loss;
            best = net.clone();
        }
    }
    (best, best_loss)
}

} // verus!
