//! Training inside a learned model: where rollouts start, and the environments they take place in.
use crate::env::observation::ObsLayout;
use crate::env::state::STATE_DIM;
use crate::num::{self, Meaning, Scalar};
use crate::rl::environment::Environment;
use crate::rl::ppo::{self, Ppo, PpoConfig, TrainStats};
use crate::rl::rollout::{self, Track};
use crate::stages::adapters::{self, WorldEnv};
use crate::stages::dreams;
use crate::stages::imitation;
use crate::world::dataset::{Dataset, Episode, Transition};
use crate::world::model::{self, Dynamics, PredictionWorkspace, WorldModel};
use vstd::prelude::*;

verus! {

/// The first states of the episodes that have one.
pub open spec fn opening_states<S>(episodes: Seq<Episode<S>>) -> Seq<Seq<S>> {
    let places = dreams::nonempty(episodes, episodes.len());
    Seq::new(places.len(), |k: int| episodes[places[k]].transitions@[0].state@)
}

/// How far apart the states are that rollouts start from, out of `n`.
pub open spec fn spacing(n: nat) -> nat {
    if n / 512 > 1 {
        n / 512
    } else {
        1
    }
}

/// The number of states that rollouts start from, out of `n`.
pub open spec fn spaced(n: nat) -> nat {
    if n == 0 {
        0
    } else {
        ((n - 1) / spacing(n) as int + 1) as nat
    }
}

/// States from the whole of the transitions, equally far apart.
pub open spec fn replayed_states<S>(ts: Seq<Transition<S>>) -> Seq<Seq<S>> {
    Seq::new(spaced(ts.len()), |k: int| ts[k * spacing(ts.len())].state@)
}

/// The states that rollouts start from: those of the whole dataset, or the first ones of its
/// episodes.
pub open spec fn start_states<S>(episodes: Seq<Episode<S>>, replay: bool) -> Seq<Seq<S>> {
    if replay {
        replayed_states(imitation::listed(episodes, episodes.len()))
    } else {
        opening_states(episodes)
    }
}

/// The states that the rollouts of one lane start from. With replay each lane has all of them, in
/// an order that starts elsewhere; else it has two.
pub open spec fn lane_states<S>(starts: Seq<Seq<S>>, lane: nat, replay: bool) -> Seq<Seq<S>> {
    let n = starts.len();
    if replay {
        Seq::new(n, |i: int| starts[(i + lane % n) % n as int])
    } else {
        seq![starts[(lane % n) as int], starts[((lane + 1) % n) as int]]
    }
}

/// The transitions of a dataset have encoded states.
proof fn lemma_listed_encoded<S>(episodes: Seq<Episode<S>>, n: nat)
    requires
        n <= episodes.len(),
        imitation::all_encoded(episodes),
    ensures
        forall|i: int|
            0 <= i < imitation::listed(episodes, n).len() ==> (#[trigger] imitation::listed(
                episodes,
                n,
            )[i]).state@.len() == STATE_DIM,
    decreases n,
{
    if n > 0 {
        lemma_listed_encoded(episodes, (n - 1) as nat);
        let before = imitation::listed(episodes, (n - 1) as nat);
        let all = imitation::listed(episodes, n);
        assert forall|i: int| 0 <= i < all.len() implies (#[trigger] all[i]).state@.len()
            == STATE_DIM by {
            if i < before.len() {
                assert(all[i] == before[i]);
            } else {
                assert(all[i] == episodes[n - 1].transitions@[i - before.len()]);
            }
        }
    }
}

/// References to the transitions of all episodes, in their order.
fn list_transitions<'a, S: Scalar>(dataset: &'a Dataset<S>) -> (r: Vec<&'a Transition<S>>)
    ensures
        r@.len() == imitation::listed(dataset.episodes@, dataset.episodes@.len()).len(),
        forall|i: int|
            0 <= i < r@.len() ==> *(#[trigger] r@[i]) == imitation::listed(
                dataset.episodes@,
                dataset.episodes@.len(),
            )[i],
{
    let n: usize = dataset.episodes.len();
    let ghost all = dataset.episodes@;
    let mut r: Vec<&'a Transition<S>> = Vec::new();
    for e in 0..n
        invariant
            n == all.len(),
            all == dataset.episodes@,
            r@.len() == imitation::listed(all, e as nat).len(),
            forall|i: int|
                0 <= i < r@.len() ==> *(#[trigger] r@[i]) == imitation::listed(all, e as nat)[i],
    {
        let episode: &'a Episode<S> = &dataset.episodes[e];
        let count: usize = episode.transitions.len();
        let ghost done = imitation::listed(all, e as nat);
        let ghost ts = episode.transitions@;
        for t in 0..count
            invariant
                count == ts.len(),
                ts == episode.transitions@,
                r@.len() == done.len() + t,
                forall|i: int|
                    0 <= i < r@.len() ==> *(#[trigger] r@[i]) == (done + ts)[i],
        {
            let ghost before = r@;
            r.push(&episode.transitions[t]);
            proof {
                assert forall|i: int| 0 <= i < r@.len() implies *(#[trigger] r@[i]) == (done
                    + ts)[i] by {
                    if i < before.len() {
                        assert(r@[i] == before[i]);
                    }
                }
            }
        }
    }
    r
}

/// The states that rollouts start from. Short rollouts need states from the whole dataset: from
/// episode starts alone they never reach the end of the task.
pub fn select_starts<S: Scalar>(dataset: &Dataset<S>, replay: bool) -> (r: Vec<Vec<S>>)
    ensures
        adapters::states_of(r@) == start_states(dataset.episodes@, replay),
{
    let ghost all = dataset.episodes@;
    let mut r: Vec<Vec<S>> = Vec::new();
    if replay {
        let ts: Vec<&Transition<S>> = list_transitions(dataset);
        let n: usize = ts.len();
        let ghost list = imitation::listed(all, all.len());
        let ghost want = replayed_states(list);
        if n == 0 {
            assert(adapters::states_of(r@) =~= want);
            return r;
        }
        let step: usize = if n / 512 > 1 {
            n / 512
        } else {
            1
        };
        let count: usize = (n - 1) / step + 1;
        let mut at: usize = 0;
        proof {
            assert(0 * step == 0) by (nonlinear_arith);
            vstd::arithmetic::div_mod::lemma_fundamental_div_mod((n - 1) as int, step as int);
            vstd::arithmetic::div_mod::lemma_mod_bound((n - 1) as int, step as int);
        }
        for k in 0..count
            invariant
                n == ts@.len() == list.len(),
                n > 0,
                step == spacing(n as nat),
                count == spaced(n as nat),
                count == (n - 1) / (step as int) + 1,
                (n - 1) as int == step * ((n - 1) / (step as int)) + (n - 1) % (step as int),
                0 <= (n - 1) % (step as int),
                want == replayed_states(list),
                forall|i: int| 0 <= i < n ==> *(#[trigger] ts@[i]) == list[i],
                k < count ==> at == k * step,
                r@.len() == k,
                forall|i: int| 0 <= i < k ==> (#[trigger] r@[i])@ == want[i],
        {
            proof {
                let last = (n - 1) / (step as int);
                assert(k * step <= last * step) by (nonlinear_arith)
                    requires
                        k <= last,
                        step > 0,
                ;
                assert(last * step == step * last) by (nonlinear_arith);
                assert((k + 1) * step == k * step + step) by (nonlinear_arith);
                if k + 1 < count {
                    assert((k + 1) * step <= last * step) by (nonlinear_arith)
                        requires
                            k + 1 <= last,
                            step > 0,
                    ;
                }
                assert(*ts@[at as int] == list[at as int]);
            }
            r.push(vstd::slice::slice_to_vec(ts[at].state.as_slice()));
            if k + 1 < count {
                at = at + step;
            }
        }
        assert(adapters::states_of(r@) =~= want);
    } else {
        let n: usize = dataset.episodes.len();
        for e in 0..n
            invariant
                n == all.len(),
                all == dataset.episodes@,
                r@.len() == dreams::nonempty(all, e as nat).len(),
                forall|k: int|
                    0 <= k < r@.len() ==> (#[trigger] r@[k])@ == all[dreams::nonempty(
                        all,
                        e as nat,
                    )[k]].transitions@[0].state@,
        {
            let episode: &Episode<S> = &dataset.episodes[e];
            if episode.transitions.len() > 0 {
                let ghost before = r@;
                r.push(vstd::slice::slice_to_vec(episode.transitions[0].state.as_slice()));
                proof {
                    let now = dreams::nonempty(all, (e + 1) as nat);
                    assert forall|k: int| 0 <= k < r@.len() implies (#[trigger] r@[k])@
                        == all[now[k]].transitions@[0].state@ by {
                        if k < before.len() {
                            assert(r@[k] == before[k]);
                        }
                    }
                }
            }
        }
        assert(adapters::states_of(r@) =~= opening_states(all));
    }
    r
}

/// What rollouts start from is encoded states where the dataset has nothing else.
pub proof fn lemma_starts_encoded<S>(episodes: Seq<Episode<S>>, replay: bool)
    requires
        imitation::all_encoded(episodes),
    ensures
        adapters::all_states(start_states(episodes, replay)),
{
    if replay {
        let list = imitation::listed(episodes, episodes.len());
        lemma_listed_encoded(episodes, episodes.len());
        let want = replayed_states(list);
        let n = list.len();
        assert forall|k: int| 0 <= k < want.len() implies (#[trigger] want[k]).len()
            == STATE_DIM by {
            let step = spacing(n) as int;
            vstd::arithmetic::div_mod::lemma_fundamental_div_mod(n - 1, step);
            vstd::arithmetic::div_mod::lemma_mod_bound(n - 1, step);
            let last = (n - 1) / step;
            assert(0 <= k * step <= last * step) by (nonlinear_arith)
                requires
                    0 <= k <= last,
                    step > 0,
            ;
            assert(last * step == step * last) by (nonlinear_arith);
            assert(list[k * step].state@.len() == STATE_DIM);
        }
    } else {
        let places = dreams::nonempty(episodes, episodes.len());
        lemma_nonempty(episodes, episodes.len());
        assert forall|k: int| 0 <= k < places.len() implies (#[trigger] opening_states(
            episodes,
        )[k]).len() == STATE_DIM by {
            assert(episodes[places[k]].transitions@[0].state@.len() == STATE_DIM);
        }
    }
}

/// The episodes that are listed have a transition.
pub proof fn lemma_nonempty<S>(episodes: Seq<Episode<S>>, n: nat)
    requires
        n <= episodes.len(),
    ensures
        forall|k: int|
            0 <= k < dreams::nonempty(episodes, n).len() ==> 0 <= #[trigger] dreams::nonempty(
                episodes,
                n,
            )[k] < n && episodes[dreams::nonempty(episodes, n)[k]].transitions@.len() > 0,
    decreases n,
{
    if n > 0 {
        lemma_nonempty(episodes, (n - 1) as nat);
        let before = dreams::nonempty(episodes, (n - 1) as nat);
        let now = dreams::nonempty(episodes, n);
        assert forall|k: int| 0 <= k < now.len() implies 0 <= #[trigger] now[k] < n
            && episodes[now[k]].transitions@.len() > 0 by {
            if k < before.len() {
                assert(now[k] == before[k]);
            }
        }
    }
}

/// The states that the rollouts of one lane start from.
pub fn lane_starts<S: Scalar>(starts: &Vec<Vec<S>>, lane: usize, replay: bool) -> (r: Vec<Vec<S>>)
    requires
        starts@.len() > 0,
        lane < usize::MAX,
    ensures
        adapters::states_of(r@) == lane_states(
            adapters::states_of(starts@),
            lane as nat,
            replay,
        ),
        r@.len() > 0,
{
    let n: usize = starts.len();
    let ghost all = adapters::states_of(starts@);
    let ghost want = lane_states(all, lane as nat, replay);
    let mut r: Vec<Vec<S>> = Vec::new();
    if replay {
        let from: usize = lane % n;
        let mut at: usize = from;
        proof {
            assert(from as int % n as int == from) by (nonlinear_arith)
                requires
                    from < n,
            ;
        }
        for i in 0..n
            invariant
                n == starts@.len() > 0,
                all == adapters::states_of(starts@),
                want == lane_states(all, lane as nat, true),
                from == lane % n,
                at < n,
                at == (i + from) as int % n as int,
                r@.len() == i,
                forall|k: int| 0 <= k < i ==> (#[trigger] r@[k])@ == want[k],
        {
            assert(want[i as int] == all[at as int]);
            r.push(vstd::slice::slice_to_vec(starts[at].as_slice()));
            let next: usize = if at + 1 < n {
                at + 1
            } else {
                0
            };
            proof {
                let x = (i + from) as int;
                let m = n as int;
                vstd::arithmetic::div_mod::lemma_fundamental_div_mod(x, m);
                let q = x / m;
                assert(m * q == q * m) by (nonlinear_arith);
                if at + 1 < n {
                    vstd::arithmetic::div_mod::lemma_fundamental_div_mod_converse(
                        x + 1,
                        m,
                        x / m,
                        at + 1,
                    );
                } else {
                    assert((q + 1) * m == q * m + m) by (nonlinear_arith);
                    vstd::arithmetic::div_mod::lemma_fundamental_div_mod_converse(
                        x + 1,
                        m,
                        x / m + 1,
                        0,
                    );
                }
            }
            at = next;
        }
    } else {
        r.push(vstd::slice::slice_to_vec(starts[lane % n].as_slice()));
        r.push(vstd::slice::slice_to_vec(starts[(lane + 1) % n].as_slice()));
    }
    assert(adapters::states_of(r@) =~= want);
    r
}

/// With replay, a lane has every state that rollouts start from, as often as it occurs.
pub proof fn lemma_replay_lanes_keep_all<S>(starts: Seq<Seq<S>>, lane: nat)
    requires
        starts.len() > 0,
    ensures
        lane_states(starts, lane, true).to_multiset() == starts.to_multiset(),
{
    let n = starts.len() as int;
    let k = (lane % starts.len()) as int;
    let own = lane_states(starts, lane, true);
    let head = starts.take(k);
    let tail = starts.skip(k);
    assert forall|i: int| 0 <= i < n implies own[i] == (tail + head)[i] by {
        if i + k < n {
            vstd::arithmetic::div_mod::lemma_fundamental_div_mod_converse(i + k, n, 0, i + k);
        } else {
            vstd::arithmetic::div_mod::lemma_fundamental_div_mod_converse(i + k, n, 1, i + k - n);
        }
    }
    assert(own =~= tail + head);
    assert(starts =~= head + tail);
    vstd::seq_lib::lemma_seq_union_to_multiset_commutative(head, tail);
}

/// The value that an optional number stands for, which is not below zero.
pub open spec fn allowance_of<S: Scalar>(given: Option<S>, otherwise: S) -> S {
    (match given {
        Some(x) => x,
        None => otherwise,
    }).larger(num::zero())
}

/// The limit on uncertainty: three quarters where none is given, and not below zero.
pub fn uncertainty_limit<S: Scalar>(given: Option<S>) -> (r: S)
    ensures
        num::repeatable::<S>() ==> r == allowance_of(given, S::fraction(3, 4)),
{
    let x: S = match given {
        Some(x) => x,
        None => S::from_ratio(3, 4),
    };
    x.max(S::from_count(0))
}

/// The price of uncertainty: none where none is given, and not below zero.
pub fn uncertainty_penalty<S: Scalar>(given: Option<S>) -> (r: S)
    ensures
        num::repeatable::<S>() ==> r == allowance_of(given, num::zero()),
{
    let x: S = match given {
        Some(x) => x,
        None => S::from_count(0),
    };
    x.max(S::from_count(0))
}

/// Environments inside a model, one for each lane.
pub fn imagined_envs<S: Scalar>(
    model: &WorldModel<S>,
    starts: &Vec<Vec<S>>,
    replay: bool,
    lanes: usize,
    layout: &ObsLayout,
    horizon: usize,
    limit: S,
    penalty: S,
) -> (r: Vec<WorldEnv<S>>)
    requires
        model@.wf(),
        model@.state_dim <= STATE_DIM,
        starts@.len() > 0,
        adapters::all_states(adapters::states_of(starts@)),
        layout.wf(),
    ensures
        r@.len() == lanes,
        forall|k: int|
            0 <= k < lanes ==> (#[trigger] r@[k]).ready() && r@[k].width() == layout.dim,
        forall|k: int|
            0 <= k < lanes ==> (#[trigger] r@[k])@.starts == lane_states(
                adapters::states_of(starts@),
                k as nat,
                replay,
            ),
        num::repeatable::<S>() ==> forall|k: int|
            0 <= k < lanes ==> (#[trigger] r@[k])@ == adapters::begun(
                model@,
                lane_states(adapters::states_of(starts@), k as nat, replay),
                layout.keys@,
                horizon,
                limit,
                penalty,
            ),
{
    let mut r: Vec<WorldEnv<S>> = Vec::with_capacity(lanes);
    let ghost all = adapters::states_of(starts@);
    for k in 0..lanes
        invariant
            model@.wf(),
            model@.state_dim <= STATE_DIM,
            starts@.len() > 0,
            all == adapters::states_of(starts@),
            adapters::all_states(all),
            layout.wf(),
            r@.len() == k,
            forall|i: int|
                0 <= i < k ==> (#[trigger] r@[i]).ready() && r@[i].width() == layout.dim,
            forall|i: int|
                0 <= i < k ==> (#[trigger] r@[i])@.starts == lane_states(all, i as nat, replay),
            num::repeatable::<S>() ==> forall|i: int|
                0 <= i < k ==> (#[trigger] r@[i])@ == adapters::begun(
                    model@,
                    lane_states(all, i as nat, replay),
                    layout.keys@,
                    horizon,
                    limit,
                    penalty,
                ),
    {
        let own: Vec<Vec<S>> = lane_starts(starts, k, replay);
        proof {
            lemma_lane_encoded(all, k as nat, replay);
        }
        let env: WorldEnv<S> = WorldEnv::with_penalty(
            model.clone(),
            own,
            layout.clone(),
            horizon,
            limit,
            penalty,
        );
        let ghost before = r@;
        r.push(env);
        proof {
            assert forall|i: int| 0 <= i < k + 1 implies (#[trigger] r@[i]).ready()
                && r@[i].width() == layout.dim by {
                if i < k {
                    assert(r@[i] == before[i]);
                }
            }
            assert forall|i: int| 0 <= i < k + 1 implies (#[trigger] r@[i])@.starts
                == lane_states(all, i as nat, replay) by {
                if i < k {
                    assert(r@[i] == before[i]);
                }
            }
        }
    }
    r
}

/// The states of a lane are among those that rollouts start from.
proof fn lemma_lane_encoded<S>(starts: Seq<Seq<S>>, lane: nat, replay: bool)
    requires
        starts.len() > 0,
        adapters::all_states(starts),
    ensures
        adapters::all_states(lane_states(starts, lane, replay)),
{
    let n = starts.len();
    let own = lane_states(starts, lane, replay);
    assert forall|i: int| 0 <= i < own.len() implies (#[trigger] own[i]).len() == STATE_DIM by {
        let at = if replay {
            (i + lane % n) % n as int
        } else if i == 0 {
            (lane % n) as int
        } else {
            ((lane + 1) % n) as int
        };
        assert(0 <= at < n);
        assert(own[i] == starts[at]);
    }
}

/// The settings of the policy that probes a model.
pub fn probe_settings<S: Scalar>() -> (r: PpoConfig<S>)
    ensures
        r.hidden == 32,
        r.epochs == 2,
        r.minibatch_size == 64,
        r.parallel,
        num::repeatable::<S>() ==> r == (PpoConfig {
            epochs: 2,
            minibatch_size: 64,
            ..ppo::default_settings::<S>()
        }),
{
    let mut r: PpoConfig<S> = PpoConfig::default();
    r.epochs = 2;
    r.minibatch_size = 64;
    r
}

/// The settings of a policy that starts to learn inside a model.
pub fn imagined_settings<S: Scalar>(hidden: usize) -> (r: PpoConfig<S>)
    ensures
        r.hidden == hidden,
        r.epochs == 4,
        r.minibatch_size == 256,
        r.parallel,
        num::repeatable::<S>() ==> r == (PpoConfig {
            hidden,
            minibatch_size: 256,
            ..ppo::default_settings::<S>()
        }),
{
    let mut r: PpoConfig<S> = PpoConfig::default();
    r.hidden = hidden;
    r.minibatch_size = 256;
    r
}

/// Lets a policy learn for one round in four lanes of a model, from the starts of the episodes.
/// Does nothing where there are none.
pub fn probe_model<S: Scalar>(
    policy: &mut Ppo<S>,
    model: &WorldModel<S>,
    dataset: &Dataset<S>,
    layout: &ObsLayout,
) -> (r: Option<TrainStats<S>>)
    requires
        old(policy).wf(),
        old(policy)@.actor.input == layout.dim,
        layout.wf(),
        model@.wf(),
        model@.state_dim <= STATE_DIM,
        imitation::all_encoded(dataset.episodes@),
        num::repeatable::<S>() && old(policy)@.config.epochs > 0 ==> old(
            policy,
        )@.config.bounds_ordered(),
    ensures
        final(policy).wf(),
        r is None <==> start_states(dataset.episodes@, false).len() == 0,
        r is None ==> final(policy)@ == old(policy)@,
        r matches Some(stats) ==> {
            &&& stats.steps == 128
            &&& exists|before: Seq<WorldEnv<S>>, after: Seq<WorldEnv<S>>, tracks: Seq<Track<S>>|
                {
                    &&& #[trigger] rollout::all_collected(
                        before,
                        after,
                        old(policy)@.actor,
                        old(policy)@.critic,
                        32,
                        old(policy)@.seeds(4),
                        old(policy)@.config.gamma,
                        old(policy)@.config.gae_lambda,
                        tracks,
                    )
                    &&& probes(before, model@, dataset.episodes@, layout)
                    &&& num::repeatable::<S>() ==> (final(policy)@, stats) == old(policy)@.seeded(
                        4,
                    ).after_round(tracks)
                }
        },
{
    let starts: Vec<Vec<S>> = select_starts(dataset, false);
    if starts.len() == 0 {
        return None;
    }
    proof {
        lemma_starts_encoded(dataset.episodes@, false);
    }
    let limit: S = S::from_ratio(3, 4);
    let penalty: S = S::from_count(0);
    let mut envs: Vec<WorldEnv<S>> = imagined_envs(
        model,
        &starts,
        false,
        4,
        layout,
        32,
        limit,
        penalty,
    );
    let ghost before = envs@;
    proof {
        assert forall|k: int| 0 <= k < before.len() implies (#[trigger] before[k]).ready()
            && before[k].width() == old(policy)@.actor.input by {}
        assert(probes(before, model@, dataset.episodes@, layout));
    }
    let stats: TrainStats<S> = policy.train(envs.as_mut_slice(), 32);
    Some(stats)
}

/// Whether these are the four environments in which a policy probes a model.
pub open spec fn probes<S: Scalar>(
    envs: Seq<WorldEnv<S>>,
    model: Dynamics<S>,
    episodes: Seq<Episode<S>>,
    layout: &ObsLayout,
) -> bool {
    &&& envs.len() == 4
    &&& num::repeatable::<S>() ==> forall|k: int|
        0 <= k < 4 ==> (#[trigger] envs[k])@ == adapters::begun(
            model,
            lane_states(opening_states(episodes), k as nat, false),
            layout.keys@,
            32,
            S::fraction(3, 4),
            num::zero(),
        )
}

impl<S: Scalar> Dynamics<S> {
    /// The state that is predicted when one action is repeated `n` times.
    pub open spec fn repeated(self, state: Seq<S>, action: [S; 2], n: nat) -> Seq<S>
        decreases n,
    {
        if n == 0 {
            state
        } else {
            self.next(self.repeated(state, action, (n - 1) as nat), action@, None)
        }
    }
}

/// How far the members of a model are apart when one action is repeated five times, and their mean.
/// The simulator takes no part in it.
pub fn rehearse<S: Scalar>(model: &WorldModel<S>, state: &[S], action: [S; 2]) -> (r: (Vec<S>, S))
    requires
        model@.wf(),
        state@.len() >= model@.state_dim,
    ensures
        r.0@.len() == 5,
        num::repeatable::<S>() ==> r.0@ == Seq::new(
            5,
            |i: int|
                model@.uncertainty(model@.repeated(state@, action, i as nat), action@),
        ),
        num::repeatable::<S>() ==> r.1 == num::total(r.0@, 5).quotient(S::counted(5)),
{
    let mut ws: PredictionWorkspace<S> = model.workspace();
    let mut now: Vec<S> = vstd::slice::slice_to_vec(state);
    let mut next: Vec<S> = vstd::slice::slice_to_vec(state);
    let mut r: Vec<S> = Vec::with_capacity(5);
    for i in 0..5usize
        invariant
            model@.wf(),
            ws.fits(model@),
            now@.len() == state@.len() >= model@.state_dim,
            next@.len() == state@.len(),
            r@.len() == i,
            num::repeatable::<S>() ==> now@ == model@.repeated(state@, action, i as nat),
            num::repeatable::<S>() ==> forall|k: int|
                0 <= k < i ==> #[trigger] r@[k] == model@.uncertainty(
                    model@.repeated(state@, action, k as nat),
                    action@,
                ),
    {
        let doubt: S = model.predict(now.as_slice(), action, next.as_mut_slice(), None, &mut ws);
        r.push(doubt);
        num::copy_over(now.as_mut_slice(), next.as_slice());
    }
    let mean: S = num::sum_of(r.as_slice()).over(S::from_count(5));
    proof {
        if num::repeatable::<S>() {
            assert(r@ =~= Seq::new(
                5,
                |i: int|
                    model@.uncertainty(model@.repeated(state@, action, i as nat), action@),
            ));
        }
    }
    (r, mean)
}

} // verus!
