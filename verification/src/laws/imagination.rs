//! What happens in rollouts inside the model, and in runs of the soft actor-critic.
use crate::env::observation::ObservationKey;
use crate::env::reward;
use crate::env::state;
use crate::laws::algebra;
use crate::laws::exact::{self, exact};
use crate::num::{Meaning, Scalar};
use crate::stages::adapters::Dream;
use crate::stages::imagine;
use crate::stages::sac_run::SacRun;
use vstd::prelude::*;

verus! {

/// In a rollout inside the model the reward is that of the task, less the penalty times the
/// uncertainty; the rollout terminates as the task does, and is truncated as the task is, at the
/// horizon, and where the uncertainty exceeds its limit.
pub proof fn law_doubt_costs_and_cuts<S: Scalar>(
    v: spec_fn(S) -> real,
    d: Dream<S>,
    action: [S; 2],
)
    requires
        exact(v),
    ensures
        ({
            let r = d.outcome(action);
            let task = reward::verdict(
                state::decoded(d.state),
                d.imagined(action),
                action,
                reward::default_config(),
            );
            let doubt = v(d.doubt(action));
            &&& v(r.reward) == v(task.reward) - v(d.penalty) * doubt
            &&& r.terminated == task.terminated
            &&& r.success == task.success
            &&& v(d.limit) < doubt ==> r.truncated && d.stepped(action).guarded
            &&& v(d.limit) >= doubt ==> !d.stepped(action).guarded
            &&& task.truncated ==> r.truncated
            &&& d.horizon > 0 && d.steps + 1 == d.horizon ==> r.truncated && d.stepped(action).cut
            &&& v(d.limit) >= doubt && !task.truncated && (d.horizon == 0 || d.steps + 1
                < d.horizon) ==> !r.truncated && !d.stepped(action).cut
            &&& d.stepped(action).uncertainty == d.doubt(action)
        }),
{
}

/// A positive penalty makes uncertain steps earn less, the more so the more uncertain they are.
pub proof fn law_penalties_grow_with_doubt<S: Scalar>(
    v: spec_fn(S) -> real,
    d: Dream<S>,
    free: Dream<S>,
    action: [S; 2],
)
    requires
        exact(v),
        free == (Dream { penalty: free.penalty, ..d }),
        v(free.penalty) == 0real,
        v(d.penalty) > 0real,
    ensures
        v(d.doubt(action)) > 0real ==> v(d.outcome(action).reward) < v(free.outcome(action).reward),
        v(d.doubt(action)) == 0real ==> v(d.outcome(action).reward) == v(
            free.outcome(action).reward,
        ),
{
    assert(d.imagined(action) == free.imagined(action));
    assert(d.doubt(action) == free.doubt(action));
    law_doubt_costs_and_cuts(v, d, action);
    law_doubt_costs_and_cuts(v, free, action);
    algebra::lemma_sign_of_factor(v(d.penalty), v(d.doubt(action)));
    algebra::lemma_units(v(d.doubt(action)));
}

/// The clock of success moves by a fifteenth of a second while the predicted block is within 0.07 of
/// the goal, and starts anew where it is not; all else is what the model predicts.
pub proof fn law_imagined_successes_are_held<S: Scalar>(
    v: spec_fn(S) -> real,
    d: Dream<S>,
    action: [S; 2],
)
    requires
        exact(v),
    ensures
        ({
            let before = state::decoded(d.state);
            let next = state::decoded(d.model.next(d.state, action@, None));
            let s = d.imagined(action);
            let near = v(next.block.distance(next.goal)) <= exact::part(7, 100);
            &&& near ==> v(s.success_hold_seconds) == v(before.success_hold_seconds) + exact::part(
                1,
                15,
            )
            &&& !near ==> v(s.success_hold_seconds) == 0real
            &&& s == (state::FullState { success_hold_seconds: s.success_hold_seconds, ..next })
            &&& d.stepped(action).state == state::encoded(s)
            &&& d.stepped(action).model == d.model
            &&& d.stepped(action).starts == d.starts
            &&& d.stepped(action).cursor == d.cursor
        }),
{
}

/// A new rollout starts at the next of the starting states, and after the last one at the first one
/// again; its steps are counted from zero.
pub proof fn law_rollouts_take_turns<S: Scalar>(d: Dream<S>)
    requires
        d.cursor < d.starts.len(),
    ensures
        ({
            let f = d.restarted();
            &&& d.cursor + 1 < d.starts.len() ==> f.cursor == d.cursor + 1
            &&& d.cursor + 1 == d.starts.len() ==> f.cursor == 0
            &&& f.state == d.starts[f.cursor as int]
            &&& f.steps == 0
            &&& !f.guarded && !f.cut
            &&& f.model == d.model && f.starts == d.starts
            &&& f.limit == d.limit && f.penalty == d.penalty && f.horizon == d.horizon
        }),
{
    if d.cursor + 1 < d.starts.len() {
        vstd::arithmetic::div_mod::lemma_small_mod(d.cursor + 1, d.starts.len());
    } else {
        vstd::arithmetic::div_mod::lemma_mod_self_0(d.starts.len() as int);
    }
}

/// Whether each lane's observation is what its environment shows.
pub open spec fn in_sight<S: Scalar>(run: SacRun<S>, keys: Seq<ObservationKey>) -> bool {
    &&& run.obs.len() == run.envs.len()
    &&& forall|i: int|
        0 <= i < run.envs.len() ==> #[trigger] run.obs[i] == run.envs[i].seen(keys)
}

/// A lane acts on what it sees, and stores what its action led to: the reward, the marks, and the
/// observation before a new episode starts. Afterwards it sees its environment, anew where the
/// episode was over; the other lanes are where they were; and the reward is added to what was earned.
pub proof fn law_lanes_store_what_they_do<S: Scalar>(
    v: spec_fn(S) -> real,
    run: SacRun<S>,
    keys: Seq<ObservationKey>,
    lane: int,
)
    requires
        exact(v),
        0 <= lane < run.envs.len(),
        in_sight(run, keys),
    ensures
        ({
            let slot = run.slot(keys, lane);
            let next = run.after_lane(keys, lane);
            let env = run.envs[lane];
            let result = env.outcome(slot.action);
            let moved = env.decided(slot.action);
            &&& slot.observation == env.seen(keys)
            &&& slot.action == run.trainer.chosen(env.seen(keys), false)
            &&& slot.reward == result.reward
            &&& slot.terminated == result.terminated
            &&& slot.truncated == result.truncated
            &&& slot.next_observation == moved.seen(keys)
            &&& in_sight(next, keys)
            &&& result.terminated || result.truncated ==> next.envs[lane] == moved.restarted()
                && next.completed == run.completed.wrapping_add(1)
            &&& !result.terminated && !result.truncated ==> next.envs[lane] == moved
                && next.completed == run.completed
            &&& forall|i: int|
                0 <= i < run.envs.len() && i != lane ==> #[trigger] next.envs[i] == run.envs[i]
            &&& v(next.earned) == v(run.earned) + v(slot.reward)
            &&& next.trainer.replay.slots == run.trainer.replay.slots.update(
                run.trainer.replay.cursor as int,
                slot,
            )
        }),
{
    reveal(SacRun::slot);
    reveal(SacRun::after_lane);
    let stored = run.trainer.after_choice(false).after_transition(run.slot(keys, lane));
    assert(run.obs[lane] == run.envs[lane].seen(keys));
    lemma_updates_keep_the_replay(stored);
}

/// An update leaves the replay as it is.
pub proof fn lemma_updates_keep_the_replay<S: Scalar>(t: crate::rl::sac::Trainer<S>)
    ensures
        t.updated().0.replay == t.replay,
        t.updated().0.config == t.config,
        t.updated().0.environment_steps == t.environment_steps,
{
}

/// Each lane starts from a state of its own as long as there are enough: the lane with the number `k`
/// starts from the state with that number, counted round; without replay it goes on with the one that
/// follows.
pub proof fn law_lanes_start_apart<S>(starts: Seq<Seq<S>>, lane: nat)
    requires
        starts.len() > 0,
    ensures
        imagine::lane_states(starts, lane, true)[0] == starts[(lane % starts.len()) as int],
        imagine::lane_states(starts, lane, true).len() == starts.len(),
        imagine::lane_states(starts, lane, false)[0] == starts[(lane % starts.len()) as int],
        imagine::lane_states(starts, lane, false)[1] == imagine::lane_states(
            starts,
            lane + 1,
            false,
        )[0],
        imagine::lane_states(starts, lane, false).len() == 2,
{
    vstd::arithmetic::div_mod::lemma_mod_bound(lane as int, starts.len() as int);
    vstd::arithmetic::div_mod::lemma_small_mod(lane % starts.len(), starts.len());
}

} // verus!
