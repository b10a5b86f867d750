//! Storage for the most recent transitions, as a ring of fixed size.
use crate::num::{self, Meaning, Scalar};
use crate::rl::rng::Rng;
use vstd::prelude::*;
use vstd::slice::slice_subrange;

verus! {

/// The number of components of an action.
pub const ACTION_DIM: usize = 2;

/// Replay storage, one vector for each kind of number. No allocation occurs on push.
#[derive(Clone, Debug)]
pub struct ReplayBuffer<S> {
    pub capacity: usize,
    pub obs_dim: usize,
    pub observations: Vec<S>,
    pub next_observations: Vec<S>,
    pub actions: Vec<[S; 2]>,
    pub rewards: Vec<S>,
    pub terminated: Vec<bool>,
    pub truncated: Vec<bool>,
    pub len: usize,
    pub cursor: usize,
}

/// A stored transition.
#[derive(Clone, Copy, Debug)]
pub struct ReplayTransition<'a, S> {
    pub observation: &'a [S],
    pub action: [S; 2],
    pub reward: S,
    pub next_observation: &'a [S],
    pub terminated: bool,
    pub truncated: bool,
}

/// The value of a stored transition.
#[verifier::ext_equal]
pub struct Slot<S> {
    pub observation: Seq<S>,
    pub action: [S; 2],
    pub reward: S,
    pub next_observation: Seq<S>,
    pub terminated: bool,
    pub truncated: bool,
}

/// The value of a replay buffer: its slots, how many of them are occupied, and the one that is
/// written next.
#[verifier::ext_equal]
pub struct Ring<S> {
    pub obs_dim: nat,
    pub slots: Seq<Slot<S>>,
    pub len: nat,
    pub cursor: nat,
}

impl<S: Scalar> Slot<S> {
    /// Whether every number is finite.
    pub open spec fn sound(self) -> bool {
        &&& self.reward.finite()
        &&& num::all_finite(self.observation)
        &&& num::all_finite(self.next_observation)
        &&& num::all_finite(self.action@)
    }
}

impl<S: Scalar> Ring<S> {
    /// Whether the ring has a slot, and its slots are filled from the first one on.
    pub open spec fn wf(self) -> bool {
        &&& self.obs_dim > 0
        &&& self.cursor < self.slots.len()
        &&& self.len <= self.slots.len()
        &&& self.len < self.slots.len() ==> self.cursor == self.len
        &&& forall|i: int|
            0 <= i < self.slots.len() ==> (#[trigger] self.slots[i]).observation.len()
                == self.obs_dim && self.slots[i].next_observation.len() == self.obs_dim
    }

    /// What is stored, from the oldest to the latest.
    pub open spec fn history(self) -> Seq<Slot<S>> {
        if self.len < self.slots.len() {
            self.slots.take(self.len as int)
        } else {
            self.slots.skip(self.cursor as int) + self.slots.take(self.cursor as int)
        }
    }

    /// The ring with one more transition: it takes the place of the oldest one where there is no
    /// room.
    pub open spec fn pushed(self, slot: Slot<S>) -> Self {
        Ring {
            obs_dim: self.obs_dim,
            slots: self.slots.update(self.cursor as int, slot),
            len: if self.len < self.slots.len() {
                self.len + 1
            } else {
                self.slots.len()
            },
            cursor: (self.cursor + 1) % self.slots.len(),
        }
    }

    /// The slot that a stream picks.
    pub open spec fn sampled(self, rng: Rng<S>) -> usize {
        let k = rng.unit().product(S::counted(self.len as u64)).as_u64();
        if k < self.len - 1 {
            k as usize
        } else {
            (self.len - 1) as usize
        }
    }
}

/// A full ring forgets its oldest transition and nothing else; one with room forgets nothing.
pub proof fn lemma_push_forgets_oldest<S: Scalar>(ring: Ring<S>, slot: Slot<S>)
    requires
        ring.wf(),
        slot.observation.len() == ring.obs_dim,
        slot.next_observation.len() == ring.obs_dim,
    ensures
        ring.pushed(slot).wf(),
        ring.pushed(slot).slots.len() == ring.slots.len(),
        ring.history().len() == ring.len,
        ring.pushed(slot).history() == (if ring.len < ring.slots.len() {
            ring.history()
        } else {
            ring.history().skip(1)
        }).push(slot),
{
    let next = ring.pushed(slot);
    let n = ring.slots.len();
    if ring.cursor + 1 < n {
        assert((ring.cursor + 1) % n == ring.cursor + 1) by (nonlinear_arith)
            requires
                ring.cursor + 1 < n,
        ;
    } else {
        assert((ring.cursor + 1) % n == 0) by (nonlinear_arith)
            requires
                ring.cursor + 1 == n,
                n > 0,
        ;
    }
    if ring.len < n {
        if ring.len + 1 < n {
            assert(next.history() =~= ring.history().push(slot));
        } else {
            assert(next.history() =~= ring.history().push(slot));
        }
    } else {
        assert(next.history() =~= ring.history().skip(1).push(slot));
    }
}

/// The part of a flat vector that belongs to the slot `i`.
pub open spec fn part<S>(flat: Seq<S>, i: int, n: nat) -> Seq<S> {
    flat.subrange(i * n, i * n + n)
}

/// The parts of a flat vector do not overlap.
proof fn lemma_part(i: nat, j: nat, n: nat, count: nat)
    requires
        i < count,
        j < count,
    ensures
        i * n + n <= count * n,
        i < j ==> i * n + n <= j * n,
        0 <= i * n,
{
    assert(i * n + n <= count * n) by (nonlinear_arith)
        requires
            i < count,
    ;
    if i < j {
        assert(i * n + n <= j * n) by (nonlinear_arith)
            requires
                i < j,
        ;
    }
}

/// Writing one part of a flat vector leaves the others as they are.
proof fn lemma_overwritten<S>(before: Seq<S>, after: Seq<S>, at: nat, source: Seq<S>, count: nat)
    requires
        at < count,
        before.len() == count * source.len(),
        after == before.take((at * source.len()) as int) + source + before.skip(
            (at * source.len() + source.len()) as int,
        ),
    ensures
        after.len() == before.len(),
        part(after, at as int, source.len()) == source,
        forall|i: int|
            0 <= i < count && i != at ==> #[trigger] part(after, i, source.len()) == part(
                before,
                i,
                source.len(),
            ),
{
    let n = source.len();
    lemma_part(at, at, n, count);
    assert(part(after, at as int, n) =~= source);
    assert forall|i: int| 0 <= i < count && i != at implies #[trigger] part(after, i, n) == part(
        before,
        i,
        n,
    ) by {
        lemma_part(i as nat, at, n, count);
        lemma_part(at, i as nat, n, count);
        assert(part(after, i, n) =~= part(before, i, n));
    }
}

impl<S: Scalar> View for ReplayBuffer<S> {
    type V = Ring<S>;

    open spec fn view(&self) -> Ring<S> {
        Ring {
            obs_dim: self.obs_dim as nat,
            slots: Seq::new(self.capacity as nat, |i: int| self.slot(i)),
            len: self.len as nat,
            cursor: self.cursor as nat,
        }
    }
}

impl<S: Scalar> ReplayBuffer<S> {
    /// The value of a slot.
    pub open spec fn slot(&self, i: int) -> Slot<S> {
        Slot {
            observation: part(self.observations@, i, self.obs_dim as nat),
            action: self.actions@[i],
            reward: self.rewards@[i],
            next_observation: part(self.next_observations@, i, self.obs_dim as nat),
            terminated: self.terminated@[i],
            truncated: self.truncated@[i],
        }
    }

    /// Whether the vectors have the lengths that the slots call for, and the ring is one.
    pub open spec fn wf(&self) -> bool {
        &&& self.capacity > 0
        &&& self.obs_dim > 0
        &&& self.observations@.len() == self.capacity * self.obs_dim
        &&& self.next_observations@.len() == self.capacity * self.obs_dim
        &&& self.actions@.len() == self.capacity
        &&& self.rewards@.len() == self.capacity
        &&& self.terminated@.len() == self.capacity
        &&& self.truncated@.len() == self.capacity
        &&& self.len <= self.capacity
        &&& self.cursor < self.capacity
        &&& self.len < self.capacity ==> self.cursor == self.len
    }

    /// Whether the fields of two buffers agree.
    pub open spec fn stored_alike(&self, other: &Self) -> bool {
        &&& self.capacity == other.capacity
        &&& self.obs_dim == other.obs_dim
        &&& self.observations@ == other.observations@
        &&& self.next_observations@ == other.next_observations@
        &&& self.actions@ == other.actions@
        &&& self.rewards@ == other.rewards@
        &&& self.terminated@ == other.terminated@
        &&& self.truncated@ == other.truncated@
        &&& self.len == other.len
        &&& self.cursor == other.cursor
    }

    /// Buffers whose fields agree are the same ring.
    pub proof fn lemma_stored_alike(&self, other: &Self)
        requires
            self.stored_alike(other),
        ensures
            self@ == other@,
    {
        assert(self@.slots =~= other@.slots);
    }

    /// A buffer is a ring.
    proof fn lemma_wf(&self)
        requires
            self.wf(),
        ensures
            self@.wf(),
    {
        assert forall|i: int| 0 <= i < self@.slots.len() implies (
        #[trigger] self@.slots[i]).observation.len() == self@.obs_dim
            && self@.slots[i].next_observation.len() == self@.obs_dim by {
            lemma_part(i as nat, i as nat, self.obs_dim as nat, self.capacity as nat);
        }
    }

    /// An empty buffer with room for `capacity` transitions.
    pub fn new(capacity: usize, obs_dim: usize) -> (r: Self)
        requires
            capacity > 0,
            obs_dim > 0,
            capacity * obs_dim <= usize::MAX,
        ensures
            r.wf(),
            r@.wf(),
            r@.obs_dim == obs_dim,
            r@.slots.len() == capacity,
            r@.len == 0,
            r@.cursor == 0,
            r@.history() == Seq::<Slot<S>>::empty(),
            num::repeatable::<S>() ==> forall|i: int|
                0 <= i < capacity ==> #[trigger] r@.slots[i] == empty_slot::<S>(obs_dim as nat),
    {
        let scalars: usize = capacity * obs_dim;
        let zero: S = S::from_count(0);
        let r: Self = ReplayBuffer {
            capacity,
            obs_dim,
            observations: num::repeat(zero, scalars),
            next_observations: num::repeat(zero, scalars),
            actions: num::repeat([zero, zero], capacity),
            rewards: num::repeat(zero, capacity),
            terminated: num::repeat(false, capacity),
            truncated: num::repeat(false, capacity),
            len: 0,
            cursor: 0,
        };
        proof {
            r.lemma_wf();
            assert(r@.history() =~= Seq::<Slot<S>>::empty());
            if num::repeatable::<S>() {
                assert forall|i: int| 0 <= i < capacity implies #[trigger] r@.slots[i]
                    == empty_slot::<S>(obs_dim as nat) by {
                    lemma_part(i as nat, i as nat, obs_dim as nat, capacity as nat);
                    assert(r@.slots[i].observation =~= empty_slot::<S>(obs_dim as nat).observation);
                    assert(r@.slots[i].next_observation =~= empty_slot::<S>(
                        obs_dim as nat,
                    ).next_observation);
                }
            }
        }
        r
    }

    /// Whether the vectors have the lengths that the slots call for, and the ring is one.
    pub fn is_consistent(&self) -> (r: bool)
        ensures
            r == self.wf(),
            r ==> self@.wf(),
    {
        let held: usize = self.observations.len();
        let scalars: usize = match self.capacity.checked_mul(self.obs_dim) {
            Some(n) => n,
            None => return false,
        };
        let r: bool = self.capacity > 0 && self.obs_dim > 0 && held == scalars
            && self.next_observations.len() == scalars && self.actions.len() == self.capacity
            && self.rewards.len() == self.capacity && self.terminated.len() == self.capacity
            && self.truncated.len() == self.capacity && self.len <= self.capacity && self.cursor
            < self.capacity && (self.len == self.capacity || self.cursor == self.len);
        proof {
            if r {
                self.lemma_wf();
            }
        }
        r
    }

    /// The number of stored transitions.
    pub fn len(&self) -> (r: usize)
        ensures
            r == self@.len,
    {
        self.len
    }

    /// Whether nothing is stored.
    pub fn is_empty(&self) -> (r: bool)
        ensures
            r == (self@.len == 0),
    {
        self.len == 0
    }

    /// The number of transitions that can be stored.
    pub fn capacity(&self) -> (r: usize)
        ensures
            r == self@.slots.len(),
    {
        self.capacity
    }

    /// Whether a transition can be pushed: its observations have the right length and all its
    /// numbers are finite.
    pub fn accepts(
        &self,
        observation: &[S],
        action: [S; 2],
        reward: S,
        next_observation: &[S],
    ) -> (r: bool)
        ensures
            r ==> observation@.len() == self@.obs_dim && next_observation@.len() == self@.obs_dim,
            num::repeatable::<S>() ==> r == (observation@.len() == self@.obs_dim
                && next_observation@.len() == self@.obs_dim && (Slot {
                observation: observation@,
                action,
                reward,
                next_observation: next_observation@,
                terminated: false,
                truncated: false,
            }).sound()),
    {
        observation.len() == self.obs_dim && next_observation.len() == self.obs_dim
            && reward.is_finite() && num::every_finite(observation) && num::every_finite(
            next_observation,
        ) && num::every_finite(action.as_slice())
    }

    /// Stores a transition.
    pub fn push(
        &mut self,
        observation: &[S],
        action: [S; 2],
        reward: S,
        next_observation: &[S],
        terminated: bool,
        truncated: bool,
    )
        requires
            old(self).wf(),
            observation@.len() == old(self)@.obs_dim,
            next_observation@.len() == old(self)@.obs_dim,
            num::repeatable::<S>() ==> (Slot {
                observation: observation@,
                action,
                reward,
                next_observation: next_observation@,
                terminated,
                truncated,
            }).sound(),
        ensures
            final(self).wf(),
            final(self)@ == old(self)@.pushed(
                Slot {
                    observation: observation@,
                    action,
                    reward,
                    next_observation: next_observation@,
                    terminated,
                    truncated,
                },
            ),
    {
        let ghost before = *self;
        let ghost slot = Slot {
            observation: observation@,
            action,
            reward,
            next_observation: next_observation@,
            terminated,
            truncated,
        };
        proof {
            lemma_part(
                self.cursor as nat,
                self.cursor as nat,
                self.obs_dim as nat,
                self.capacity as nat,
            );
        }
        let size: usize = self.observations.len();
        let offset: usize = self.cursor * self.obs_dim;
        num::overwrite(&mut self.observations, offset, observation);
        num::overwrite(&mut self.next_observations, offset, next_observation);
        let at: usize = self.cursor;
        self.actions[at] = action;
        self.rewards[at] = reward;
        self.terminated[at] = terminated;
        self.truncated[at] = truncated;
        self.cursor = if at + 1 < self.capacity {
            at + 1
        } else {
            0
        };
        if self.len < self.capacity {
            self.len = self.len + 1;
        }
        proof {
            let count = self.capacity as nat;
            lemma_overwritten(
                before.observations@,
                self.observations@,
                at as nat,
                observation@,
                count,
            );
            lemma_overwritten(
                before.next_observations@,
                self.next_observations@,
                at as nat,
                next_observation@,
                count,
            );
            if at + 1 < count {
                assert((at as nat + 1) % count == at + 1) by (nonlinear_arith)
                    requires
                        at + 1 < count,
                ;
            } else {
                assert((at as nat + 1) % count == 0) by (nonlinear_arith)
                    requires
                        at + 1 == count,
                        count > 0,
                ;
            }
            assert forall|i: int| 0 <= i < count implies #[trigger] self@.slots[i]
                == before@.pushed(slot).slots[i] by {
                assert(self@.slots[i] == self.slot(i));
                assert(before@.slots[i] == before.slot(i));
                if i != at {
                    assert(part(self.observations@, i, observation@.len()) == part(
                        before.observations@,
                        i,
                        observation@.len(),
                    ));
                    assert(part(self.next_observations@, i, observation@.len()) == part(
                        before.next_observations@,
                        i,
                        observation@.len(),
                    ));
                }
            }
            assert(self@.slots =~= before@.pushed(slot).slots);
        }
    }

    /// Reads an occupied slot. The order of the slots is not that of time once the ring is full.
    pub fn transition(&self, index: usize) -> (r: ReplayTransition<'_, S>)
        requires
            self.wf(),
            index < self@.len,
        ensures
            r.observation@ == self@.slots[index as int].observation,
            r.next_observation@ == self@.slots[index as int].next_observation,
            r.observation@.len() == self@.obs_dim,
            r.next_observation@.len() == self@.obs_dim,
            r.action == self@.slots[index as int].action,
            r.reward == self@.slots[index as int].reward,
            r.terminated == self@.slots[index as int].terminated,
            r.truncated == self@.slots[index as int].truncated,
    {
        proof {
            lemma_part(index as nat, index as nat, self.obs_dim as nat, self.capacity as nat);
        }
        let size: usize = self.observations.len();
        let offset: usize = index * self.obs_dim;
        ReplayTransition {
            observation: slice_subrange(self.observations.as_slice(), offset, offset + self.obs_dim),
            action: self.actions[index],
            reward: self.rewards[index],
            next_observation: slice_subrange(
                self.next_observations.as_slice(),
                offset,
                offset + self.obs_dim,
            ),
            terminated: self.terminated[index],
            truncated: self.truncated[index],
        }
    }

    /// Picks an occupied slot.
    pub fn sample_index(&self, rng: &mut Rng<S>) -> (r: usize)
        requires
            self@.len > 0,
        ensures
            r < self@.len,
            *final(rng) == old(rng).after_word(),
            num::repeatable::<S>() ==> r == self@.sampled(*old(rng)),
    {
        let k: u64 = rng.uniform().times(S::from_count(self.len as u64)).to_u64();
        if k < (self.len - 1) as u64 {
            k as usize
        } else {
            self.len - 1
        }
    }
}

/// A slot that was not written yet.
pub open spec fn empty_slot<S: Scalar>(obs_dim: nat) -> Slot<S> {
    Slot {
        observation: num::copies(num::zero(), obs_dim),
        action: [num::zero(), num::zero()],
        reward: num::zero(),
        next_observation: num::copies(num::zero(), obs_dim),
        terminated: false,
        truncated: false,
    }
}

} // verus!
