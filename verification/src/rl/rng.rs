//! The random generator: a SplitMix64 stream with uniform, normal and index draws.
use crate::num::{self, Meaning, Scalar};
use vstd::prelude::*;

verus! {

/// The constant by which the state moves on each draw.
pub const GAMMA: u64 = 0x9e3779b97f4a7c15;

/// The inverse of [`GAMMA`] modulo `2^64`.
pub const GAMMA_INVERSE: u64 = 0xf1de83e19937733d;

/// The state that scrambles to the largest word.
pub const TOP: u64 = 0xcf9a04affa6badc0;

/// A SplitMix64 stream; normal samples use an open unit interval and come in pairs.
#[derive(Clone, Copy, Debug)]
pub struct Rng<S> {
    pub state: u64,
    pub spare: Option<S>,
}

/// The state that follows `state`.
pub open spec fn advance(state: u64) -> u64 {
    state.wrapping_add(GAMMA)
}

/// The state that follows `state` after `n` words.
pub open spec fn advanced(state: u64, n: nat) -> u64
    decreases n,
{
    if n == 0 {
        state
    } else {
        advance(advanced(state, (n - 1) as nat))
    }
}

/// The word that `state` stands for.
#[verifier::opaque]
pub open spec fn scramble(state: u64) -> u64 {
    let a = (state ^ (state >> 30)).wrapping_mul(0xbf58476d1ce4e5b9);
    let b = (a ^ (a >> 27)).wrapping_mul(0x94d049bb133111eb);
    b ^ (b >> 31)
}

/// The number of draws after which a stream in `state` is next in the state [`TOP`].
#[verifier::opaque]
pub open spec fn draws_to_top(state: u64) -> nat {
    let left = ((TOP - state) * GAMMA_INVERSE) % 0x1_0000_0000_0000_0000;
    if left == 0 {
        0x1_0000_0000_0000_0000
    } else {
        left as nat
    }
}

/// One draw brings a stream one draw closer to [`TOP`], or to it.
pub proof fn lemma_draws_to_top(state: u64)
    ensures
        draws_to_top(state) > 0,
        advance(state) == TOP || draws_to_top(advance(state)) == draws_to_top(state) - 1,
{
    reveal(draws_to_top);
    let m: int = 0x1_0000_0000_0000_0000;
    let c = GAMMA as int;
    let d = GAMMA_INVERSE as int;
    let next = advance(state) as int;
    let x = (TOP - state) * d;
    let y = (TOP - next) * d;
    let q: int = 10771413168148108919;
    assert(0x9e3779b97f4a7c15int * 0xf1de83e19937733dint == 10771413168148108919int
        * 0x1_0000_0000_0000_0000int + 1) by (nonlinear_arith);
    let wrapped: int = if state + c >= m {
        1
    } else {
        0
    };
    assert(next == state + c - wrapped * m);
    // y == x - 1 modulo m.
    assert(y == x - 1 + (wrapped * d - q) * m) by (nonlinear_arith)
        requires
            x == (TOP - state) * d,
            y == (TOP - next) * d,
            next == state + c - wrapped * m,
            c * d == q * m + 1,
    ;
    vstd::arithmetic::div_mod::lemma_mod_multiples_vanish(wrapped * d - q, x - 1, m);
    assert(m * (wrapped * d - q) + (x - 1) == y) by (nonlinear_arith)
        requires
            y == x - 1 + (wrapped * d - q) * m,
    ;
    assert(y % m == (x - 1) % m);
    let r = x % m;
    vstd::arithmetic::div_mod::lemma_fundamental_div_mod(x, m);
    if r == 0 {
        assert((x - 1) % m == m - 1) by {
            vstd::arithmetic::div_mod::lemma_fundamental_div_mod_converse(x - 1, m, x / m - 1, m - 1);
        }
    } else {
        assert((x - 1) % m == r - 1) by {
            vstd::arithmetic::div_mod::lemma_fundamental_div_mod_converse(x - 1, m, x / m, r - 1);
        }
    }
    if y % m == 0 {
        // Multiplying by the inverse is injective, so the stream is in `TOP`.
        let k = y / m;
        vstd::arithmetic::div_mod::lemma_fundamental_div_mod(y, m);
        assert(y == m * k);
        assert((TOP - next) == m * (k * c - q * (TOP - next))) by (nonlinear_arith)
            requires
                y == (TOP - next) * d,
                y == m * k,
                c * d == q * m + 1,
        ;
        let t = k * c - q * (TOP - next);
        assert(t == 0) by (nonlinear_arith)
            requires
                (TOP - next) == m * t,
                -m < TOP - next < m,
                m == 0x1_0000_0000_0000_0000,
        ;
    }
}

/// [`TOP`] scrambles to the largest word.
pub proof fn lemma_top()
    ensures
        scramble(TOP) == u64::MAX,
{
    reveal(scramble);
    assert(0xcf9a04affa6badc0u64 ^ (0xcf9a04affa6badc0u64 >> 30) == 0xcf9a04acc403bf7fu64)
        by (bit_vector);
    assert(0xcf9a04acc403bf7fu64.wrapping_mul(0xbf58476d1ce4e5b9) == 0xf027aa8c721dfdc7u64) by {
        assert(0xcf9a04acc403bf7fint * 0xbf58476d1ce4e5b9int == 0x9b2b805ab4f08d0fint
            * 0x1_0000_0000_0000_0000int + 0xf027aa8c721dfdc7int) by (nonlinear_arith);
    }
    assert(0xf027aa8c721dfdc7u64 ^ (0xf027aa8c721dfdc7u64 >> 27) == 0xf027aa9276e8ac49u64)
        by (bit_vector);
    assert(0xf027aa9276e8ac49u64.wrapping_mul(0x94d049bb133111eb) == 0xfffffffe00000003u64) by {
        assert(0xf027aa9276e8ac49int * 0x94d049bb133111ebint == 0x8b9a5402125d779aint
            * 0x1_0000_0000_0000_0000int + 0xfffffffe00000003int) by (nonlinear_arith);
    }
    assert(0xfffffffe00000003u64 ^ (0xfffffffe00000003u64 >> 31) == 0xffffffffffffffffu64)
        by (bit_vector);
}

/// The state of a stream after its first word that is at least `threshold`.
pub open spec fn accepted(state: u64, threshold: u64) -> u64
    decreases draws_to_top(state),
{
    proof {
        lemma_draws_to_top(state);
        lemma_top();
    }
    let next = advance(state);
    if scramble(next) >= threshold {
        next
    } else {
        accepted(next, threshold)
    }
}

/// The words below this one are passed over when an index below `range` is drawn without bias.
pub open spec fn bias_threshold(range: u64) -> u64 {
    0u64.wrapping_sub(range) % range
}

/// `values` with the entries at `i` and `j` exchanged.
pub open spec fn exchanged<T>(values: Seq<T>, i: int, j: int) -> Seq<T> {
    values.update(i, values[j]).update(j, values[i])
}

/// The state and the order in which a shuffle of the first `i + 1` entries of `values` ends.
pub open spec fn shuffled<T>(state: u64, values: Seq<T>, i: nat) -> (u64, Seq<T>)
    decreases i,
{
    if i == 0 {
        (state, values)
    } else {
        let range = (i + 1) as u64;
        let next = accepted(state, bias_threshold(range));
        let j = (scramble(next) % range) as int;
        shuffled(next, exchanged(values, i as int, j), (i - 1) as nat)
    }
}

/// As [`shuffled`], but with each index taken as a remainder of the next word.
pub open spec fn mixed<T>(state: u64, values: Seq<T>, i: nat) -> (u64, Seq<T>)
    decreases i,
{
    if i == 0 {
        (state, values)
    } else {
        let next = advance(state);
        let j = (scramble(next) % ((i + 1) as u64)) as int;
        mixed(next, exchanged(values, i as int, j), (i - 1) as nat)
    }
}

/// The state and the order in which a shuffle of all of `values` ends.
pub open spec fn shuffle_all<T>(state: u64, values: Seq<T>) -> (u64, Seq<T>) {
    if values.len() == 0 {
        (state, values)
    } else {
        shuffled(state, values, (values.len() - 1) as nat)
    }
}

/// As [`shuffle_all`], but with each index taken as a remainder of the next word.
pub open spec fn mix_all<T>(state: u64, values: Seq<T>) -> (u64, Seq<T>) {
    if values.len() == 0 {
        (state, values)
    } else {
        mixed(state, values, (values.len() - 1) as nat)
    }
}

/// The uniform sample that a word gives: the midpoint of one of `2^23` equal parts of `0 .. 1`.
pub open spec fn unit_sample<S: Scalar>(word: u64) -> S {
    S::counted(word >> 41).sum(S::fraction(1, 2)).product(S::fraction(1, 8388608))
}

impl<S: Scalar> Rng<S> {
    /// The stream after one word.
    pub open spec fn after_word(self) -> Self {
        Rng { state: advance(self.state), spare: self.spare }
    }

    /// The next word.
    pub open spec fn word(self) -> u64 {
        scramble(advance(self.state))
    }

    /// The next uniform sample.
    pub open spec fn unit(self) -> S {
        unit_sample(self.word())
    }

    /// The radius of the next pair of normal samples.
    pub open spec fn radius(self) -> S {
        S::counted(2).negated().product(self.unit().logarithm()).root()
    }

    /// The angle of the next pair of normal samples.
    pub open spec fn angle(self) -> S {
        S::fraction(13176795, 2097152).product(self.after_word().unit())
    }

    /// The next normal sample.
    pub open spec fn gauss(self) -> S {
        match self.spare {
            Some(x) => x,
            None => self.radius().product(self.angle().cosine()),
        }
    }

    /// The stream after one normal sample.
    pub open spec fn after_gauss(self) -> Self {
        match self.spare {
            Some(x) => Rng { state: self.state, spare: None },
            None => Rng {
                state: advance(advance(self.state)),
                spare: Some(self.radius().product(self.angle().sine())),
            },
        }
    }

    /// The next two normal samples.
    pub open spec fn pair(self) -> [S; 2] {
        [self.gauss(), self.after_gauss().gauss()]
    }

    /// The stream after two normal samples.
    pub open spec fn after_pair(self) -> Self {
        self.after_gauss().after_gauss()
    }

    /// The next index below `upper`, or zero where there is none.
    pub open spec fn pick(self, upper: nat) -> nat {
        if upper == 0 {
            0
        } else {
            (self.word() as nat) % upper
        }
    }

    /// The stream after one index below `upper`.
    pub open spec fn after_pick(self, upper: nat) -> Self {
        if upper == 0 {
            self
        } else {
            self.after_word()
        }
    }

    /// The stream that starts at `seed`.
    pub fn new(seed: u64) -> (r: Self)
        ensures
            r == (Rng { state: seed, spare: None::<S> }),
    {
        Rng { state: seed, spare: None }
    }

    /// Draws a word.
    pub fn next_u64(&mut self) -> (r: u64)
        ensures
            r == old(self).word(),
            *final(self) == old(self).after_word(),
    {
        reveal(scramble);
        self.state = self.state.wrapping_add(GAMMA);
        let mut z: u64 = self.state;
        z = (z ^ (z >> 30)).wrapping_mul(0xbf58476d1ce4e5b9);
        z = (z ^ (z >> 27)).wrapping_mul(0x94d049bb133111eb);
        z ^ (z >> 31)
    }

    /// Draws a number strictly between zero and one.
    pub fn uniform(&mut self) -> (r: S)
        ensures
            *final(self) == old(self).after_word(),
            num::repeatable::<S>() ==> r == old(self).unit(),
    {
        let word: u64 = self.next_u64();
        S::from_count(word >> 41).plus(S::from_ratio(1, 2)).times(S::from_ratio(1, 8388608))
    }

    /// Draws a number from the standard normal distribution.
    pub fn normal(&mut self) -> (r: S)
        ensures
            final(self).state == (if old(self).spare is Some {
                old(self).state
            } else {
                advance(advance(old(self).state))
            }),
            final(self).spare is Some <==> old(self).spare is None,
            num::repeatable::<S>() ==> r == old(self).gauss() && *final(self) == old(
                self,
            ).after_gauss(),
    {
        if let Some(x) = self.spare {
            self.spare = None;
            return x;
        }
        let r: S = S::from_count(2).neg().times(self.uniform().ln()).sqrt();
        let theta: S = S::from_ratio(13176795, 2097152).times(self.uniform());
        self.spare = Some(r.times(theta.sin()));
        r.times(theta.cos())
    }

    /// Draws two numbers from the standard normal distribution.
    pub fn normal_pair(&mut self) -> (r: [S; 2])
        ensures
            num::repeatable::<S>() ==> r == old(self).pair() && *final(self) == old(
                self,
            ).after_pair(),
    {
        let first: S = self.normal();
        let second: S = self.normal();
        [first, second]
    }

    /// Draws an index below `upper`; zero, and no word drawn, where `upper` is zero.
    pub fn index(&mut self, upper: usize) -> (r: usize)
        ensures
            r == old(self).pick(upper as nat),
            upper > 0 ==> r < upper,
            *final(self) == old(self).after_pick(upper as nat),
    {
        if upper == 0 {
            0
        } else {
            (self.next_u64() % upper as u64) as usize
        }
    }

    /// Draws words until one is at least `threshold`, and returns that one.
    fn draw_from(&mut self, threshold: u64) -> (r: u64)
        ensures
            final(self).spare == old(self).spare,
            final(self).state == accepted(old(self).state, threshold),
            r == scramble(final(self).state),
    {
        let mut r: u64 = self.next_u64();
        while r < threshold
            invariant
                self.spare == old(self).spare,
                r == scramble(self.state),
                accepted(old(self).state, threshold) == (if r >= threshold {
                    self.state
                } else {
                    accepted(self.state, threshold)
                }),
            decreases
                (if r >= threshold {
                    0
                } else {
                    draws_to_top(self.state)
                }),
        {
            proof {
                lemma_draws_to_top(self.state);
                lemma_top();
            }
            r = self.next_u64();
        }
        r
    }

    /// Brings `values` into a random order, with each index drawn as a remainder of one word.
    pub fn mix<T>(&mut self, values: &mut [T])
        ensures
            final(self).spare == old(self).spare,
            (final(self).state, final(values)@) == mix_all(old(self).state, old(values)@),
    {
        if values.len() == 0 {
            return ;
        }
        let n: usize = values.len();
        let mut i: usize = n - 1;
        while i > 0
            invariant
                i < n == values@.len(),
                self.spare == old(self).spare,
                mixed(self.state, values@, i as nat) == mix_all(old(self).state, old(values)@),
            decreases i,
        {
            let j: usize = self.index(i + 1);
            swap(values, i, j);
            i = i - 1;
        }
    }

    /// Brings `values` into a random order, each order as likely as any other.
    pub fn shuffle<T>(&mut self, values: &mut [T])
        ensures
            final(self).spare == old(self).spare,
            (final(self).state, final(values)@) == shuffle_all(old(self).state, old(values)@),
    {
        if values.len() == 0 {
            return ;
        }
        let n: usize = values.len();
        let mut i: usize = n - 1;
        while i > 0
            invariant
                i < n == values@.len(),
                self.spare == old(self).spare,
                shuffled(self.state, values@, i as nat) == shuffle_all(
                    old(self).state,
                    old(values)@,
                ),
            decreases i,
        {
            let range: u64 = i as u64 + 1;
            let threshold: u64 = 0u64.wrapping_sub(range) % range;
            let r: u64 = self.draw_from(threshold);
            let j: usize = (r % range) as usize;
            swap(values, i, j);
            i = i - 1;
        }
    }
}

/// Exchanges the entries at `i` and `j`.
pub fn swap<T>(values: &mut [T], i: usize, j: usize)
    requires
        j <= i < old(values)@.len(),
    ensures
        final(values)@ == exchanged(old(values)@, i as int, j as int),
{
    if j < i {
        let (left, right) = values.split_at_mut(i);
        std::mem::swap(&mut left[j], &mut right[0]);
    }
    assert(values@ =~= exchanged(old(values)@, i as int, j as int));
}

/// An exchange of two entries leaves the entries the same, but for their order.
pub proof fn lemma_exchanged<T>(values: Seq<T>, i: int, j: int)
    requires
        0 <= i < values.len(),
        0 <= j < values.len(),
    ensures
        exchanged(values, i, j).to_multiset() == values.to_multiset(),
        exchanged(values, i, j).len() == values.len(),
{
    broadcast use vstd::seq_lib::group_to_multiset_ensures;

    let first = values.update(i, values[j]);
    assert(first =~= values.remove(i).insert(i, values[j]));
    assert(exchanged(values, i, j) =~= first.remove(j).insert(j, values[i]));
    assert(values.to_multiset().count(values[i]) > 0);
    assert(exchanged(values, i, j).to_multiset() =~= values.to_multiset());
}

/// A shuffle leaves the entries the same, but for their order.
pub proof fn lemma_shuffle_permutes<T>(state: u64, values: Seq<T>)
    requires
        values.len() <= u64::MAX,
    ensures
        shuffle_all(state, values).1.to_multiset() == values.to_multiset(),
        shuffle_all(state, values).1.len() == values.len(),
{
    if values.len() > 0 {
        lemma_shuffled_permutes(state, values, (values.len() - 1) as nat);
    }
}

/// What holds of a shuffle holds of its steps.
pub proof fn lemma_shuffled_permutes<T>(state: u64, values: Seq<T>, i: nat)
    requires
        i < values.len() <= u64::MAX,
    ensures
        shuffled(state, values, i).1.to_multiset() == values.to_multiset(),
        shuffled(state, values, i).1.len() == values.len(),
    decreases i,
{
    if i > 0 {
        let range = (i + 1) as u64;
        let next = accepted(state, bias_threshold(range));
        let j = (scramble(next) % range) as int;
        lemma_exchanged(values, i as int, j);
        lemma_shuffled_permutes(next, exchanged(values, i as int, j), (i - 1) as nat);
    }
}

/// Mixing leaves the entries the same, but for their order.
pub proof fn lemma_mix_permutes<T>(state: u64, values: Seq<T>)
    requires
        values.len() <= u64::MAX,
    ensures
        mix_all(state, values).1.to_multiset() == values.to_multiset(),
        mix_all(state, values).1.len() == values.len(),
{
    if values.len() > 0 {
        lemma_mixed_permutes(state, values, (values.len() - 1) as nat);
    }
}

/// What holds of mixing holds of its steps.
pub proof fn lemma_mixed_permutes<T>(state: u64, values: Seq<T>, i: nat)
    requires
        i < values.len() <= u64::MAX,
    ensures
        mixed(state, values, i).1.to_multiset() == values.to_multiset(),
        mixed(state, values, i).1.len() == values.len(),
    decreases i,
{
    if i > 0 {
        let next = advance(state);
        let j = (scramble(next) % ((i + 1) as u64)) as int;
        lemma_exchanged(values, i as int, j);
        lemma_mixed_permutes(next, exchanged(values, i as int, j), (i - 1) as nat);
    }
}

/// A bound on the entries survives a change of their order.
pub proof fn lemma_reordered_bound(from: Seq<usize>, to: Seq<usize>, bound: nat)
    requires
        to.to_multiset() == from.to_multiset(),
        forall|i: int| 0 <= i < from.len() ==> (#[trigger] from[i]) < bound,
    ensures
        forall|i: int| 0 <= i < to.len() ==> (#[trigger] to[i]) < bound,
{
    broadcast use vstd::seq_lib::group_to_multiset_ensures;

    assert forall|i: int| 0 <= i < to.len() implies (#[trigger] to[i]) < bound by {
        assert(to.contains(to[i]));
        assert(to.to_multiset().count(to[i]) > 0);
        assert(from.contains(to[i]));
        let k = choose|k: int| 0 <= k < from.len() && from[k] == to[i];
        assert(from[k] < bound);
    }
}

} // verus!
