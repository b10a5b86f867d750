//! The arithmetic that the rest of the crate is written over.
//!
//! Everything here is generic in a number type `S: Scalar`. The trait promises nothing of its
//! operations: the contracts of this crate say which operations are applied to which operands and
//! in which order. They do so under [`repeatable`], which holds of a number type whose operations
//! give one result for each choice of operands.
use vstd::prelude::*;

verus! {

/// A number type: arithmetic, elementary functions, comparisons and conversions.
pub trait Scalar: Copy + Send + Sync {
    /// A wider number in which long sums of squares are accumulated.
    type Wide: Copy;

    /// The number closest to `n`.
    fn from_count(n: u64) -> Self;

    /// The number closest to `n / d`.
    fn from_ratio(n: u64, d: u64) -> Self;

    /// `self + other`.
    fn plus(self, other: Self) -> Self;

    /// `self - other`.
    fn minus(self, other: Self) -> Self;

    /// `self * other`.
    fn times(self, other: Self) -> Self;

    /// `self / other`.
    fn over(self, other: Self) -> Self;

    /// `-self`.
    fn neg(self) -> Self;

    /// The absolute value.
    fn abs(self) -> Self;

    /// `self` raised to the integer power two.
    fn square(self) -> Self;

    /// The square root.
    fn sqrt(self) -> Self;

    /// `e` raised to `self`.
    fn exp(self) -> Self;

    /// The natural logarithm.
    fn ln(self) -> Self;

    /// The natural logarithm of `1 + self`.
    fn ln_1p(self) -> Self;

    /// The sine of an angle in radians.
    fn sin(self) -> Self;

    /// The cosine of an angle in radians.
    fn cos(self) -> Self;

    /// The arc cosine, in radians.
    fn acos(self) -> Self;

    /// The angle of the vector `(other, self)`, in radians.
    fn atan2(self, other: Self) -> Self;

    /// The hyperbolic tangent.
    fn tanh(self) -> Self;

    /// The inverse hyperbolic tangent.
    fn atanh(self) -> Self;

    /// `self` raised to `other`.
    fn powf(self, other: Self) -> Self;

    /// The length of the vector `(self, other)`.
    fn hypot(self, other: Self) -> Self;

    /// The larger of two numbers; the other one where one is not a number.
    fn max(self, other: Self) -> Self;

    /// The smaller of two numbers; the other one where one is not a number.
    fn min(self, other: Self) -> Self;

    /// The largest integer not above `self`.
    fn floor(self) -> Self;

    /// The nearest integer, halves away from zero.
    fn round(self) -> Self;

    /// The integer part, saturated at the bounds of `u32`.
    fn to_u32(self) -> u32;

    /// The integer part, saturated at the bounds of `u64`.
    fn to_u64(self) -> u64;

    /// Whether `self < other`.
    fn less(self, other: Self) -> bool;

    /// Whether `self <= other`.
    fn at_most(self, other: Self) -> bool;

    /// Whether the number is neither infinite nor undefined.
    fn is_finite(self) -> bool;

    /// The empty wide sum.
    fn wide_zero() -> Self::Wide;

    /// The wide sum `total + x * x`.
    fn wide_plus_square(total: Self::Wide, x: Self) -> Self::Wide;

    /// The square root of a wide sum, as a number.
    fn wide_root(total: Self::Wide) -> Self;

}

/// The result of each operation of a number type, as a function of its operands.
pub trait Meaning: Scalar {
    /// What `from_count` returns.
    spec fn counted(n: u64) -> Self;

    /// What `from_ratio` returns.
    spec fn fraction(n: u64, d: u64) -> Self;

    /// What `plus` returns.
    spec fn sum(self, other: Self) -> Self;

    /// What `minus` returns.
    spec fn difference(self, other: Self) -> Self;

    /// What `times` returns.
    spec fn product(self, other: Self) -> Self;

    /// What `over` returns.
    spec fn quotient(self, other: Self) -> Self;

    /// What `neg` returns.
    spec fn negated(self) -> Self;

    /// What `abs` returns.
    spec fn magnitude(self) -> Self;

    /// What `square` returns.
    spec fn squared(self) -> Self;

    /// What `sqrt` returns.
    spec fn root(self) -> Self;

    /// What `exp` returns.
    spec fn exponential(self) -> Self;

    /// What `ln` returns.
    spec fn logarithm(self) -> Self;

    /// What `ln_1p` returns.
    spec fn logarithm_1p(self) -> Self;

    /// What `sin` returns.
    spec fn sine(self) -> Self;

    /// What `cos` returns.
    spec fn cosine(self) -> Self;

    /// What `acos` returns.
    spec fn arc_cosine(self) -> Self;

    /// What `atan2` returns.
    spec fn arc_tangent(self, other: Self) -> Self;

    /// What `tanh` returns.
    spec fn hyperbolic_tangent(self) -> Self;

    /// What `atanh` returns.
    spec fn inverse_tanh(self) -> Self;

    /// What `powf` returns.
    spec fn power(self, other: Self) -> Self;

    /// What `hypot` returns.
    spec fn hypotenuse(self, other: Self) -> Self;

    /// What `max` returns.
    spec fn larger(self, other: Self) -> Self;

    /// What `min` returns.
    spec fn smaller(self, other: Self) -> Self;

    /// What `floor` returns.
    spec fn floored(self) -> Self;

    /// What `round` returns.
    spec fn rounded(self) -> Self;

    /// What `to_u32` returns.
    spec fn as_u32(self) -> u32;

    /// What `to_u64` returns.
    spec fn as_u64(self) -> u64;

    /// What `less` returns.
    spec fn is_less(self, other: Self) -> bool;

    /// What `at_most` returns.
    spec fn is_at_most(self, other: Self) -> bool;

    /// What `is_finite` returns.
    spec fn finite(self) -> bool;

    /// What `wide_zero` returns.
    spec fn wide_nothing() -> Self::Wide;

    /// What `wide_plus_square` returns.
    spec fn wide_grown(total: Self::Wide, x: Self) -> Self::Wide;

    /// What `wide_root` returns.
    spec fn wide_rooted(total: Self::Wide) -> Self;
}

impl<S: Scalar> Meaning for S {
    #[verifier::opaque]
    open spec fn counted(n: u64) -> Self {
        choose|r: Self| call_ensures(S::from_count, (n,), r)
    }

    #[verifier::opaque]
    open spec fn fraction(n: u64, d: u64) -> Self {
        choose|r: Self| call_ensures(S::from_ratio, (n, d), r)
    }

    #[verifier::opaque]
    open spec fn sum(self, other: Self) -> Self {
        choose|r: Self| call_ensures(S::plus, (self, other), r)
    }

    #[verifier::opaque]
    open spec fn difference(self, other: Self) -> Self {
        choose|r: Self| call_ensures(S::minus, (self, other), r)
    }

    #[verifier::opaque]
    open spec fn product(self, other: Self) -> Self {
        choose|r: Self| call_ensures(S::times, (self, other), r)
    }

    #[verifier::opaque]
    open spec fn quotient(self, other: Self) -> Self {
        choose|r: Self| call_ensures(S::over, (self, other), r)
    }

    #[verifier::opaque]
    open spec fn negated(self) -> Self {
        choose|r: Self| call_ensures(S::neg, (self,), r)
    }

    #[verifier::opaque]
    open spec fn magnitude(self) -> Self {
        choose|r: Self| call_ensures(S::abs, (self,), r)
    }

    #[verifier::opaque]
    open spec fn squared(self) -> Self {
        choose|r: Self| call_ensures(S::square, (self,), r)
    }

    #[verifier::opaque]
    open spec fn root(self) -> Self {
        choose|r: Self| call_ensures(S::sqrt, (self,), r)
    }

    #[verifier::opaque]
    open spec fn exponential(self) -> Self {
        choose|r: Self| call_ensures(S::exp, (self,), r)
    }

    #[verifier::opaque]
    open spec fn logarithm(self) -> Self {
        choose|r: Self| call_ensures(S::ln, (self,), r)
    }

    #[verifier::opaque]
    open spec fn logarithm_1p(self) -> Self {
        choose|r: Self| call_ensures(S::ln_1p, (self,), r)
    }

    #[verifier::opaque]
    open spec fn sine(self) -> Self {
        choose|r: Self| call_ensures(S::sin, (self,), r)
    }

    #[verifier::opaque]
    open spec fn cosine(self) -> Self {
        choose|r: Self| call_ensures(S::cos, (self,), r)
    }

    #[verifier::opaque]
    open spec fn arc_cosine(self) -> Self {
        choose|r: Self| call_ensures(S::acos, (self,), r)
    }

    #[verifier::opaque]
    open spec fn arc_tangent(self, other: Self) -> Self {
        choose|r: Self| call_ensures(S::atan2, (self, other), r)
    }

    #[verifier::opaque]
    open spec fn hyperbolic_tangent(self) -> Self {
        choose|r: Self| call_ensures(S::tanh, (self,), r)
    }

    #[verifier::opaque]
    open spec fn inverse_tanh(self) -> Self {
        choose|r: Self| call_ensures(S::atanh, (self,), r)
    }

    #[verifier::opaque]
    open spec fn power(self, other: Self) -> Self {
        choose|r: Self| call_ensures(S::powf, (self, other), r)
    }

    #[verifier::opaque]
    open spec fn hypotenuse(self, other: Self) -> Self {
        choose|r: Self| call_ensures(S::hypot, (self, other), r)
    }

    #[verifier::opaque]
    open spec fn larger(self, other: Self) -> Self {
        choose|r: Self| call_ensures(S::max, (self, other), r)
    }

    #[verifier::opaque]
    open spec fn smaller(self, other: Self) -> Self {
        choose|r: Self| call_ensures(S::min, (self, other), r)
    }

    #[verifier::opaque]
    open spec fn floored(self) -> Self {
        choose|r: Self| call_ensures(S::floor, (self,), r)
    }

    #[verifier::opaque]
    open spec fn rounded(self) -> Self {
        choose|r: Self| call_ensures(S::round, (self,), r)
    }

    #[verifier::opaque]
    open spec fn as_u32(self) -> u32 {
        choose|r: u32| call_ensures(S::to_u32, (self,), r)
    }

    #[verifier::opaque]
    open spec fn as_u64(self) -> u64 {
        choose|r: u64| call_ensures(S::to_u64, (self,), r)
    }

    #[verifier::opaque]
    open spec fn is_less(self, other: Self) -> bool {
        choose|r: bool| call_ensures(S::less, (self, other), r)
    }

    #[verifier::opaque]
    open spec fn is_at_most(self, other: Self) -> bool {
        choose|r: bool| call_ensures(S::at_most, (self, other), r)
    }

    #[verifier::opaque]
    open spec fn finite(self) -> bool {
        choose|r: bool| call_ensures(S::is_finite, (self,), r)
    }

    #[verifier::opaque]
    open spec fn wide_nothing() -> Self::Wide {
        choose|r: Self::Wide| call_ensures(S::wide_zero, (), r)
    }

    #[verifier::opaque]
    open spec fn wide_grown(total: Self::Wide, x: Self) -> Self::Wide {
        choose|r: Self::Wide| call_ensures(S::wide_plus_square, (total, x), r)
    }

    #[verifier::opaque]
    open spec fn wide_rooted(total: Self::Wide) -> Self {
        choose|r: Self| call_ensures(S::wide_root, (total,), r)
    }
}

/// Whether every operation of `S` is a function of its operands: whatever it returns on given
/// operands is the one value that [`Meaning`] names.
pub open spec fn repeatable<S: Scalar>() -> bool {
    &&& forall|a: u64, r: S| #[trigger]
        call_ensures(S::from_count, (a,), r) ==> r == S::counted(a)
    &&& forall|a: u64, b: u64, r: S| #[trigger]
        call_ensures(S::from_ratio, (a, b), r) ==> r == S::fraction(a, b)
    &&& forall|a: S, b: S, r: S| #[trigger]
        call_ensures(S::plus, (a, b), r) ==> r == a.sum(b)
    &&& forall|a: S, b: S, r: S| #[trigger]
        call_ensures(S::minus, (a, b), r) ==> r == a.difference(b)
    &&& forall|a: S, b: S, r: S| #[trigger]
        call_ensures(S::times, (a, b), r) ==> r == a.product(b)
    &&& forall|a: S, b: S, r: S| #[trigger]
        call_ensures(S::over, (a, b), r) ==> r == a.quotient(b)
    &&& forall|a: S, r: S| #[trigger]
        call_ensures(S::neg, (a,), r) ==> r == a.negated()
    &&& forall|a: S, r: S| #[trigger]
        call_ensures(S::abs, (a,), r) ==> r == a.magnitude()
    &&& forall|a: S, r: S| #[trigger]
        call_ensures(S::square, (a,), r) ==> r == a.squared()
    &&& forall|a: S, r: S| #[trigger]
        call_ensures(S::sqrt, (a,), r) ==> r == a.root()
    &&& forall|a: S, r: S| #[trigger]
        call_ensures(S::exp, (a,), r) ==> r == a.exponential()
    &&& forall|a: S, r: S| #[trigger]
        call_ensures(S::ln, (a,), r) ==> r == a.logarithm()
    &&& forall|a: S, r: S| #[trigger]
        call_ensures(S::ln_1p, (a,), r) ==> r == a.logarithm_1p()
    &&& forall|a: S, r: S| #[trigger]
        call_ensures(S::sin, (a,), r) ==> r == a.sine()
    &&& forall|a: S, r: S| #[trigger]
        call_ensures(S::cos, (a,), r) ==> r == a.cosine()
    &&& forall|a: S, r: S| #[trigger]
        call_ensures(S::acos, (a,), r) ==> r == a.arc_cosine()
    &&& forall|a: S, b: S, r: S| #[trigger]
        call_ensures(S::atan2, (a, b), r) ==> r == a.arc_tangent(b)
    &&& forall|a: S, r: S| #[trigger]
        call_ensures(S::tanh, (a,), r) ==> r == a.hyperbolic_tangent()
    &&& forall|a: S, r: S| #[trigger]
        call_ensures(S::atanh, (a,), r) ==> r == a.inverse_tanh()
    &&& forall|a: S, b: S, r: S| #[trigger]
        call_ensures(S::powf, (a, b), r) ==> r == a.power(b)
    &&& forall|a: S, b: S, r: S| #[trigger]
        call_ensures(S::hypot, (a, b), r) ==> r == a.hypotenuse(b)
    &&& forall|a: S, b: S, r: S| #[trigger]
        call_ensures(S::max, (a, b), r) ==> r == a.larger(b)
    &&& forall|a: S, b: S, r: S| #[trigger]
        call_ensures(S::min, (a, b), r) ==> r == a.smaller(b)
    &&& forall|a: S, r: S| #[trigger]
        call_ensures(S::floor, (a,), r) ==> r == a.floored()
    &&& forall|a: S, r: S| #[trigger]
        call_ensures(S::round, (a,), r) ==> r == a.rounded()
    &&& forall|a: S, r: u32| #[trigger]
        call_ensures(S::to_u32, (a,), r) ==> r == a.as_u32()
    &&& forall|a: S, r: u64| #[trigger]
        call_ensures(S::to_u64, (a,), r) ==> r == a.as_u64()
    &&& forall|a: S, b: S, r: bool| #[trigger]
        call_ensures(S::less, (a, b), r) ==> r == a.is_less(b)
    &&& forall|a: S, b: S, r: bool| #[trigger]
        call_ensures(S::at_most, (a, b), r) ==> r == a.is_at_most(b)
    &&& forall|a: S, r: bool| #[trigger]
        call_ensures(S::is_finite, (a,), r) ==> r == a.finite()
    &&& forall|r: S::Wide| #[trigger]
        call_ensures(S::wide_zero, (), r) ==> r == S::wide_nothing()
    &&& forall|a: S::Wide, b: S, r: S::Wide| #[trigger]
        call_ensures(S::wide_plus_square, (a, b), r) ==> r == S::wide_grown(a, b)
    &&& forall|a: S::Wide, r: S| #[trigger]
        call_ensures(S::wide_root, (a,), r) ==> r == S::wide_rooted(a)
}

/// The number zero.
pub open spec fn zero<S: Scalar>() -> S {
    S::counted(0)
}

/// The number one.
pub open spec fn one<S: Scalar>() -> S {
    S::counted(1)
}

/// Half a turn in radians, rounded to 24 significant bits.
pub open spec fn half_turn<S: Scalar>() -> S {
    S::fraction(13176795, 4194304)
}

/// `x`, or the bound of `lo ..= hi` that it lies beyond.
pub open spec fn clamped<S: Scalar>(x: S, lo: S, hi: S) -> S {
    if x.is_less(lo) {
        lo
    } else if hi.is_less(x) {
        hi
    } else {
        x
    }
}

/// Whether `lo <= x <= hi`.
pub open spec fn within<S: Scalar>(x: S, lo: S, hi: S) -> bool {
    lo.is_at_most(x) && x.is_at_most(hi)
}

/// Whether `x` is finite and above zero.
pub open spec fn positive<S: Scalar>(x: S) -> bool {
    x.finite() && zero::<S>().is_less(x)
}

/// Whether every number of `values` is finite.
pub open spec fn all_finite<S: Scalar>(values: Seq<S>) -> bool {
    forall|i: int| 0 <= i < values.len() ==> (#[trigger] values[i]).finite()
}

/// The first `n` numbers of `values`, added up from the left.
pub open spec fn total<S: Scalar>(values: Seq<S>, n: nat) -> S
    decreases n,
{
    if n == 0 {
        zero()
    } else {
        total(values, (n - 1) as nat).sum(values[n - 1])
    }
}

/// A sequence of `n` copies of `x`.
pub open spec fn copies<T>(x: T, n: nat) -> Seq<T> {
    Seq::new(n, |i: int| x)
}

/// The bound of `lo ..= hi` that `x` lies beyond, or `x` itself.
pub fn clamp<S: Scalar>(x: S, lo: S, hi: S) -> (r: S)
    ensures
        repeatable::<S>() ==> r == clamped(x, lo, hi),
{
    if x.less(lo) {
        lo
    } else if hi.less(x) {
        hi
    } else {
        x
    }
}

/// Half a turn in radians.
pub fn pi<S: Scalar>() -> (r: S)
    ensures
        repeatable::<S>() ==> r == half_turn::<S>(),
{
    S::from_ratio(13176795, 4194304)
}

/// Whether every number of `values` is finite.
pub fn every_finite<S: Scalar>(values: &[S]) -> (r: bool)
    ensures
        repeatable::<S>() ==> r == all_finite(values@),
{
    let n: usize = values.len();
    for i in 0..n
        invariant
            n == values@.len(),
            repeatable::<S>() ==> forall|k: int| 0 <= k < i ==> (#[trigger] values@[k]).finite(),
    {
        if !values[i].is_finite() {
            return false;
        }
    }
    true
}

/// The sum of `values`, added up from the left.
pub fn sum_of<S: Scalar>(values: &[S]) -> (r: S)
    ensures
        repeatable::<S>() ==> r == total(values@, values@.len()),
{
    let mut acc: S = S::from_count(0);
    let n: usize = values.len();
    for i in 0..n
        invariant
            n == values@.len(),
            repeatable::<S>() ==> acc == total(values@, i as nat),
    {
        acc = acc.plus(values[i]);
    }
    acc
}

/// A vector of `n` copies of `x`.
pub fn repeat<T: Copy>(x: T, n: usize) -> (r: Vec<T>)
    ensures
        r@ == copies(x, n as nat),
{
    let mut r: Vec<T> = Vec::with_capacity(n);
    for i in 0..n
        invariant
            r@ == copies(x, i as nat),
    {
        r.push(x);
    }
    r
}

/// Overwrites every entry of `target` with `x`.
pub fn fill<T: Copy>(target: &mut Vec<T>, x: T)
    ensures
        final(target)@ == copies(x, old(target)@.len()),
{
    let n: usize = target.len();
    for i in 0..n
        invariant
            n == target@.len(),
            n == old(target)@.len(),
            forall|k: int| 0 <= k < i ==> target@[k] == x,
    {
        target[i] = x;
    }
    assert(target@ =~= copies(x, n as nat));
}

/// Copies `source` over the entries of `target` that start at `at`.
pub fn overwrite<T: Copy>(target: &mut Vec<T>, at: usize, source: &[T])
    requires
        at + source@.len() <= old(target)@.len(),
    ensures
        final(target)@ == old(target)@.take(at as int) + source@ + old(target)@.skip(
            at + source@.len(),
        ),
{
    let n: usize = source.len();
    let size: usize = target.len();
    for i in 0..n
        invariant
            n == source@.len(),
            at + n <= size,
            target@.len() == size,
            old(target)@.len() == size,
            forall|k: int| 0 <= k < i ==> target@[at + k] == source@[k],
            forall|k: int|
                0 <= k < target@.len() && (k < at || at + i <= k) ==> target@[k] == old(target)@[k],
    {
        target[at + i] = source[i];
    }
    assert(target@ =~= old(target)@.take(at as int) + source@ + old(target)@.skip(at + n)) by {
        assert forall|k: int| at <= k < at + n implies target@[k] == source@[k - at] by {
            assert(target@[at + (k - at)] == source@[k - at]);
        }
    }
}

/// Copies `source` over `target`.
pub fn copy_over<T: Copy>(target: &mut [T], source: &[T])
    requires
        old(target)@.len() == source@.len(),
    ensures
        final(target)@ == source@,
{
    let n: usize = source.len();
    for i in 0..n
        invariant
            n == source@.len() == target@.len(),
            forall|k: int| 0 <= k < i ==> target@[k] == source@[k],
    {
        target[i] = source[i];
    }
    assert(target@ =~= source@);
}

/// The numbers from zero to below `n`.
pub open spec fn counting(n: nat) -> Seq<usize> {
    Seq::new(n, |i: int| i as usize)
}

/// The numbers from zero to below `n`.
pub fn count_up(n: usize) -> (r: Vec<usize>)
    ensures
        r@ == counting(n as nat),
{
    let mut r: Vec<usize> = Vec::with_capacity(n);
    for i in 0..n
        invariant
            r@ == counting(i as nat),
    {
        r.push(i);
    }
    r
}

} // verus!
