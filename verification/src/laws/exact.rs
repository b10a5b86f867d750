//! Numbers read as real numbers. A reading assigns a real number to each number; it is exact where
//! the operations on numbers do to them what the operations of analysis do to their readings. The
//! laws that speak of signs, orders and sizes hold under every exact reading.
use crate::num::{self, Meaning, Scalar};
use vstd::prelude::*;

verus! {

/// `n / d`.
pub open spec fn part(n: int, d: int) -> real {
    (n as real) / (d as real)
}

/// The smaller of two real numbers.
pub open spec fn least(a: real, b: real) -> real {
    if a <= b {
        a
    } else {
        b
    }
}

/// The larger of two real numbers.
pub open spec fn most(a: real, b: real) -> real {
    if a <= b {
        b
    } else {
        a
    }
}

/// `x` brought within `lo ..= hi`.
pub open spec fn between(x: real, lo: real, hi: real) -> real {
    if x < lo {
        lo
    } else if hi < x {
        hi
    } else {
        x
    }
}

/// Whether `r` is the length of the vector from the origin to `(x, y)`, and not zero.
pub open spec fn spans(r: real, x: real, y: real) -> bool {
    r > 0real && r * r == x * x + y * y
}

/// Whether the reading respects counting and fractions.
pub open spec fn counts<S: Scalar>(v: spec_fn(S) -> real) -> bool {
    &&& forall|n: u64| v(#[trigger] S::counted(n)) == n as real
    &&& forall|n: u64, d: u64|
        d != 0 ==> v(#[trigger] S::fraction(n, d)) == part(n as int, d as int)
}

/// Whether the reading respects the four operations and squares.
pub open spec fn reckons<S: Scalar>(v: spec_fn(S) -> real) -> bool {
    &&& forall|a: S, b: S| v(#[trigger] a.sum(b)) == v(a) + v(b)
    &&& forall|a: S, b: S| v(#[trigger] a.difference(b)) == v(a) - v(b)
    &&& forall|a: S, b: S| v(#[trigger] a.product(b)) == v(a) * v(b)
    &&& forall|a: S, b: S| v(b) != 0real ==> v(#[trigger] a.quotient(b)) == v(a) / v(b)
    &&& forall|a: S| v(#[trigger] a.negated()) == 0real - v(a)
    &&& forall|a: S| v(#[trigger] a.squared()) == v(a) * v(a)
    &&& forall|a: S|
        v(a) >= 0real ==> v(#[trigger] a.root()) >= 0real && v(a.root()) * v(a.root()) == v(a)
}

/// Whether the reading respects the order.
pub open spec fn orders<S: Scalar>(v: spec_fn(S) -> real) -> bool {
    &&& forall|a: S, b: S| #[trigger] a.is_less(b) <==> v(a) < v(b)
    &&& forall|a: S, b: S| #[trigger] a.is_at_most(b) <==> v(a) <= v(b)
    &&& forall|a: S, b: S| v(#[trigger] a.larger(b)) == most(v(a), v(b))
    &&& forall|a: S, b: S| v(#[trigger] a.smaller(b)) == least(v(a), v(b))
    &&& forall|a: S| v(#[trigger] a.magnitude()) == most(v(a), 0real - v(a))
}

/// Whether the reading respects the exponential function and the logarithm.
pub open spec fn grows<S: Scalar>(v: spec_fn(S) -> real) -> bool {
    &&& forall|a: S| v(#[trigger] a.exponential()) > 0real
    &&& forall|a: S| v(a) == 0real ==> v(#[trigger] a.exponential()) == 1real
    &&& forall|a: S, b: S|
        v(a) < v(b) ==> v(#[trigger] a.exponential()) < v(#[trigger] b.exponential())
    &&& forall|a: S, b: S|
        v(a) == v(b) ==> v(#[trigger] a.exponential()) == v(#[trigger] b.exponential())
    &&& forall|a: S, b: S|
        v(#[trigger] a.sum(b).exponential()) == v(a.exponential()) * v(b.exponential())
    &&& forall|a: S| v(#[trigger] a.exponential().logarithm()) == v(a)
    &&& forall|a: S|
        v(a) > -1real ==> v((#[trigger] a.logarithm_1p()).exponential()) == 1real + v(a)
}

/// Whether the reading respects the hyperbolic tangent and its inverse.
pub open spec fn squashes<S: Scalar>(v: spec_fn(S) -> real) -> bool {
    &&& forall|a: S| -1real < v(#[trigger] a.hyperbolic_tangent()) < 1real
    &&& forall|a: S, b: S|
        v(a) < v(b) ==> v(#[trigger] a.hyperbolic_tangent()) < v(#[trigger] b.hyperbolic_tangent())
    &&& forall|a: S, b: S|
        v(a) == v(b) ==> v(#[trigger] a.hyperbolic_tangent()) == v(
            #[trigger] b.hyperbolic_tangent(),
        )
    &&& forall|a: S|
        -1real < v(a) < 1real ==> v((#[trigger] a.inverse_tanh()).hyperbolic_tangent()) == v(a)
}

/// Whether the reading respects sines and cosines, and the functions that lead back from them.
pub open spec fn turns<S: Scalar>(v: spec_fn(S) -> real) -> bool {
    &&& forall|a: S|
        v(#[trigger] a.sine()) * v(a.sine()) + v(a.cosine()) * v(a.cosine()) == 1real
    &&& forall|a: S|
        v(a.sine()) * v(a.sine()) + v(#[trigger] a.cosine()) * v(a.cosine()) == 1real
    &&& forall|a: S, b: S|
        v(#[trigger] a.sum(b).sine()) == v(a.sine()) * v(b.cosine()) + v(a.cosine()) * v(b.sine())
    &&& forall|a: S, b: S|
        v(#[trigger] a.sum(b).cosine()) == v(a.cosine()) * v(b.cosine()) - v(a.sine()) * v(b.sine())
    &&& forall|a: S, b: S|
        v(#[trigger] a.difference(b).sine()) == v(a.sine()) * v(b.cosine()) - v(a.cosine()) * v(
            b.sine(),
        )
    &&& forall|a: S, b: S|
        v(#[trigger] a.difference(b).cosine()) == v(a.cosine()) * v(b.cosine()) + v(a.sine()) * v(
            b.sine(),
        )
    &&& forall|a: S|
        -1real <= v(a) <= 1real ==> v((#[trigger] a.arc_cosine()).cosine()) == v(a)
    &&& forall|y: S, x: S, r: real|
        #[trigger] spans(r, v(x), v(y)) ==> {
            &&& v((#[trigger] y.arc_tangent(x)).cosine()) * r == v(x)
            &&& v(y.arc_tangent(x).sine()) * r == v(y)
        }
}

/// Whether the reading is exact.
pub open spec fn exact<S: Scalar>(v: spec_fn(S) -> real) -> bool {
    &&& counts(v)
    &&& reckons(v)
    &&& orders(v)
    &&& grows(v)
    &&& squashes(v)
    &&& turns(v)
}

/// The readings of the first `n` numbers, added up.
pub open spec fn added<S: Scalar>(v: spec_fn(S) -> real, values: Seq<S>, n: nat) -> real
    decreases n,
{
    if n == 0 {
        0real
    } else {
        added(v, values, (n - 1) as nat) + v(values[n - 1])
    }
}

/// A total reads as the sum of the readings.
pub proof fn lemma_total_reads<S: Scalar>(v: spec_fn(S) -> real, values: Seq<S>, n: nat)
    requires
        counts(v),
        reckons(v),
    ensures
        v(num::total(values, n)) == added(v, values, n),
    decreases n,
{
    if n > 0 {
        lemma_total_reads(v, values, (n - 1) as nat);
    }
}

/// A number that was brought within bounds reads as the reading brought within the bounds'
/// readings.
pub proof fn lemma_clamped_reads<S: Scalar>(v: spec_fn(S) -> real, x: S, lo: S, hi: S)
    requires
        orders(v),
    ensures
        v(num::clamped(x, lo, hi)) == between(v(x), v(lo), v(hi)),
{
}

} // verus!
