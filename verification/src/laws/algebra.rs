//! Facts about products and quotients of real numbers.
use vstd::prelude::*;

verus! {

/// A product of positive numbers is positive.
pub proof fn lemma_positive(a: real, b: real)
    by (nonlinear_arith)
    requires
        a > 0real,
        b > 0real,
    ensures
        a * b > 0real,
{
}

/// A quotient times its divisor.
pub proof fn lemma_divided(a: real, b: real)
    by (nonlinear_arith)
    requires
        b > 0real,
    ensures
        (a / b) * b == a,
{
}

/// The neutral and the absorbing factor.
pub proof fn lemma_units(a: real)
    by (nonlinear_arith)
    ensures
        1real * a == a,
        a * 1real == a,
        0real * a == 0real,
        a * 0real == 0real,
{
}

/// Signs move through products.
pub proof fn lemma_signs(a: real, b: real)
    by (nonlinear_arith)
    ensures
        (0real - a) * b == 0real - a * b,
        a * (0real - b) == 0real - a * b,
        a * b == b * a,
{
}

/// Products distribute over differences.
pub proof fn lemma_distributes(a: real, b: real, c: real)
    by (nonlinear_arith)
    ensures
        (a - b) * c == a * c - b * c,
        (a + b) * c == a * c + b * c,
        c * (a - b) == c * a - c * b,
        c * (a + b) == c * a + c * b,
        a * b * c == a * (b * c),
{
}

/// A product of a negative and a positive number is negative.
pub proof fn lemma_negative(a: real, b: real)
    requires
        a < 0real,
        b > 0real,
    ensures
        a * b < 0real,
        b * a < 0real,
{
    lemma_signs(a, b);
    lemma_positive(0real - a, b);
}

/// The square of a number that is not zero is positive.
pub proof fn lemma_square(a: real)
    requires
        a != 0real,
    ensures
        a * a > 0real,
{
    if a > 0real {
        lemma_positive(a, a);
    } else {
        lemma_positive(0real - a, 0real - a);
        lemma_signs(a, 0real - a);
        lemma_signs(a, a);
    }
}

/// A factor has the sign of its product with a positive number.
pub proof fn lemma_sign_of_factor(a: real, b: real)
    requires
        a > 0real,
    ensures
        a * b > 0real <==> b > 0real,
        a * b < 0real <==> b < 0real,
        a * b == 0real <==> b == 0real,
{
    if b > 0real {
        lemma_positive(a, b);
    } else if b < 0real {
        lemma_negative(b, a);
    } else {
        lemma_units(a);
    }
}

/// A positive factor keeps the order, and a negative one turns it round.
pub proof fn lemma_scaled_order(a: real, b: real, c: real)
    ensures
        c > 0real ==> (a * c <= b * c <==> a <= b),
        c < 0real ==> (a * c <= b * c <==> b <= a),
        c == 0real ==> a * c == 0real && b * c == 0real,
{
    lemma_distributes(b, a, c);
    lemma_signs(c, b - a);
    lemma_units(a);
    lemma_units(b);
    if c > 0real {
        lemma_sign_of_factor(c, b - a);
    } else if c < 0real {
        lemma_sign_of_factor(0real - c, b - a);
    }
}

/// What gives `a` when multiplied by `b` is their quotient.
pub proof fn lemma_quotient(a: real, b: real, q: real)
    requires
        b > 0real,
        q * b == a,
    ensures
        q == a / b,
{
    lemma_divided(a, b);
    lemma_distributes(q, a / b, b);
    lemma_signs(b, q - a / b);
    lemma_sign_of_factor(b, q - a / b);
}

/// Half a number, twice.
pub proof fn lemma_halves(x: real)
    ensures
        2real * ((1real / 2real) * x) == x,
{
    lemma_divided(1real, 2real);
    lemma_distributes(2real, 1real / 2real, x);
    lemma_signs(1real / 2real, 2real);
    lemma_units(x);
}

/// What half the difference of two squares is in units of `s`.
proof fn lemma_parabola_parts(s: real, z: real, y: real, g: real, p: real, d: real, c: real)
    ensures
        2real * s * s * g == (s * s) * (2real * g),
        (s * s) * (z * z - y * y) == (z * s) * (z * s) - (y * s) * (y * s),
        p * p - (p - d) * (p - d) == 2real * d * p - d * d,
        2real * s * s * d * c == 2real * d * ((c * s) * s),
{
    assert(2real * s * s * g == (s * s) * (2real * g)) by (nonlinear_arith);
    assert((s * s) * (z * z - y * y) == (z * s) * (z * s) - (y * s) * (y * s))
        by (nonlinear_arith);
    assert(p * p - (p - d) * (p - d) == 2real * d * p - d * d) by (nonlinear_arith);
    assert(2real * s * s * d * c == 2real * d * ((c * s) * s)) by (nonlinear_arith);
}

/// How a parabola changes: `gain` is half the difference of the squares of two distances in units
/// of `s`, from `t` to `m` and to `n`.
pub proof fn lemma_parabola(
    t: real,
    m: real,
    n: real,
    s: real,
    z: real,
    y: real,
    slope: real,
    gain: real,
)
    requires
        z * s == t - m,
        y * s == t - n,
        slope * s == z,
        2real * gain == z * z - y * y,
    ensures
        2real * s * s * gain == 2real * s * s * (n - m) * slope - (n - m) * (n - m),
{
    lemma_parabola_parts(s, z, y, gain, z * s, n - m, slope);
    assert(y * s == z * s - (n - m));
}

/// What a step along the slope of a parabola gains.
pub proof fn lemma_step_on_parabola(w: real, k: real, slope: real)
    ensures
        w * (k * slope) * slope - (k * slope) * (k * slope) == (k * (slope * slope)) * (w - k),
{
    assert(w * (k * slope) * slope - (k * slope) * (k * slope) == (k * (slope * slope)) * (w - k))
        by (nonlinear_arith);
}

/// The outer factors of a product of three change places with the inner one.
pub proof fn lemma_swap(a: real, b: real, c: real)
    ensures
        a * (b * c) == b * (a * c),
        a * (b * c) == (a * b) * c,
{
    lemma_distributes(a, b, c);
    lemma_distributes(b, a, c);
    lemma_signs(a, b);
}

/// A product of four, grouped otherwise.
pub proof fn lemma_regroup(a: real, b: real, c: real, d: real)
    ensures
        (a * b) * (c * d) == (a * c) * (b * d),
        (a * b) * (c * d) == (a * d) * (b * c),
{
    lemma_swap(a, b, c * d);
    lemma_swap(b, c, d);
    lemma_swap(a, c, b * d);
    lemma_signs(c, d);
    lemma_swap(b, d, c);
    lemma_swap(a, d, b * c);
}

/// A turn back and forth: with the cosine `c` and the sine `d` of an angle, and `p` and `q` of the
/// angle of the turn.
pub proof fn lemma_there_and_back(c: real, d: real, p: real, q: real)
    requires
        q * q + p * p == 1real,
    ensures
        p * (c * p + d * q) - q * (d * p - c * q) == c,
        q * (c * p + d * q) + p * (d * p - c * q) == d,
{
    lemma_distributes(c * p, d * q, p);
    lemma_distributes(d * p, c * q, q);
    lemma_swap(p, c, p);
    lemma_swap(p, d, q);
    lemma_swap(q, d, p);
    lemma_swap(q, c, q);
    lemma_signs(p, q);
    lemma_distributes(q * q, p * p, c);
    assert(p * (c * p + d * q) - q * (d * p - c * q) == c * (q * q + p * p));
    lemma_distributes(c * p, d * q, q);
    lemma_distributes(d * p, c * q, p);
    lemma_swap(q, c, p);
    lemma_swap(q, d, q);
    lemma_swap(p, d, p);
    lemma_swap(p, c, q);
    lemma_distributes(q * q, p * p, d);
    assert(q * (c * p + d * q) + p * (d * p - c * q) == d * (q * q + p * p));
    lemma_units(c);
    lemma_units(d);
}

/// The squared length of two links that meet at an elbow with the cosine `c` and the sine `s`.
pub proof fn lemma_elbow(u: real, l: real, c: real, s: real)
    requires
        s * s + c * c == 1real,
    ensures
        (u + l * c) * (u + l * c) + (l * s) * (l * s) == u * u + l * l + c * (2real * u * l),
{
    let m = l * c;
    lemma_distributes(u, m, u + m);
    lemma_distributes(u, m, u);
    lemma_distributes(u, m, m);
    lemma_signs(u, m);
    lemma_regroup(l, c, l, c);
    lemma_regroup(l, s, l, s);
    lemma_distributes(s * s, c * c, l * l);
    lemma_swap(u, l, c);
    lemma_swap(2real, u, l);
    lemma_signs(u * l, c);
    lemma_swap(c, 2real, u * l);
    assert(c * (2real * u * l) == 2real * (u * m));
    lemma_units(l * l);
}

/// Where two links end whose first one points from the direction of a point by the angle that the
/// elbow turns them: at that point.
pub proof fn lemma_two_links(
    x: real,
    y: real,
    r: real,
    u: real,
    l: real,
    c: real,
    s: real,
    ca: real,
    sa: real,
    cb: real,
    sb: real,
)
    requires
        ca * r == x,
        sa * r == y,
        cb * r == u + l * c,
        sb * r == l * s,
        sb * sb + cb * cb == 1real,
    ensures
        ({
            let f = ca * cb + sa * sb;
            let g = sa * cb - ca * sb;
            &&& u * f + l * (f * c - g * s) == x
            &&& u * g + l * (g * c + f * s) == y
        }),
{
    let f = ca * cb + sa * sb;
    let g = sa * cb - ca * sb;
    lemma_distributes(f * c, g * s, l);
    lemma_swap(l, f, c);
    lemma_swap(l, g, s);
    lemma_distributes(u, l * c, f);
    lemma_signs(u, f);
    assert(u * f + l * (f * c - g * s) == f * (u + l * c) - g * (l * s));
    lemma_distributes(g * c, f * s, l);
    lemma_swap(l, g, c);
    lemma_swap(l, f, s);
    lemma_distributes(u, l * c, g);
    lemma_signs(u, g);
    assert(u * g + l * (g * c + f * s) == g * (u + l * c) + f * (l * s));
    lemma_distributes(ca * cb, sa * sb, cb * r);
    lemma_distributes(sa * cb, ca * sb, sb * r);
    lemma_regroup(ca, cb, cb, r);
    lemma_regroup(ca, sb, sb, r);
    lemma_regroup(sa, sb, cb, r);
    lemma_distributes(sb * sb, cb * cb, ca * r);
    assert(f * (cb * r) - g * (sb * r) == (ca * r) * (sb * sb + cb * cb));
    lemma_distributes(sa * cb, ca * sb, cb * r);
    lemma_distributes(ca * cb, sa * sb, sb * r);
    lemma_regroup(sa, cb, cb, r);
    lemma_regroup(sa, sb, sb, r);
    lemma_regroup(ca, sb, cb, r);
    lemma_distributes(sb * sb, cb * cb, sa * r);
    assert(g * (cb * r) + f * (sb * r) == (sa * r) * (sb * sb + cb * cb));
    lemma_units(x);
    lemma_units(y);
}

/// No square is negative.
pub proof fn lemma_not_negative(a: real)
    ensures
        a * a >= 0real,
{
    if a != 0real {
        lemma_square(a);
    } else {
        lemma_units(a);
    }
}

/// A difference and its opposite have the same square.
pub proof fn lemma_opposite_squares(a: real, b: real)
    ensures
        (a - b) * (a - b) == (b - a) * (b - a),
{
    lemma_signs(b - a, b - a);
    lemma_signs(b - a, 0real - (b - a));
    assert(a - b == 0real - (b - a));
}

/// Numbers that are not negative are equal where their squares are.
pub proof fn lemma_same_squares(a: real, b: real)
    requires
        a >= 0real,
        b >= 0real,
        a * a == b * b,
    ensures
        a == b,
{
    lemma_distributes(a, b, a + b);
    lemma_distributes(a, b, a);
    lemma_distributes(a, b, b);
    lemma_signs(a, b);
    assert((a - b) * (a + b) == 0real);
    if a + b > 0real {
        lemma_signs(a - b, a + b);
        lemma_sign_of_factor(a + b, a - b);
    }
}

} // verus!
