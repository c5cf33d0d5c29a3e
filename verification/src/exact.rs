//! Arithmetic that does not round: whole numbers, halves, quarters and so on of
//! up to fifty-three bits are figures, and their sums, differences, products
//! and quotients are what they are on paper.

use vstd::arithmetic::div_mod::{lemma_div_is_ordered, lemma_div_multiples_vanish_quotient, lemma_fundamental_div_mod};
use vstd::arithmetic::power2::{lemma2_to64, lemma2_to64_rest, lemma_pow2_adds, lemma_pow2_pos, lemma_pow2_strictly_increases, pow2};
use vstd::prelude::*;

use crate::arithmetic::{cut_to_range, difference, half_even_exact, nearest_scales, nearest_size, opposite, pattern_of_units, product, quotient, rounded_figure, shift_for, signed_whole, sum, total, whole, with_sign};
use crate::decimal::half_even;
use crate::figure::Figure;
use crate::rounding::{figures_round_to_themselves, half_even_bounds, patterns_order_as_values, rounding_keeps_order, shift_bounds};

verus! {

/// Whether `k` is the nearest number to `n / d`, the even one of two.
pub open spec fn nearest_to(k: nat, n: nat, d: nat) -> bool {
    &&& (2 * k - 1) * d <= 2 * n
    &&& 2 * n <= (2 * k + 1) * d
    &&& 2 * n == (2 * k - 1) * d || 2 * n == (2 * k + 1) * d ==> k % 2 == 0
}

/// Rounding to even halves gives the nearest number.
pub proof fn half_even_is_nearest(n: nat, d: nat)
    requires
        d > 0,
    ensures
        nearest_to(half_even(n, d), n, d),
{
    lemma_fundamental_div_mod(n as int, d as int);
    let (q, r, k) = (n / d, n % d, half_even(n, d));
    assert((2 * q - 1) * d == 2 * (d * q) - d && (2 * q + 1) * d == 2 * (d * q) + d && (2 * (q + 1)
        - 1) * d == 2 * (d * q) + d && (2 * (q + 1) + 1) * d == 2 * (d * q) + 3 * d)
        by (nonlinear_arith);
}

/// A quotient is rounded to the nearest figure, the even one of two: to `m 2^s`
/// units where `m` is nearest to the number of steps of `2^s` units in it, and
/// the steps are as small as fifty-three bits allow.
pub proof fn rounding_is_to_the_nearest(p: nat, q: nat)
    requires
        q > 0,
        with_sign(false, nearest_size(p, q)).finite(),
    ensures
        exists|m: nat, s: nat|
            {
                &&& with_sign(false, nearest_size(p, q)).units() == m * #[trigger] pow2(s)
                &&& #[trigger] nearest_to(m, p, q * pow2(s))
                &&& m <= 0x20_0000_0000_0000
                &&& s > 0 ==> m >= 0x10_0000_0000_0000
            },
{
    let f = with_sign(false, nearest_size(p, q));
    let n = p / q;
    let s = shift_for(n);
    let e = pow2(s);
    let d = q * e;
    lemma_pow2_pos(s);
    assert(d > 0) by (nonlinear_arith)
        requires
            d == q * e,
            q > 0,
            e > 0,
    ;
    let m = half_even(p, d);
    half_even_is_nearest(p, d);
    shift_bounds(n);
    lemma2_to64_rest();
    lemma_pow2_adds(53, s);
    lemma_pow2_adds(52, s);
    lemma_fundamental_div_mod(p as int, q as int);
    let (top, low) = (0x20_0000_0000_0000nat, 0x10_0000_0000_0000nat);
    assert(p < top * d) by (nonlinear_arith)
        requires
            p == q * n + p % q,
            p % q < q,
            n < top * e,
            d == q * e,
            q > 0,
    {
        assert(q * n <= q * (top * e - 1));
        assert(q * (top * e - 1) == top * (q * e) - q);
    }
    half_even_bounds(p, d, top);
    if s > 0 {
        assert(p >= low * d) by (nonlinear_arith)
            requires
                p == q * n + p % q,
                p % q >= 0,
                n >= low * e,
                d == q * e,
                q > 0,
        {
            assert(q * n >= q * (low * e));
            assert(q * (low * e) == low * (q * e));
        }
        half_even_bounds(p, d, low);
    }
    assert(f.magnitude() == s * 0x10_0000_0000_0000 + m);
    if m == top {
        assert(f.exponent_field() == s + 2);
        assert(f.mantissa() == low);
        lemma_pow2_adds(1, s);
        lemma2_to64();
        assert(low * (2 * e) == top * e) by (nonlinear_arith)
            requires
                top == 2 * low,
        ;
    } else if s == 0 {
        assert(f.mantissa() == m);
        assert(f.exponent() == -1074);
    } else {
        assert(f.exponent_field() == s + 1);
        assert(f.mantissa() == m);
    }
    assert(f.units() == m * pow2(s));
}

/// The size of a number.
pub open spec fn size(n: int) -> nat {
    if n < 0 {
        (-n) as nat
    } else {
        n as nat
    }
}

/// The figure nearest to `n / 2^j`.
pub open spec fn dyadic(n: int, j: nat) -> Figure {
    with_sign(n < 0, nearest_size(size(n) * pow2((1074 - j) as nat), 1))
}

/// Whether a number has no more bits than a figure keeps.
pub open spec fn short(n: int) -> bool {
    -0x20_0000_0000_0000 < n < 0x20_0000_0000_0000
}

/// A short number of halves, quarters and so on is a figure: its pattern says
/// exactly that value.
pub proof fn dyadics_are_exact(n: int, j: nat)
    requires
        short(n),
        j <= 1000,
    ensures
        dyadic(n, j).finite(),
        !dyadic(n, j).nan(),
        dyadic(n, j).negative() == (n < 0),
        dyadic(n, j).units() == size(n) * pow2((1074 - j) as nat),
        dyadic(n, j).signed_units() == n * pow2((1074 - j) as nat),
        n == 0 ==> dyadic(n, j).bits == 0,
{
    let m = size(n);
    let x = (1074 - j) as nat;
    let t = pow2(x);
    let value = m * t;
    let s = shift_for(value);
    let f = dyadic(n, j);
    lemma_pow2_pos(x);
    assert(-(m * t) == (-m) * t) by (nonlinear_arith);
    if n == 0 {
        half_even_exact(0, 1);
        lemma2_to64();
        assert(0 * t == 0) by (nonlinear_arith);
        assert(f.bits == 0);
    } else {
        shift_bounds(value);
        lemma2_to64_rest();
        lemma_pow2_adds(53, x);
        assert(t <= value < 0x20_0000_0000_0000 * t) by (nonlinear_arith)
            requires
                value == m * t,
                0 < m < 0x20_0000_0000_0000,
                t > 0,
        ;
        if s > x {
            if 52 + s > 53 + x {
                lemma_pow2_strictly_increases(53 + x, 52 + s);
            }
            assert(false);
        }
        if s == 0 {
            if x > 53 {
                lemma_pow2_strictly_increases(53, x);
            }
            assert(false);
        }
        let rest = (x - s) as nat;
        let k = m * pow2(rest);
        lemma_pow2_adds(rest, s);
        lemma_pow2_adds(53, s);
        lemma_pow2_adds(52, s);
        lemma_pow2_pos(s);
        let e = pow2(s);
        assert(value == k * e) by (nonlinear_arith)
            requires
                value == m * t,
                t == pow2(rest) * e,
                k == m * pow2(rest),
        ;
        half_even_exact(k, e);
        assert(0x10_0000_0000_0000 <= k < 0x20_0000_0000_0000) by (nonlinear_arith)
            requires
                k * e == value,
                0x10_0000_0000_0000 * e <= value < 0x20_0000_0000_0000 * e,
                e > 0,
        ;
        assert(f.magnitude() == s * 0x10_0000_0000_0000 + k);
        assert(f.exponent_field() == s + 1);
        assert(f.mantissa() == k);
    }
}

/// What says the value of a dyadic is that dyadic.
pub proof fn values_tell_dyadics(f: Figure, n: nat, j: nat)
    requires
        f.finite(),
        !f.negative(),
        f.units() == n * pow2((1074 - j) as nat),
    ensures
        f == dyadic(n as int, j),
{
    figures_round_to_themselves(f);
}

/// The same value in finer parts is the same figure.
pub proof fn finer_parts(n: int, j: nat, k: nat)
    requires
        j + k <= 1000,
    ensures
        dyadic(n, j) == dyadic(n * pow2(k), j + k),
{
    let x = (1074 - j - k) as nat;
    lemma_pow2_adds(k, x);
    lemma_pow2_pos(k);
    let (p, t, m) = (pow2(k), pow2(x), size(n));
    assert(m * (p * t) == (m * p) * t) by (nonlinear_arith);
    assert(size(n * p) == m * p && (n * p < 0 <==> n < 0)) by (nonlinear_arith)
        requires
            p > 0,
            m == if n < 0 {
                -n
            } else {
                n
            },
            size(n * p) == if n * p < 0 {
                -(n * p)
            } else {
                n * p
            },
    ;
}

/// Whole numbers are dyadics without a fraction.
pub proof fn wholes_are_dyadics(n: int)
    ensures
        signed_whole(n) == dyadic(n, 0),
        n >= 0 ==> whole(n as nat) == dyadic(n, 0),
{
}

/// Dyadics order as their values do.
pub proof fn dyadics_order(a: int, b: int, j: nat)
    requires
        short(a),
        short(b),
        j <= 1000,
    ensures
        dyadic(a, j).at_most(dyadic(b, j)) <==> a <= b,
        dyadic(a, j).below(dyadic(b, j)) <==> a < b,
        dyadic(a, j) == dyadic(b, j) <==> a == b,
{
    dyadics_are_exact(a, j);
    dyadics_are_exact(b, j);
    let (f, g) = (dyadic(a, j), dyadic(b, j));
    patterns_order_as_values(f, g);
    patterns_order_as_values(g, f);
    pattern_of_units(f);
    pattern_of_units(g);
    let t = pow2((1074 - j) as nat);
    lemma_pow2_pos((1074 - j) as nat);
    let (m, n) = (size(a), size(b));
    assert(m * t <= n * t <==> m <= n) by (nonlinear_arith)
        requires
            t > 0,
    ;
    assert(n * t <= m * t <==> n <= m) by (nonlinear_arith)
        requires
            t > 0,
    ;
    assert(m * t == 0 <==> m == 0) by (nonlinear_arith)
        requires
            t > 0,
    ;
    assert(n * t == 0 <==> n == 0) by (nonlinear_arith)
        requires
            t > 0,
    ;
}

proof fn opposites(f: Figure)
    requires
        f.finite(),
    ensures
        opposite(f).finite(),
        opposite(f).signed_units() == -f.signed_units(),
        opposite(f).negative() == !f.negative(),
{
    let g = opposite(f);
    assert(g.magnitude() == f.magnitude());
    assert(g.units() == f.units());
}

/// Sums and differences of dyadics.
pub proof fn dyadics_add(a: int, b: int, j: nat)
    requires
        short(a),
        short(b),
        j <= 1000,
    ensures
        sum(dyadic(a, j), dyadic(b, j)) == dyadic(a + b, j),
        difference(dyadic(a, j), dyadic(b, j)) == dyadic(a - b, j),
{
    dyadics_are_exact(a, j);
    dyadics_are_exact(b, j);
    dyadics_are_exact(0, j);
    opposites(dyadic(b, j));
    let t = pow2((1074 - j) as nat);
    lemma_pow2_pos((1074 - j) as nat);
    half_even_exact(0, 1);
    lemma2_to64();
    assert(a * t + b * t == (a + b) * t) by (nonlinear_arith);
    assert(a * t + (-(b * t)) == (a - b) * t) by (nonlinear_arith);
    sized(a + b, t);
    sized(a - b, t);
}

proof fn sized(n: int, t: nat)
    requires
        t > 0,
    ensures
        n > 0 ==> n * t > 0 && size(n) * t == n * t,
        n < 0 ==> n * t < 0 && size(n) * t == -(n * t),
        n == 0 ==> n * t == 0 && size(n) * t == 0,
{
    assert((-n) * t == -(n * t)) by (nonlinear_arith);
    assert(n > 0 ==> n * t > 0) by (nonlinear_arith)
        requires
            t > 0,
    ;
    assert(n < 0 ==> n * t < 0) by (nonlinear_arith)
        requires
            t > 0,
    ;
    assert(0 * t == 0) by (nonlinear_arith);
}

/// Products of dyadics that are not negative.
pub proof fn dyadics_multiply(a: nat, i: nat, b: nat, j: nat)
    requires
        short(a as int),
        short(b as int),
        i + j <= 1000,
    ensures
        product(dyadic(a as int, i), dyadic(b as int, j)) == dyadic((a * b) as int, i + j),
{
    dyadics_are_exact(a as int, i);
    dyadics_are_exact(b as int, j);
    let (p, q) = (pow2((1074 - i) as nat), pow2((1074 - j) as nat));
    let (r, t) = (pow2((1074 - i - j) as nat), pow2(1074));
    lemma_pow2_pos(1074);
    lemma_pow2_adds((1074 - i) as nat, (1074 - j) as nat);
    lemma_pow2_adds((1074 - i - j) as nat, 1074);
    assert((a * p) * (b * q) == ((a * b) * r) * t) by (nonlinear_arith)
        requires
            p * q == r * t,
    {
        assert((a * p) * (b * q) == (a * b) * (p * q));
        assert(((a * b) * r) * t == (a * b) * (r * t));
    }
    assert(a * b >= 0) by (nonlinear_arith);
    nearest_scales((a * b) * r, 1, t);
    assert(1 * t == t);
}

/// A dyadic divided into equal parts.
pub proof fn dyadics_divide(q: int, i: nat, b: nat)
    requires
        short(q * b),
        q >= 0,
        0 < b,
        short(b as int),
        i <= 1000,
    ensures
        quotient(dyadic(q * b, i), whole(b)) == dyadic(q, i),
{
    assert(q * b >= 0) by (nonlinear_arith)
        requires
            q >= 0,
            b >= 0,
    ;
    dyadics_are_exact(q * b, i);
    dyadics_are_exact(b as int, 0);
    wholes_are_dyadics(b as int);
    let (p, t) = (pow2((1074 - i) as nat), pow2(1074));
    let n = size(q * b);
    lemma_pow2_pos(1074);
    let c = b * t;
    assert(c > 0) by (nonlinear_arith)
        requires
            b > 0,
            t > 0,
            c == b * t,
    ;
    pattern_of_units(whole(b));
    let m = q as nat;
    assert((n * p) * t == (m * p) * c) by (nonlinear_arith)
        requires
            n == m * b,
            c == b * t,
    ;
    nearest_scales(m * p, 1, c);
    pattern_of_units(dyadic(q * b, i));
}

/// A dyadic divided by a power of two.
pub proof fn dyadics_shift(a: nat, i: nat, k: nat)
    requires
        short(a as int),
        short(pow2(k) as int),
        i + k <= 1000,
    ensures
        quotient(dyadic(a as int, i), whole(pow2(k))) == dyadic(a as int, i + k),
{
    let b = pow2(k);
    lemma_pow2_pos(k);
    dyadics_are_exact(a as int, i);
    dyadics_are_exact(b as int, 0);
    wholes_are_dyadics(b as int);
    let (p, t, r) = (pow2((1074 - i) as nat), pow2(1074), pow2((1074 - i - k) as nat));
    lemma_pow2_pos(1074);
    lemma_pow2_adds((1074 - i - k) as nat, k);
    let c = b * t;
    assert(c > 0) by (nonlinear_arith)
        requires
            b > 0,
            t > 0,
            c == b * t,
    ;
    pattern_of_units(whole(b));
    pattern_of_units(dyadic(a as int, i));
    assert((a * p) * t == (a * r) * c) by (nonlinear_arith)
        requires
            p == r * b,
            c == b * t,
    ;
    nearest_scales(a * r, 1, c);
}

/// A half of a dyadic.
pub proof fn dyadics_halve(a: nat, i: nat)
    requires
        2 * a < 0x20_0000_0000_0000,
        i <= 999,
    ensures
        quotient(dyadic(a as int, i), whole(2)) == dyadic(a as int, i + 1),
{
    lemma2_to64();
    finer_parts(a as int, i, 1);
    assert(a * pow2(1) == a * 2);
    dyadics_divide(a as int, i + 1, 2);
}

/// A quotient of whole numbers lies between the dyadics that the exact one
/// lies between.
pub proof fn quotients_are_bracketed(a: nat, b: nat, m: nat, j: nat)
    requires
        short(a as int),
        0 < b,
        short(b as int),
        short(m as int),
        j <= 1000,
    ensures
        m * b <= a * pow2(j) ==> dyadic(m as int, j).at_most(quotient(whole(a), whole(b))),
        a * pow2(j) <= m * b ==> quotient(whole(a), whole(b)).at_most(dyadic(m as int, j)),
        !quotient(whole(a), whole(b)).nan(),
        !quotient(whole(a), whole(b)).negative(),
        quotient(whole(a), whole(b)).finite(),
{
    wholes_are_dyadics(a as int);
    wholes_are_dyadics(b as int);
    dyadics_are_exact(a as int, 0);
    dyadics_are_exact(b as int, 0);
    dyadics_are_exact(m as int, j);
    let (t, r, p) = (pow2(1074), pow2((1074 - j) as nat), pow2(j));
    lemma_pow2_pos(1074);
    lemma_pow2_adds(j, (1074 - j) as nat);
    let c = b * t;
    assert(c > 0) by (nonlinear_arith)
        requires
            c == b * t,
            b > 0,
            t > 0,
    ;
    pattern_of_units(whole(b));
    let q = quotient(whole(a), whole(b));
    assert(q.bits == nearest_size((a * t) * t, c));
    figures_round_to_themselves(dyadic(m as int, j));
    if m * b <= a * p {
        assert((m * r) * c <= ((a * t) * t) * 1) by (nonlinear_arith)
            requires
                m * b <= a * p,
                c == b * t,
                t == p * r,
                t > 0,
                r >= 0,
        {
            assert((m * r) * (b * t) == (m * b) * (r * t));
            assert((a * t) * t == (a * p) * (r * t)) by {
                assert((a * (p * r)) * t == (a * p) * (r * t));
            }
            assert(r * t >= 0);
            assert((m * b) * (r * t) <= (a * p) * (r * t));
        }
        rounding_keeps_order(m * r, 1, (a * t) * t, c);
    }
    if a * p <= m * b {
        assert(((a * t) * t) * 1 <= (m * r) * c) by (nonlinear_arith)
            requires
                a * p <= m * b,
                c == b * t,
                t == p * r,
                t > 0,
                r >= 0,
        {
            assert((m * r) * (b * t) == (m * b) * (r * t));
            assert((a * t) * t == (a * p) * (r * t)) by {
                assert((a * (p * r)) * t == (a * p) * (r * t));
            }
            assert(r * t >= 0);
            assert((a * p) * (r * t) <= (m * b) * (r * t));
        }
        rounding_keeps_order((a * t) * t, c, m * r, 1);
    }
    assert(((a * t) * t) * 1 <= (a * t) * c) by (nonlinear_arith)
        requires
            c == b * t,
            b >= 1,
            t >= 0,
            a >= 0,
    {
        assert(t <= c);
        assert(a * t >= 0);
    }
    rounding_keeps_order((a * t) * t, c, a * t, 1);
}

/// The whole part of `n / d`, its fraction left out.
pub open spec fn cut_off(n: int, d: nat) -> int {
    if n < 0 {
        -((-n) / d as int)
    } else {
        n / d as int
    }
}

/// A number held to a range.
pub open spec fn held_in(n: int, low: int, high: int) -> int {
    if n < low {
        low
    } else if n > high {
        high
    } else {
        n
    }
}

/// The whole part of a dyadic.
pub proof fn dyadics_are_cut(n: int, j: nat, low: int, high: int)
    requires
        short(n),
        j <= 1000,
    ensures
        cut_to_range(dyadic(n, j), low, high) == held_in(cut_off(n, pow2(j)), low, high),
{
    dyadics_are_exact(n, j);
    let (p, r) = (pow2(j), pow2((1074 - j) as nat));
    lemma_pow2_pos(j);
    lemma_pow2_pos((1074 - j) as nat);
    lemma_pow2_adds(j, (1074 - j) as nat);
    let m = size(n);
    lemma_div_multiples_vanish_quotient(r as int, m as int, p as int);
    assert(m * r == r * m && p * r == r * p) by (nonlinear_arith);
}

/// A whole number is its own whole part.
pub proof fn wholes_are_cut(n: int, low: int, high: int)
    requires
        short(n),
    ensures
        cut_to_range(signed_whole(n), low, high) == held_in(n, low, high),
{
    lemma2_to64();
    dyadics_are_cut(n, 0, low, high);
}

/// How many parts of one size a number of another is does not hang on the size
/// of the parts.
pub proof fn parts_divide(a: nat, b: nat, j: nat)
    requires
        short(a as int),
        short(b as int),
        0 < b,
        j <= 1000,
    ensures
        quotient(dyadic(a as int, j), dyadic(b as int, j)) == quotient(whole(a), whole(b)),
{
    wholes_are_dyadics(a as int);
    wholes_are_dyadics(b as int);
    dyadics_are_exact(a as int, 0);
    dyadics_are_exact(b as int, 0);
    dyadics_are_exact(a as int, j);
    dyadics_are_exact(b as int, j);
    let (t, r) = (pow2(1074), pow2((1074 - j) as nat));
    lemma_pow2_pos(1074);
    lemma_pow2_pos((1074 - j) as nat);
    assert((a * r) * t == (a * t) * r && (a * t) * t == (a * t) * t) by (nonlinear_arith);
    nearest_scales(a * t, b, r);
    nearest_scales(a * t, b, t);
    pattern_of_units(whole(a));
    pattern_of_units(whole(b));
    pattern_of_units(dyadic(a as int, j));
    pattern_of_units(dyadic(b as int, j));
    assert(b * t > 0 && b * r > 0) by (nonlinear_arith)
        requires
            b > 0,
            t > 0,
            r > 0,
    ;
    assert(a == 0 <==> a * t == 0) by (nonlinear_arith)
        requires
            t > 0,
    ;
    assert(a == 0 <==> a * r == 0) by (nonlinear_arith)
        requires
            r > 0,
    ;
}

/// A product of figures that are not negative lies between the dyadics that the
/// exact one lies between.
pub proof fn products_are_bracketed(a: Figure, b: Figure, n: nat, j: nat)
    requires
        a.finite(),
        b.finite(),
        !a.negative(),
        !b.negative(),
        short(n as int),
        j <= 1000,
    ensures
        n * pow2((2148 - j) as nat) <= a.units() * b.units() ==> dyadic(n as int, j).at_most(
            product(a, b),
        ),
        a.units() * b.units() <= n * pow2((2148 - j) as nat) ==> product(a, b).at_most(
            dyadic(n as int, j),
        ),
{
    dyadics_are_exact(n as int, j);
    figures_round_to_themselves(dyadic(n as int, j));
    let (t, r) = (pow2(1074), pow2((1074 - j) as nat));
    lemma_pow2_pos(1074);
    lemma_pow2_adds((1074 - j) as nat, 1074);
    assert((n * r) * t == n * (r * t)) by (nonlinear_arith);
    let exact = a.units() * b.units();
    if (n * r) * t <= exact * 1 {
        rounding_keeps_order(n * r, 1, exact, t);
    }
    if exact * 1 <= (n * r) * t {
        rounding_keeps_order(exact, t, n * r, 1);
    }
    rounding_keeps_order(exact, t, exact, t);
}

/// Products keep the order of figures that are not negative.
pub proof fn products_keep_order(a: Figure, b: Figure, c: Figure)
    requires
        a.finite(),
        b.finite(),
        c.finite(),
        !a.negative(),
        !b.negative(),
        !c.negative(),
        a.at_most(b),
    ensures
        product(a, c).at_most(product(b, c)),
{
    patterns_order_as_values(a, b);
    let t = pow2(1074);
    lemma_pow2_pos(1074);
    let (x, y, z) = (a.units(), b.units(), c.units());
    assert((x * z) * t <= (y * z) * t) by (nonlinear_arith)
        requires
            x <= y,
            z >= 0,
            t >= 0,
    ;
    rounding_keeps_order(x * z, t, y * z, t);
    rounding_keeps_order(y * z, t, y * z, t);
}

/// Rounding to whole numbers keeps the order of figures that are not negative.
pub proof fn whole_rounding_keeps_order(a: Figure, b: Figure)
    requires
        !a.negative(),
        !b.negative(),
        a.at_most(b),
    ensures
        rounded_figure(a).at_most(rounded_figure(b)),
        !rounded_figure(a).negative(),
        !rounded_figure(b).negative(),
{
    let t = pow2(1074);
    lemma_pow2_pos(1074);
    if a.finite() && b.finite() {
        patterns_order_as_values(a, b);
        let (m, n) = (a.nearest_whole(), b.nearest_whole());
        lemma_div_is_ordered((2 * a.units() + t) as int, (2 * b.units() + t) as int, (2 * t) as int);
        assert((m * t) * 1 <= (n * t) * 1) by (nonlinear_arith)
            requires
                m <= n,
                t > 0,
        ;
        rounding_keeps_order(m * t, 1, n * t, 1);
    } else if a.finite() {
        let m = a.nearest_whole();
        rounding_keeps_order(m * t, 1, m * t, 1);
    }
}

/// A dyadic that is not negative, rounded to the nearest whole number, a half
/// up.
pub proof fn dyadics_round(n: nat, j: nat)
    requires
        short(n as int),
        j <= 1000,
    ensures
        rounded_figure(dyadic(n as int, j)) == whole(
            ((2 * n + pow2(j)) / (2 * pow2(j))) as nat,
        ),
{
    dyadics_are_exact(n as int, j);
    let (p, r) = (pow2(j), pow2((1074 - j) as nat));
    lemma_pow2_pos(j);
    lemma_pow2_pos((1074 - j) as nat);
    lemma_pow2_adds(j, (1074 - j) as nat);
    lemma_div_multiples_vanish_quotient(r as int, (2 * n + p) as int, (2 * p) as int);
    assert(2 * (n * r) + p * r == r * (2 * n + p) && 2 * (p * r) == r * (2 * p))
        by (nonlinear_arith);
}

/// The sum of some numbers.
pub open spec fn added(list: Seq<nat>) -> nat
    decreases list.len(),
{
    if list.len() == 0 {
        0
    } else {
        added(list.drop_last()) + list.last()
    }
}

/// Figures that are some numbers of parts.
pub open spec fn are_dyadics(figures: Seq<Figure>, numbers: Seq<nat>, j: nat) -> bool {
    figures.len() == numbers.len() && forall|i: int|
        0 <= i < figures.len() ==> #[trigger] figures[i] == dyadic(numbers[i] as int, j)
}

/// The total of such figures is their numbers' sum.
pub proof fn dyadics_total(figures: Seq<Figure>, numbers: Seq<nat>, j: nat)
    requires
        are_dyadics(figures, numbers, j),
        short(added(numbers) as int),
        j <= 1000,
    ensures
        total(figures) == dyadic(added(numbers) as int, j),
    decreases figures.len(),
{
    if figures.len() == 0 {
        dyadics_are_exact(0, j);
    } else {
        let (less, fewer) = (figures.drop_last(), numbers.drop_last());
        assert forall|i: int| 0 <= i < less.len() implies #[trigger] less[i] == dyadic(
            fewer[i] as int,
            j,
        ) by {
            assert(less[i] == figures[i]);
        }
        dyadics_total(less, fewer, j);
        assert(figures[figures.len() - 1] == dyadic(numbers.last() as int, j));
        dyadics_add(added(fewer) as int, numbers.last() as int, j);
    }
}

/// As many times a number as a list is long.
pub proof fn added_alike(list: Seq<nat>, c: nat)
    requires
        forall|i: int| 0 <= i < list.len() ==> #[trigger] list[i] == c,
    ensures
        added(list) == c * list.len(),
    decreases list.len(),
{
    if list.len() > 0 {
        assert forall|i: int| 0 <= i < list.drop_last().len() implies #[trigger] list.drop_last()[i]
            == c by {
            assert(list.drop_last()[i] == list[i]);
        }
        added_alike(list.drop_last(), c);
        assert(list[list.len() - 1] == c);
        assert(c * (list.len() - 1) + c == c * list.len()) by (nonlinear_arith);
    } else {
        assert(c * 0 == 0) by (nonlinear_arith);
    }
}

/// Figures that are not negative and do not pass each other are the same.
pub proof fn same_from_both_sides(a: Figure, b: Figure)
    requires
        !a.negative(),
        !b.negative(),
        a.at_most(b),
        b.at_most(a),
    ensures
        a == b,
{
}

/// A quotient of parts by a whole number lies between the dyadics that the
/// exact one lies between.
pub proof fn parts_are_bracketed(a: nat, i: nat, b: nat, m: nat, j: nat)
    requires
        short(a as int),
        0 < b,
        short(b as int),
        b * pow2(i) < 0x20_0000_0000_0000,
        short(m as int),
        i <= 1000,
        j <= 1000,
    ensures
        ({
            let q = quotient(dyadic(a as int, i), whole(b));
            &&& m * (b * pow2(i)) <= a * pow2(j) ==> dyadic(m as int, j).at_most(q)
            &&& a * pow2(j) <= m * (b * pow2(i)) ==> q.at_most(dyadic(m as int, j))
            &&& a * pow2(j) == m * (b * pow2(i)) ==> q == dyadic(m as int, j)
            &&& q.finite()
            &&& !q.negative()
        }),
{
    let c = b * pow2(i);
    lemma_pow2_pos(i);
    assert(c > 0) by (nonlinear_arith)
        requires
            c == b * pow2(i),
            b > 0,
            pow2(i) > 0,
    ;
    finer_parts(b as int, 0, i);
    parts_divide(a, c, i);
    quotients_are_bracketed(a, c, m, j);
    dyadics_are_exact(m as int, j);
    let q = quotient(dyadic(a as int, i), whole(b));
    if a * pow2(j) == m * c {
        same_from_both_sides(q, dyadic(m as int, j));
    }
}

/// The mean of such figures lies between any two numbers of parts that the
/// exact mean lies between, and is exact where that is such a number.
pub proof fn means_are_bracketed(figures: Seq<Figure>, numbers: Seq<nat>, i: nat, m: nat, j: nat)
    requires
        are_dyadics(figures, numbers, i),
        0 < figures.len(),
        short(figures.len() as int),
        figures.len() * pow2(i) < 0x20_0000_0000_0000,
        short(added(numbers) as int),
        short(m as int),
        i <= 1000,
        j <= 1000,
    ensures
        ({
            let mean = quotient(total(figures), whole(figures.len()));
            let parts = figures.len() * pow2(i);
            &&& m * parts <= added(numbers) * pow2(j) ==> dyadic(m as int, j).at_most(mean)
            &&& added(numbers) * pow2(j) <= m * parts ==> mean.at_most(dyadic(m as int, j))
            &&& added(numbers) * pow2(j) == m * parts ==> mean == dyadic(m as int, j)
        }),
{
    dyadics_total(figures, numbers, i);
    parts_are_bracketed(added(numbers), i, figures.len(), m, j);
}

/// The pattern of a small whole number.
pub proof fn pattern_of_whole(bits: u64, n: nat, place: nat)
    requires
        bits < 0x7FF0_0000_0000_0000,
        bits >= 0x10_0000_0000_0000,
        bits / 0x10_0000_0000_0000 == 1023 + 52 - place,
        place <= 52,
        bits % 0x10_0000_0000_0000 + 0x10_0000_0000_0000 == n * pow2(place),
    ensures
        (Figure { bits }) == whole(n),
{
    let f = Figure { bits };
    let x = (1074 - place) as nat;
    lemma_pow2_adds(place, x);
    let (p, t) = (pow2(place), pow2(x));
    assert((n * p) * t == n * (p * t)) by (nonlinear_arith);
    assert(f.exponent() + 1074 == x);
    values_tell_dyadics(f, n, 0);
}

/// Figures that are no numbers stay none, and those beyond all numbers stay
/// there; a number divided by nothing is beyond all numbers, and nothing divided
/// by nothing is none.
pub proof fn figures_beyond_numbers(f: Figure, n: int, low: int, high: int)
    requires
        short(n),
    ensures
        f.nan() ==> sum(f, dyadic(n, 0)).nan() && product(f, dyadic(n, 0)).nan() && quotient(
            f,
            dyadic(n, 0),
        ).nan() && cut_to_range(f, low, high) == 0,
        f.infinite() ==> sum(f, dyadic(n, 0)) == f && difference(f, dyadic(n, 0)) == f,
        f.infinite() && !f.negative() ==> cut_to_range(f, low, high) == high,
        f.infinite() && f.negative() ==> cut_to_range(f, low, high) == low,
        n > 0 ==> quotient(dyadic(n, 0), whole(0)).infinite() && !quotient(
            dyadic(n, 0),
            whole(0),
        ).negative(),
        quotient(whole(0), whole(0)).nan(),
{
    dyadics_are_exact(n, 0);
    dyadics_are_exact(0, 0);
    wholes_are_dyadics(0);
    opposites(dyadic(n, 0));
    lemma_pow2_pos(1074);
    pattern_of_units(dyadic(n, 0));
    sized(n, pow2(1074));
}

proof fn sizes_multiply(a: int, b: int)
    requires
        a != 0,
        b != 0,
    ensures
        size(a * b) == size(a) * size(b),
        a * b < 0 <==> (a < 0) != (b < 0),
{
    assert((-a) * b == -(a * b) && a * (-b) == -(a * b) && (-a) * (-b) == a * b)
        by (nonlinear_arith);
    assert(a * b > 0 <==> (a > 0) == (b > 0)) by (nonlinear_arith)
        requires
            a != 0,
            b != 0,
    ;
    assert(a * b != 0) by (nonlinear_arith)
        requires
            a != 0,
            b != 0,
    ;
}

/// Products of dyadics that are not zero, of either sign.
pub proof fn signed_dyadics_multiply(a: int, i: nat, b: int, j: nat)
    requires
        short(a),
        short(b),
        a != 0,
        b != 0,
        i + j <= 1000,
    ensures
        product(dyadic(a, i), dyadic(b, j)) == dyadic(a * b, i + j),
{
    dyadics_are_exact(a, i);
    dyadics_are_exact(b, j);
    dyadics_are_exact(size(a) as int, i);
    dyadics_are_exact(size(b) as int, j);
    sizes_multiply(a, b);
    dyadics_multiply(size(a), i, size(b), j);
    let bits = nearest_size(dyadic(a, i).units() * dyadic(b, j).units(), pow2(1074));
    let other = nearest_size(size(a * b) * pow2((1074 - i - j) as nat), 1);
    assert(with_sign(false, bits) == with_sign(false, other));
    assert(bits == other);
}

/// A dyadic of either sign divided into equal parts, of either sign.
pub proof fn signed_dyadics_divide(q: int, i: nat, b: int)
    requires
        q != 0,
        b != 0,
        short(q * b),
        short(b),
        i <= 1000,
    ensures
        quotient(dyadic(q * b, i), signed_whole(b)) == dyadic(q, i),
{
    sizes_multiply(q, b);
    dyadics_are_exact(q * b, i);
    dyadics_are_exact(b, 0);
    dyadics_are_exact(size(q * b) as int, i);
    dyadics_are_exact(size(b) as int, 0);
    assert(size(size(b) as int) == size(b));
    assert(size(q) as int * size(b) as int == size(q * b));
    dyadics_divide(size(q) as int, i, size(b));
    pattern_of_units(dyadic(q * b, i));
    pattern_of_units(signed_whole(b));
    pattern_of_units(dyadic(size(q * b) as int, i));
    pattern_of_units(whole(size(b)));
    let t = pow2(1074);
    lemma_pow2_pos(1074);
    sized(b, t);
    let bits = nearest_size(dyadic(q * b, i).units() * t, signed_whole(b).units());
    let other = nearest_size(size(q) * pow2((1074 - i) as nat), 1);
    assert(with_sign(false, bits) == with_sign(false, other));
    assert(bits == other);
}

/// What is below zero is rounded as what is above it, away from zero.
pub proof fn rounding_goes_both_ways(n: nat, j: nat)
    requires
        0 < n,
        short(n as int),
        j <= 1000,
    ensures
        rounded_figure(dyadic(-(n as int), j)) == opposite(rounded_figure(dyadic(n as int, j))),
{
    dyadics_are_exact(n as int, j);
    dyadics_are_exact(-(n as int), j);
    let f = dyadic(n as int, j);
    let k = f.nearest_whole();
    rounding_keeps_order(k * pow2(1074), 1, k * pow2(1074), 1);
}

} // verus!
