//! What rounding keeps: results stay in the order of the exact values, and
//! what fits is not rounded at all.

use vstd::arithmetic::div_mod::lemma_fundamental_div_mod;
use vstd::arithmetic::power2::{lemma2_to64, lemma2_to64_rest, lemma_pow2_adds, lemma_pow2_pos, lemma_pow2_strictly_increases, lemma_pow2_unfold, pow2};
use vstd::prelude::*;

use crate::arithmetic::{cut_to_range, half_even_exact, nearest_size, pattern_of_units, product, quotient, shift_for, shift_is, signed_whole, sum, whole};
use crate::decimal::half_even;
use crate::figure::{figure_of, Figure, ONE_BITS, ZERO_BITS};

verus! {

proof fn half_even_keeps_order(n1: nat, d1: nat, n2: nat, d2: nat)
    requires
        d1 > 0,
        d2 > 0,
        n1 * d2 <= n2 * d1,
    ensures
        half_even(n1, d1) <= half_even(n2, d2),
{
    let (q1, r1, q2, r2) = (n1 / d1, n1 % d1, n2 / d2, n2 % d2);
    lemma_fundamental_div_mod(n1 as int, d1 as int);
    lemma_fundamental_div_mod(n2 as int, d2 as int);
    assert(q1 <= q2) by (nonlinear_arith)
        requires
            n1 == d1 * q1 + r1,
            n2 == d2 * q2 + r2,
            0 <= r1,
            0 <= r2 < d2,
            d1 > 0,
            n1 * d2 <= n2 * d1,
            0 <= q2,
            0 <= q1,
    {
        if q1 >= q2 + 1 {
            assert(d1 * q1 >= d1 * (q2 + 1));
            assert(n1 * d2 >= (d1 * (q2 + 1)) * d2);
            assert(n2 * d1 < (d2 * (q2 + 1)) * d1);
            assert((d1 * (q2 + 1)) * d2 == (d2 * (q2 + 1)) * d1);
        }
    }
    if q1 == q2 {
        assert(r1 * d2 <= r2 * d1) by (nonlinear_arith)
            requires
                n1 == d1 * q1 + r1,
                n2 == d2 * q2 + r2,
                q1 == q2,
                n1 * d2 <= n2 * d1,
        {
            assert((d1 * q1 + r1) * d2 == (d1 * q1) * d2 + r1 * d2);
            assert((d2 * q1 + r2) * d1 == (d2 * q1) * d1 + r2 * d1);
            assert((d1 * q1) * d2 == (d2 * q1) * d1);
        }
        if 2 * r1 >= d1 {
            assert(2 * r2 >= d2) by (nonlinear_arith)
                requires
                    r1 * d2 <= r2 * d1,
                    2 * r1 >= d1,
                    d1 > 0,
                    d2 > 0,
            {
                if 2 * r2 < d2 {
                    assert((2 * r2) * d1 < d2 * d1);
                    assert((2 * r1) * d2 >= d1 * d2);
                }
            }
        }
        if 2 * r1 > d1 {
            assert(2 * r2 > d2) by (nonlinear_arith)
                requires
                    r1 * d2 <= r2 * d1,
                    2 * r1 > d1,
                    d1 > 0,
                    d2 > 0,
            {
                if 2 * r2 <= d2 {
                    assert((2 * r2) * d1 <= d2 * d1);
                    assert((2 * r1) * d2 > d1 * d2);
                }
            }
        }
    }
}

proof fn shift_keeps_order(n1: nat, n2: nat)
    requires
        n1 <= n2,
    ensures
        shift_for(n1) <= shift_for(n2),
    decreases n2,
{
    if n1 >= 0x20_0000_0000_0000 {
        shift_keeps_order(n1 / 2, n2 / 2);
    }
}

pub(crate) proof fn shift_bounds(n: nat)
    ensures
        n < pow2(53 + shift_for(n)),
        shift_for(n) > 0 ==> n >= pow2(52 + shift_for(n)),
    decreases n,
{
    lemma2_to64_rest();
    if n >= 0x20_0000_0000_0000 {
        let s = shift_for(n / 2);
        shift_bounds(n / 2);
        lemma_pow2_unfold(54 + s);
        lemma_pow2_unfold(53 + s);
    }
}

pub(crate) proof fn half_even_bounds(n: nat, d: nat, c: nat)
    requires
        d > 0,
    ensures
        n < c * d ==> half_even(n, d) <= c,
        n >= c * d ==> half_even(n, d) >= c,
{
    let q = n / d;
    lemma_fundamental_div_mod(n as int, d as int);
    if n < c * d {
        assert(q < c) by (nonlinear_arith)
            requires
                n == d * q + n % d,
                n % d >= 0,
                n < c * d,
                d > 0,
        ;
    } else {
        assert(q >= c) by (nonlinear_arith)
            requires
                n == d * q + n % d,
                n % d < d,
                n >= c * d,
                d > 0,
        ;
    }
}

/// A larger value never rounds to a smaller figure: where `p1 / q1` is at most
/// `p2 / q2`, so are the figures nearest to them.
pub proof fn rounding_keeps_order(p1: nat, q1: nat, p2: nat, q2: nat)
    requires
        q1 > 0,
        q2 > 0,
        p1 * q2 <= p2 * q1,
    ensures
        nearest_size(p1, q1) <= nearest_size(p2, q2),
{
    let (n1, n2) = (p1 / q1, p2 / q2);
    let (s1, s2) = (shift_for(n1), shift_for(n2));
    lemma_fundamental_div_mod(p1 as int, q1 as int);
    lemma_fundamental_div_mod(p2 as int, q2 as int);
    assert(n1 <= n2) by (nonlinear_arith)
        requires
            p1 == q1 * n1 + p1 % q1,
            p2 == q2 * n2 + p2 % q2,
            0 <= p1 % q1,
            0 <= p2 % q2 < q2,
            q1 > 0,
            p1 * q2 <= p2 * q1,
            0 <= n1,
            0 <= n2,
    {
        if n1 >= n2 + 1 {
            assert(q1 * n1 >= q1 * (n2 + 1));
            assert(p1 * q2 >= (q1 * (n2 + 1)) * q2);
            assert(p2 * q1 < (q2 * (n2 + 1)) * q1);
            assert((q1 * (n2 + 1)) * q2 == (q2 * (n2 + 1)) * q1);
        }
    }
    shift_keeps_order(n1, n2);
    let (e1, e2) = (pow2(s1), pow2(s2));
    lemma_pow2_pos(s1);
    lemma_pow2_pos(s2);
    let (d1, d2) = (q1 * e1, q2 * e2);
    assert(d1 > 0) by (nonlinear_arith)
        requires
            d1 == q1 * e1,
            q1 > 0,
            e1 > 0,
    ;
    assert(d2 > 0) by (nonlinear_arith)
        requires
            d2 == q2 * e2,
            q2 > 0,
            e2 > 0,
    ;
    if s1 == s2 {
        assert(p1 * d2 <= p2 * d1) by (nonlinear_arith)
            requires
                d1 == q1 * e1,
                d2 == q2 * e1,
                p1 * q2 <= p2 * q1,
                e1 > 0,
        {
            assert(p1 * (q2 * e1) == (p1 * q2) * e1);
            assert(p2 * (q1 * e1) == (p2 * q1) * e1);
        }
        half_even_keeps_order(p1, d1, p2, d2);
    } else {
        shift_bounds(n1);
        shift_bounds(n2);
        lemma2_to64_rest();
        lemma_pow2_adds(53, s1);
        lemma_pow2_adds(52, s2);
        let (top, low) = (0x20_0000_0000_0000nat, 0x10_0000_0000_0000nat);
        assert(p1 < top * d1) by (nonlinear_arith)
            requires
                p1 == q1 * n1 + p1 % q1,
                p1 % q1 < q1,
                n1 < top * e1,
                d1 == q1 * e1,
                q1 > 0,
        {
            assert(q1 * n1 <= q1 * (top * e1 - 1));
            assert(q1 * (top * e1 - 1) == top * (q1 * e1) - q1);
        }
        assert(p2 >= low * d2) by (nonlinear_arith)
            requires
                p2 == q2 * n2 + p2 % q2,
                p2 % q2 >= 0,
                n2 >= low * e2,
                d2 == q2 * e2,
                q2 > 0,
        {
            assert(q2 * n2 >= q2 * (low * e2));
            assert(q2 * (low * e2) == low * (q2 * e2));
        }
        half_even_bounds(p1, d1, top);
        half_even_bounds(p2, d2, low);
    }
}

/// A figure is the one nearest to itself.
pub proof fn figures_round_to_themselves(f: Figure)
    requires
        f.finite(),
    ensures
        nearest_size(f.units(), 1) == f.magnitude(),
{
    let m = f.mantissa();
    let x = (f.exponent() + 1074) as nat;
    let e = pow2(x);
    pattern_of_units(f);
    lemma_pow2_pos(x);
    lemma2_to64_rest();
    lemma_pow2_adds(53, x);
    lemma_pow2_adds(52, x);
    assert(m * e < 0x20_0000_0000_0000 * e) by (nonlinear_arith)
        requires
            m < 0x20_0000_0000_0000,
            e > 0,
    ;
    if x > 0 {
        assert(m * e >= 0x10_0000_0000_0000 * e) by (nonlinear_arith)
            requires
                m >= 0x10_0000_0000_0000,
                e > 0,
        ;
    }
    shift_is(m * e, x);
    half_even_exact(m, e);
}

/// Finite figures order by their patterns as by their values.
pub proof fn patterns_order_as_values(a: Figure, b: Figure)
    requires
        a.finite(),
        b.finite(),
    ensures
        a.magnitude() <= b.magnitude() <==> a.units() <= b.units(),
{
    figures_round_to_themselves(a);
    figures_round_to_themselves(b);
    if a.units() <= b.units() {
        rounding_keeps_order(a.units(), 1, b.units(), 1);
    } else {
        rounding_keeps_order(b.units(), 1, a.units(), 1);
        if a.magnitude() == b.magnitude() {
            assert(a.units() == b.units());
        }
    }
}

/// The order of two figures does not matter to their sum or product.
pub proof fn sums_and_products_commute(a: Figure, b: Figure)
    ensures
        sum(a, b) == sum(b, a),
        product(a, b) == product(b, a),
{
    assert(a.units() * b.units() == b.units() * a.units()) by (nonlinear_arith);
}

/// Adding what is not negative never lowers a figure.
pub proof fn adding_never_lowers(a: Figure, b: Figure)
    requires
        a.finite(),
        b.finite(),
        !a.negative(),
        !b.negative(),
    ensures
        a.at_most(sum(a, b)),
{
    figures_round_to_themselves(a);
    rounding_keeps_order(a.units(), 1, a.units() + b.units(), 1);
    pattern_of_units(a);
}

proof fn landmarks()
    ensures
        nearest_size(pow2(1074), 1) == ONE_BITS,
        figure_of(ONE_BITS).units() == pow2(1074),
        nearest_size(0x1_0000_0000_0000_0000 * pow2(1074), 1) == 0x43F0_0000_0000_0000,
{
    lemma2_to64();
    lemma2_to64_rest();
    lemma_pow2_adds(52, 1022);
    figures_round_to_themselves(figure_of(ONE_BITS));
    lemma_pow2_adds(52, 1086);
    lemma_pow2_adds(64, 1074);
    figures_round_to_themselves(figure_of(0x43F0_0000_0000_0000));
}

/// Whole numbers become figures in their order; none of those that are counted
/// here is too large for one.
pub proof fn whole_numbers_keep_their_order(m: nat, n: nat)
    requires
        m <= n <= u64::MAX,
    ensures
        whole(m).finite(),
        whole(n).finite(),
        whole(m).at_most(whole(n)),
        0 < m ==> figure_of(ONE_BITS).at_most(whole(m)),
{
    let t = pow2(1074);
    lemma_pow2_pos(1074);
    landmarks();
    assert(m * t <= n * t && n * t <= 0x1_0000_0000_0000_0000 * t) by (nonlinear_arith)
        requires
            m <= n <= 0x1_0000_0000_0000_0000,
            t > 0,
    ;
    rounding_keeps_order(m * t, 1, n * t, 1);
    rounding_keeps_order(n * t, 1, 0x1_0000_0000_0000_0000 * t, 1);
    if m > 0 {
        assert(t <= m * t) by (nonlinear_arith)
            requires
                m > 0,
                t > 0,
        ;
        rounding_keeps_order(t, 1, m * t, 1);
    }
}

/// A part of a whole is a share from 0 to 1.
pub proof fn parts_are_shares(part: nat, all: nat)
    requires
        part <= all <= u64::MAX,
        0 < all,
    ensures
        figure_of(ZERO_BITS).at_most(quotient(whole(part), whole(all))),
        quotient(whole(part), whole(all)).at_most(figure_of(ONE_BITS)),
        !quotient(whole(part), whole(all)).negative(),
{
    let t = pow2(1074);
    let (a, b) = (whole(part), whole(all));
    lemma_pow2_pos(1074);
    landmarks();
    whole_numbers_keep_their_order(part, all);
    whole_numbers_keep_their_order(all, all);
    patterns_order_as_values(a, b);
    pattern_of_units(b);
    assert((a.units() * t) * 1 <= t * b.units()) by (nonlinear_arith)
        requires
            a.units() <= b.units(),
            t > 0,
    ;
    rounding_keeps_order(a.units() * t, b.units(), t, 1);
}

/// A share from 0 to 1 of what is not negative is at most all of it.
pub proof fn shares_are_at_most_the_whole(share: Figure, all: Figure)
    requires
        !share.negative(),
        share.at_most(figure_of(ONE_BITS)),
        !all.negative(),
        all.finite(),
    ensures
        figure_of(ZERO_BITS).at_most(product(share, all)),
        product(share, all).at_most(all),
{
    let t = pow2(1074);
    lemma_pow2_pos(1074);
    landmarks();
    patterns_order_as_values(share, figure_of(ONE_BITS));
    assert((share.units() * all.units()) * 1 <= all.units() * t) by (nonlinear_arith)
        requires
            share.units() <= t,
    ;
    rounding_keeps_order(share.units() * all.units(), t, all.units(), 1);
    figures_round_to_themselves(all);
}

/// Whole numbers of up to fifty-three bits become figures without rounding.
pub proof fn small_whole_numbers_are_exact(n: nat)
    requires
        n < 0x20_0000_0000_0000,
    ensures
        whole(n).finite(),
        !whole(n).negative(),
        whole(n).units() == n * pow2(1074),
{
    let t = pow2(1074);
    let value = n * t;
    let s = shift_for(value);
    whole_numbers_keep_their_order(n, n);
    lemma_pow2_pos(1074);
    if n == 0 {
        half_even_exact(0, 1);
        lemma2_to64();
    } else {
        shift_bounds(value);
        lemma2_to64_rest();
        lemma_pow2_adds(53, 1074);
        assert(t <= value < 0x20_0000_0000_0000 * t) by (nonlinear_arith)
            requires
                value == n * t,
                0 < n < 0x20_0000_0000_0000,
                t > 0,
        ;
        if s > 1074 {
            if 52 + s > 1127 {
                lemma_pow2_strictly_increases(1127, 52 + s);
            }
            assert(false);
        }
        if s == 0 {
            lemma_pow2_strictly_increases(53, 1074);
            assert(false);
        }
        let rest = (1074 - s) as nat;
        let k = n * pow2(rest);
        lemma_pow2_adds(rest, s);
        lemma_pow2_adds(53, s);
        lemma_pow2_adds(52, s);
        lemma_pow2_pos(s);
        let e = pow2(s);
        assert(value == k * e) by (nonlinear_arith)
            requires
                value == n * t,
                t == pow2(rest) * e,
                k == n * pow2(rest),
        ;
        half_even_exact(k, e);
        assert(0x10_0000_0000_0000 <= k < 0x20_0000_0000_0000) by (nonlinear_arith)
            requires
                k * e == value,
                0x10_0000_0000_0000 * e <= value < 0x20_0000_0000_0000 * e,
                e > 0,
        ;
        let f = whole(n);
        assert(f.magnitude() == s * 0x10_0000_0000_0000 + k);
        assert(f.exponent_field() == s + 1);
        assert(f.mantissa() == k);
    }
}

/// Whole numbers with a sign become numbers.
pub proof fn small_whole_numbers_are_numbers(n: int)
    requires
        -0x20_0000_0000_0000 < n < 0x20_0000_0000_0000,
    ensures
        signed_whole(n).finite(),
        !signed_whole(n).nan(),
        signed_whole(n).signed_units() == n * pow2(1074),
{
    let t = pow2(1074);
    if n < 0 {
        small_whole_numbers_are_exact((-n) as nat);
        let f = whole((-n) as nat);
        let g = signed_whole(n);
        assert(g.magnitude() == f.magnitude());
        assert(g.units() == f.units());
        assert(-((-n) * t) == n * t) by (nonlinear_arith);
    } else {
        small_whole_numbers_are_exact(n as nat);
    }
}

/// What is at least a whole number is so after its fraction was cut off.
pub proof fn cutting_keeps_above(f: Figure, n: int)
    requires
        i32::MIN <= n <= i32::MAX,
        signed_whole(n).at_most(f),
    ensures
        n <= cut_to_range(f, i32::MIN as int, i32::MAX as int),
{
    let t = pow2(1074);
    let low = signed_whole(n);
    lemma_pow2_pos(1074);
    small_whole_numbers_are_numbers(n);
    if f.finite() {
        patterns_order_as_values(low, f);
        patterns_order_as_values(f, low);
        pattern_of_units(f);
        pattern_of_units(low);
        lemma_fundamental_div_mod(f.units() as int, t as int);
        let q = f.units() / t;
        if f.negative() {
            assert(-(n * t) == (-n) * t) by (nonlinear_arith);
            if n > 0 {
                assert(n * t > 0) by (nonlinear_arith)
                    requires
                        n > 0,
                        t > 0,
                ;
            }
            assert(low.units() == (-n) * t);
            assert(q <= -n) by (nonlinear_arith)
                requires
                    t * q <= (-n) * t,
                    t > 0,
            ;
        } else if n > 0 {
            assert(low.units() == n * t);
            assert(q >= n) by (nonlinear_arith)
                requires
                    n * t <= t * q + f.units() % t,
                    f.units() % t < t,
                    t > 0,
            ;
        }
    }
}

} // verus!
