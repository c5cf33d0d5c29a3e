//! Arithmetic on figures: every result is the exact one rounded to the nearest
//! figure, a tie to the even pattern.

use vstd::arithmetic::div_mod::{lemma_div_multiples_vanish_quotient, lemma_fundamental_div_mod, lemma_fundamental_div_mod_converse, lemma_truncate_middle};
use vstd::arithmetic::power2::{lemma2_to64, lemma2_to64_rest, lemma_pow2_adds, lemma_pow2_pos, lemma_pow2_strictly_increases, lemma_pow2_unfold, pow2};
use vstd::prelude::*;

use crate::decimal::{half_even, rounded};
use crate::figure::{Figure, INFINITY_BITS, SIGN_BIT};

verus! {

/// The pattern that stands for an undefined result.
pub const NAN_BITS: u64 = 0x7FF8_0000_0000_0000;

// ---------------------------------------------------------------------------
// Rounding
// ---------------------------------------------------------------------------

impl Figure {
    /// The size of a finite figure, counted in the smallest figure above zero
    /// (`2^-1074`).
    pub open spec fn units(self) -> nat {
        self.mantissa() * pow2((self.exponent() + 1074) as nat)
    }

    /// The value of a finite figure in those units.
    pub open spec fn signed_units(self) -> int {
        if self.bits >= SIGN_BIT {
            -(self.units() as int)
        } else {
            self.units() as int
        }
    }

    pub open spec fn negative(self) -> bool {
        self.bits >= SIGN_BIT
    }

    pub open spec fn infinite(self) -> bool {
        self.magnitude() == INFINITY_BITS
    }
}

/// How many low bits a whole number has beyond the fifty-three that fit.
pub open spec fn shift_for(n: nat) -> nat
    decreases n,
{
    if n < 0x20_0000_0000_0000 {
        0
    } else {
        1 + shift_for(n / 2)
    }
}

/// The pattern of the figure nearest to `p / q` units. A figure with `s` bits
/// dropped has the pattern `s * 2^52` plus what is left, so a carry out of the
/// mantissa lands in the exponent by itself.
pub open spec fn nearest_size(p: nat, q: nat) -> nat {
    let s = shift_for(p / q);
    let bits = s * 0x10_0000_0000_0000 + half_even(p, q * pow2(s));
    if bits < INFINITY_BITS {
        bits
    } else {
        INFINITY_BITS as nat
    }
}

/// A pattern with a sign.
pub open spec fn with_sign(negative: bool, size: nat) -> Figure {
    Figure {
        bits: if negative {
            (size + SIGN_BIT) as u64
        } else {
            size as u64
        },
    }
}

pub(crate) proof fn shift_is(n: nat, s: nat)
    requires
        n < pow2(53 + s),
        s > 0 ==> n >= pow2((52 + s) as nat),
    ensures
        shift_for(n) == s,
    decreases s,
{
    lemma2_to64_rest();
    if s > 0 {
        lemma_pow2_unfold(53 + s);
        lemma_pow2_unfold((52 + s) as nat);
        if s > 1 {
            lemma_pow2_strictly_increases(53, (52 + s) as nat);
        }
        shift_is(n / 2, (s - 1) as nat);
    }
}

/// A common factor does not change how a quotient rounds.
proof fn half_even_scales(n: nat, d: nat, c: nat)
    requires
        d > 0,
        c > 0,
    ensures
        half_even(n * c, d * c) == half_even(n, d),
{
    lemma_div_multiples_vanish_quotient(c as int, n as int, d as int);
    lemma_truncate_middle(n as int, c as int, d as int);
    assert(n * c == c * n && d * c == c * d) by (nonlinear_arith);
    let r = n % d;
    assert(2 * (c * r) > c * d <==> 2 * r > d) by (nonlinear_arith)
        requires
            c > 0,
    ;
    assert(2 * (c * r) == c * d <==> 2 * r == d) by (nonlinear_arith)
        requires
            c > 0,
    ;
}

pub(crate) proof fn half_even_exact(c: nat, d: nat)
    requires
        d > 0,
    ensures
        half_even(c * d, d) == c,
{
    lemma_fundamental_div_mod_converse((c * d) as int, d as int, c as int, 0);
}

proof fn half_even_of_small(n: nat, d: nat)
    requires
        2 * n < d,
    ensures
        half_even(n, d) == 0,
{
    lemma_fundamental_div_mod_converse(n as int, d as int, 0, n as int);
}

/// Scaling both sides of a quotient keeps the figure nearest to it.
pub(crate) proof fn nearest_scales(p: nat, q: nat, c: nat)
    requires
        q > 0,
        c > 0,
    ensures
        nearest_size(p * c, q * c) == nearest_size(p, q),
{
    lemma_div_multiples_vanish_quotient(c as int, p as int, q as int);
    assert(p * c == c * p && q * c == c * q) by (nonlinear_arith);
    let s = shift_for(p / q);
    lemma_pow2_pos(s);
    assert(q * pow2(s) > 0) by (nonlinear_arith)
        requires
            q > 0,
            pow2(s) > 0,
    ;
    half_even_scales(p, q * pow2(s), c);
    assert((q * pow2(s)) * c == (q * c) * pow2(s)) by (nonlinear_arith);
}

/// The number of bits of a whole number.
fn bit_length(m: u128) -> (len: u64)
    requires
        m < 0x4000_0000_0000_0000_0000_0000_0000_0000,
    ensures
        m < pow2(len as nat),
        m > 0 ==> len > 0 && m >= pow2((len - 1) as nat),
        len <= 126,
{
    let mut rest: u128 = m;
    let mut len: u64 = 0;
    proof {
        lemma2_to64();
        pow2_126();
    }
    while rest > 0
        invariant
            m < 0x4000_0000_0000_0000_0000_0000_0000_0000,
            pow2(126) == 0x4000_0000_0000_0000_0000_0000_0000_0000,
            rest * pow2(len as nat) <= m < (rest + 1) * pow2(len as nat),
            rest == 0 && m > 0 ==> len > 0 && m >= pow2((len - 1) as nat),
            len <= 126,
        decreases rest,
    {
        proof {
            let p = pow2(len as nat);
            lemma_pow2_pos(len as nat);
            lemma_pow2_unfold((len + 1) as nat);
            assert(m >= p) by (nonlinear_arith)
                requires
                    rest >= 1,
                    rest * p <= m,
            ;
            if len >= 126 {
                if len > 126 {
                    lemma_pow2_strictly_increases(126, len as nat);
                }
            }
            let h = rest / 2;
            assert(h * (2 * p) <= m) by (nonlinear_arith)
                requires
                    rest * p <= m,
                    2 * h <= rest,
                    p > 0,
            ;
            assert(m < (h + 1) * (2 * p)) by (nonlinear_arith)
                requires
                    m < (rest + 1) * p,
                    rest <= 2 * h + 1,
                    p > 0,
            ;
        }
        rest = rest / 2;
        len = len + 1;
    }
    assert((rest + 1) * pow2(len as nat) == pow2(len as nat)) by (nonlinear_arith)
        requires
            rest == 0,
    ;
    len
}

proof fn pow2_126()
    ensures
        pow2(126) == 0x4000_0000_0000_0000_0000_0000_0000_0000,
        pow2(127) == 0x8000_0000_0000_0000_0000_0000_0000_0000,
{
    lemma2_to64();
    lemma2_to64_rest();
    lemma_pow2_adds(63, 63);
    lemma_pow2_adds(63, 64);
}

fn two_to(k: u64) -> (res: u128)
    requires
        k < 127,
    ensures
        res == pow2(k as nat),
        res > 0,
        k > 0 ==> res > 1,
        res <= 0x4000_0000_0000_0000_0000_0000_0000_0000,
{
    let mut res: u128 = 1;
    let mut i: u64 = 0;
    proof {
        lemma2_to64();
        pow2_126();
    }
    while i < k
        invariant
            i <= k < 127,
            pow2(126) == 0x4000_0000_0000_0000_0000_0000_0000_0000,
            res == pow2(i as nat),
            res > 0,
            i > 0 ==> res > 1,
            res <= 0x4000_0000_0000_0000_0000_0000_0000_0000,
        decreases k - i,
    {
        proof {
            lemma_pow2_unfold((i + 1) as nat);
            if i + 1 < 126 {
                lemma_pow2_strictly_increases((i + 1) as nat, 126);
            }
        }
        res = res * 2;
        i = i + 1;
    }
    res
}

/// The size `m * 2^x` units as a numerator and a denominator.
spec fn up(x: int) -> nat {
    if x >= 0 {
        pow2(x as nat)
    } else {
        1
    }
}

spec fn down(x: int) -> nat {
    if x >= 0 {
        1
    } else {
        pow2((-x) as nat)
    }
}

proof fn whole_part_bounds(m: nat, len: nat, x: int)
    requires
        m < pow2(len),
        m > 0,
        len > 0,
        m >= pow2((len - 1) as nat),
    ensures
        len + x >= 0 ==> (m * up(x)) / down(x) < pow2((len + x) as nat),
        len + x < 0 ==> (m * up(x)) / down(x) == 0,
        len + x > 0 ==> (m * up(x)) / down(x) >= pow2((len + x - 1) as nat),
{
    if x >= 0 {
        let e = pow2(x as nat);
        lemma_pow2_pos(x as nat);
        lemma_pow2_adds(len, x as nat);
        lemma_pow2_adds((len - 1) as nat, x as nat);
        assert(m * e < pow2(len) * e) by (nonlinear_arith)
            requires
                m < pow2(len),
                e > 0,
        ;
        assert(m * e >= pow2((len - 1) as nat) * e) by (nonlinear_arith)
            requires
                m >= pow2((len - 1) as nat),
                e > 0,
        ;
        assert((m * up(x)) / 1 == m * e);
    } else {
        let d = pow2((-x) as nat);
        lemma_pow2_pos((-x) as nat);
        assert(m * 1 == m);
        lemma_fundamental_div_mod(m as int, d as int);
        let q = m / d;
        let r = m % d;
        if len + x >= 0 {
            let t = pow2((len + x) as nat);
            lemma_pow2_adds((len + x) as nat, (-x) as nat);
            assert(q < t) by (nonlinear_arith)
                requires
                    m == d * q + r,
                    r >= 0,
                    m < t * d,
                    d > 0,
            ;
            if len + x > 0 {
                let b = pow2((len + x - 1) as nat);
                lemma_pow2_adds((len + x - 1) as nat, (-x) as nat);
                assert(q >= b) by (nonlinear_arith)
                    requires
                        m == d * q + r,
                        r < d,
                        m >= b * d,
                        d > 0,
                ;
            }
        } else {
            lemma_pow2_strictly_increases(len, (-x) as nat);
            lemma_fundamental_div_mod_converse(m as int, d as int, 0, m as int);
        }
    }
}

/// The pattern nearest to `m * 2^x` units.
fn pack(m: u128, x: i64) -> (res: u64)
    requires
        m < 0x4000_0000_0000_0000_0000_0000_0000_0000,
        -8000 < x < 8000,
    ensures
        res == nearest_size(m as nat * up(x as int), down(x as int)),
        res <= INFINITY_BITS,
{
    let len: u64 = bit_length(m);
    if m == 0 {
        proof {
            lemma_pow2_pos((-x) as nat);
            lemma2_to64();
            assert(0 * up(x as int) == 0) by (nonlinear_arith);
            lemma_fundamental_div_mod_converse(0, down(x as int) as int, 0, 0);
            assert(shift_for(0) == 0);
            assert(down(x as int) * 1 == down(x as int)) by (nonlinear_arith);
        }
        return 0;
    }
    let top: i64 = len as i64 + x;
    let s: i64 = if top > 53 {
        top - 53
    } else {
        0
    };
    let t: i64 = s - x;
    let ghost n = (m as nat * up(x as int)) / down(x as int);
    proof {
        whole_part_bounds(m as nat, len as nat, x as int);
        lemma2_to64_rest();
        if 0 <= top < 53 {
            lemma_pow2_strictly_increases(top as nat, 53);
        }
        lemma_pow2_pos(53);
        shift_is(n, s as nat);
    }
    let k: u128 = if t <= 0 {
        let f: u128 = two_to((-t) as u64);
        proof {
            lemma_pow2_adds(len as nat, (-t) as nat);
            let p = pow2(len as nat);
            assert(m * f < p * f) by (nonlinear_arith)
                requires
                    m < p,
                    f > 0,
            ;
            if len - t < 53 {
                lemma_pow2_strictly_increases((len - t) as nat, 53);
            }
            assert(m * f <= 0x20_0000_0000_0000);
            lemma_pow2_adds((-t) as nat, s as nat);
            lemma_pow2_pos(s as nat);
            let g = pow2(s as nat);
            assert(m * (f * g) == (m * f) * g) by (nonlinear_arith);
            half_even_exact((m * f) as nat, g);
            assert(1 * g == g);
        }
        m * f
    } else if t >= 127 {
        proof {
            pow2_126();
            if t > 127 {
                lemma_pow2_strictly_increases(127, t as nat);
            }
            half_even_of_small(m as nat, pow2(t as nat));
        }
        0
    } else {
        let d: u128 = two_to(t as u64);
        rounded(m, d)
    };
    proof {
        if t > 0 {
            assert(k == half_even(m as nat, pow2(t as nat)));
            if x >= 0 {
                lemma_pow2_adds(t as nat, x as nat);
                lemma_pow2_pos(x as nat);
                lemma_pow2_pos(t as nat);
                half_even_scales(m as nat, pow2(t as nat), pow2(x as nat));
                assert(1 * pow2(s as nat) == pow2(s as nat));
            } else {
                lemma_pow2_adds((-x) as nat, s as nat);
                assert(m as nat * 1 == m);
            }
        }
        assert(k == half_even(m as nat * up(x as int), down(x as int) * pow2(s as nat)));
    }
    if s >= 2047 {
        return INFINITY_BITS;
    }
    proof {
        if t > 0 && t < 127 {
            keeps_fifty_three(m as nat, len as nat, t as nat);
        }
    }
    let bits: u64 = s as u64 * 0x10_0000_0000_0000 + k as u64;
    if bits < INFINITY_BITS {
        bits
    } else {
        INFINITY_BITS
    }
}

/// What is left of a number after dropping the bits beyond fifty-three.
proof fn keeps_fifty_three(m: nat, len: nat, t: nat)
    requires
        m < pow2(len),
        len <= t + 53,
        t > 0,
    ensures
        half_even(m, pow2(t)) <= 0x20_0000_0000_0000,
{
    lemma_pow2_pos(t);
    lemma2_to64_rest();
    lemma_pow2_adds(53, t);
    if len < t + 53 {
        lemma_pow2_strictly_increases(len, t + 53);
    }
    let d = pow2(t);
    let q = m / d;
    lemma_fundamental_div_mod(m as int, d as int);
    assert(q < 0x20_0000_0000_0000) by (nonlinear_arith)
        requires
            m == d * q + m % d,
            m % d >= 0,
            m < 0x20_0000_0000_0000 * d,
            d > 0,
    ;
}

// ---------------------------------------------------------------------------
// Operations
// ---------------------------------------------------------------------------

/// `a + b`.
pub open spec fn sum(a: Figure, b: Figure) -> Figure {
    if a.nan() || b.nan() || (a.infinite() && b.infinite() && a.negative() != b.negative()) {
        Figure { bits: NAN_BITS }
    } else if a.infinite() {
        a
    } else if b.infinite() {
        b
    } else {
        let v = a.signed_units() + b.signed_units();
        if v > 0 {
            with_sign(false, nearest_size(v as nat, 1))
        } else if v < 0 {
            with_sign(true, nearest_size((-v) as nat, 1))
        } else {
            with_sign(a.negative() && b.negative(), 0)
        }
    }
}

/// `-a`.
pub open spec fn opposite(a: Figure) -> Figure {
    with_sign(!a.negative(), a.magnitude() as nat)
}

/// `a - b`.
pub open spec fn difference(a: Figure, b: Figure) -> Figure {
    sum(a, opposite(b))
}

/// `a * b`.
pub open spec fn product(a: Figure, b: Figure) -> Figure {
    let negative = a.negative() != b.negative();
    if a.nan() || b.nan() || (a.infinite() && b.magnitude() == 0) || (b.infinite() && a.magnitude()
        == 0) {
        Figure { bits: NAN_BITS }
    } else if a.infinite() || b.infinite() {
        with_sign(negative, INFINITY_BITS as nat)
    } else {
        with_sign(negative, nearest_size(a.units() * b.units(), pow2(1074)))
    }
}

/// `a / b`.
pub open spec fn quotient(a: Figure, b: Figure) -> Figure {
    let negative = a.negative() != b.negative();
    if a.nan() || b.nan() || (a.infinite() && b.infinite()) || (a.magnitude() == 0 && b.magnitude()
        == 0) {
        Figure { bits: NAN_BITS }
    } else if a.infinite() || b.magnitude() == 0 {
        with_sign(negative, INFINITY_BITS as nat)
    } else if b.infinite() {
        with_sign(negative, 0)
    } else {
        with_sign(negative, nearest_size(a.units() * pow2(1074), b.units()))
    }
}

/// The figure nearest to a whole number.
pub open spec fn whole(n: nat) -> Figure {
    with_sign(false, nearest_size(n * pow2(1074), 1))
}

/// The figures of a list, summed from the left.
pub open spec fn total(list: Seq<Figure>) -> Figure
    decreases list.len(),
{
    if list.len() == 0 {
        Figure { bits: 0 }
    } else {
        sum(total(list.drop_last()), list.last())
    }
}

fn mantissa_and_place(f: Figure) -> (res: (u64, i64))
    requires
        f.finite(),
    ensures
        res.0 == f.mantissa(),
        res.1 == f.exponent() + 1074,
        0 <= res.1 <= 2045,
        res.0 < 0x20_0000_0000_0000,
        res.1 > 0 ==> res.0 >= 0x10_0000_0000_0000,
        f.units() == res.0 * pow2(res.1 as nat),
        f.magnitude() == res.1 * 0x10_0000_0000_0000 + res.0,
{
    let size: u64 = if f.bits >= SIGN_BIT {
        f.bits - SIGN_BIT
    } else {
        f.bits
    };
    let field: u64 = size / 0x10_0000_0000_0000;
    let fraction: u64 = size % 0x10_0000_0000_0000;
    if field == 0 {
        (fraction, 0)
    } else {
        (fraction + 0x10_0000_0000_0000, field as i64 - 1)
    }
}

pub(crate) proof fn pattern_of_units(f: Figure)
    requires
        f.finite(),
    ensures
        f.magnitude() == 0 <==> f.units() == 0,
        f.magnitude() == (f.exponent() + 1074) * 0x10_0000_0000_0000 + f.mantissa(),
{
    let p = pow2((f.exponent() + 1074) as nat);
    lemma_pow2_pos((f.exponent() + 1074) as nat);
    assert(f.mantissa() * p == 0 <==> f.mantissa() == 0) by (nonlinear_arith)
        requires
            p > 0,
            f.mantissa() >= 0,
    ;
}

/// A figure far below another does not move it.
proof fn far_sum(m: nat, x: nat, u: nat)
    requires
        0x10_0000_0000_0000 <= m < 0x20_0000_0000_0000,
        x >= 4,
        4 * u < pow2((x - 1) as nat),
    ensures
        nearest_size(m * pow2(x) + u, 1) == if x * 0x10_0000_0000_0000 + m < INFINITY_BITS {
            (x * 0x10_0000_0000_0000 + m) as nat
        } else {
            INFINITY_BITS as nat
        },
{
    let d = pow2(x);
    lemma_pow2_unfold(x);
    lemma2_to64_rest();
    lemma_pow2_adds(52, x);
    lemma_pow2_adds(53, x);
    let n = m * d + u;
    assert(n < 0x20_0000_0000_0000 * d && n >= 0x10_0000_0000_0000 * d) by (nonlinear_arith)
        requires
            n == m * d + u,
            0x10_0000_0000_0000 <= m < 0x20_0000_0000_0000,
            u < d,
    ;
    assert(n / 1 == n);
    shift_is(n, x);
    assert(1 * d == d);
    assert(n == m * d + u);
    lemma_fundamental_div_mod_converse(n as int, d as int, m as int, u as int);
}

proof fn far_difference(m: nat, x: nat, u: nat)
    requires
        0x10_0000_0000_0000 <= m < 0x20_0000_0000_0000,
        x >= 4,
        0 < u,
        4 * u < pow2((x - 1) as nat),
        x * 0x10_0000_0000_0000 + m < INFINITY_BITS,
    ensures
        u < m * pow2(x),
        nearest_size((m * pow2(x) - u) as nat, 1) == x * 0x10_0000_0000_0000 + m,
{
    let d = pow2(x);
    let h = pow2((x - 1) as nat);
    lemma_pow2_unfold(x);
    lemma2_to64_rest();
    lemma_pow2_adds(52, x);
    lemma_pow2_adds(53, x);
    lemma_pow2_adds(51, x);
    assert(u < m * d) by (nonlinear_arith)
        requires
            u < d,
            m >= 1,
            d >= 0,
    ;
    let n = (m * d - u) as nat;
    assert(n / 1 == n);
    if m > 0x10_0000_0000_0000 {
        assert(n < 0x20_0000_0000_0000 * d && n >= 0x10_0000_0000_0000 * d) by (nonlinear_arith)
            requires
                n == m * d - u,
                0x10_0000_0000_0001 <= m < 0x20_0000_0000_0000,
                0 < u < d,
        ;
        shift_is(n, x);
        assert(1 * d == d);
        assert(n == (m - 1) * d + (d - u)) by (nonlinear_arith)
            requires
                n == m * d - u,
        ;
        lemma_fundamental_div_mod_converse(n as int, d as int, m - 1, d - u);
    } else {
        assert(m * d == 0x20_0000_0000_0000 * h) by (nonlinear_arith)
            requires
                m == 0x10_0000_0000_0000,
                d == 2 * h,
        ;
        lemma_pow2_adds(52, (x - 1) as nat);
        lemma_pow2_adds(53, (x - 1) as nat);
        assert(n < 0x20_0000_0000_0000 * h && n >= 0x10_0000_0000_0000 * h) by (nonlinear_arith)
            requires
                n == 0x20_0000_0000_0000 * h - u,
                0 < u < h,
        ;
        shift_is(n, (x - 1) as nat);
        assert(1 * h == h);
        assert(n == (0x20_0000_0000_0000 - 1) * h + (h - u)) by (nonlinear_arith)
            requires
                n == 0x20_0000_0000_0000 * h - u,
        ;
        lemma_fundamental_div_mod_converse(
            n as int,
            h as int,
            0x20_0000_0000_0000 - 1,
            h - u,
        );
    }
}

/// A mantissa more than sixty places below a place is small beside it.
proof fn far_below(m: nat, x: nat, y: nat)
    requires
        m < 0x20_0000_0000_0000,
        y > x + 60,
    ensures
        4 * (m * pow2(x)) < pow2((y - 1) as nat),
{
    lemma2_to64_rest();
    lemma_pow2_pos(x);
    let p = pow2(x);
    lemma_pow2_adds(55, x);
    assert(4 * (m * p) < 0x80_0000_0000_0000 * p) by (nonlinear_arith)
        requires
            m < 0x20_0000_0000_0000,
            p > 0,
    ;
    lemma_pow2_strictly_increases((55 + x) as nat, (y - 1) as nat);
}

/// The size nearest to the sum of two sizes, the first at the higher place.
fn add_sizes(m1: u64, x1: i64, m2: u64, x2: i64) -> (res: u64)
    requires
        0 <= x2 <= x1 <= 2045,
        m1 < 0x20_0000_0000_0000,
        m2 < 0x20_0000_0000_0000,
        x1 > 0 ==> m1 >= 0x10_0000_0000_0000,
    ensures
        res == nearest_size((m1 * pow2(x1 as nat) + m2 * pow2(x2 as nat)) as nat, 1),
        res <= INFINITY_BITS,
{
    let d: i64 = x1 - x2;
    if d <= 60 {
        let f: u128 = two_to(d as u64);
        proof {
            aligned(m1 as nat, d as nat, x2 as nat);
            aligned_fits(m1 as nat, d as nat);
            let a = m1 * f;
            let p = pow2(x2 as nat);
            assert((a + m2) * p == a * p + m2 * p) by (nonlinear_arith);
        }
        pack(m1 as u128 * f + m2 as u128, x2)
    } else {
        proof {
            far_below(m2 as nat, x2 as nat, x1 as nat);
            far_sum(m1 as nat, x1 as nat, m2 as nat * pow2(x2 as nat));
        }
        x1 as u64 * 0x10_0000_0000_0000 + m1
    }
}

proof fn aligned(m: nat, d: nat, x: nat)
    ensures
        m * pow2(x + d) == (m * pow2(d)) * pow2(x),
{
    lemma_pow2_adds(d, x);
    let a = pow2(d);
    let b = pow2(x);
    assert(m * (a * b) == (m * a) * b) by (nonlinear_arith);
}

proof fn aligned_fits(m: nat, d: nat)
    requires
        m < 0x20_0000_0000_0000,
        d <= 60,
    ensures
        m * pow2(d) < 0x100_0000_0000_0000_0000_0000_0000_0000,
{
    lemma2_to64_rest();
    if d < 60 {
        lemma_pow2_strictly_increases(d, 60);
    }
    let p = pow2(d);
    assert(m * p < 0x20_0000_0000_0000 * 0x1000_0000_0000_0001) by (nonlinear_arith)
        requires
            m < 0x20_0000_0000_0000,
            0 <= p <= 0x1000_0000_0000_0000,
    ;
}

/// The size nearest to the difference of two sizes, the first the larger.
fn subtract_sizes(m1: u64, x1: i64, m2: u64, x2: i64) -> (res: u64)
    requires
        0 <= x2 <= x1 <= 2045,
        m1 < 0x20_0000_0000_0000,
        m2 < 0x20_0000_0000_0000,
        x1 > 0 ==> m1 >= 0x10_0000_0000_0000,
        x1 == x2 ==> m2 < m1,
    ensures
        m2 * pow2(x2 as nat) < m1 * pow2(x1 as nat),
        res == nearest_size((m1 * pow2(x1 as nat) - m2 * pow2(x2 as nat)) as nat, 1),
        res <= INFINITY_BITS,
{
    let d: i64 = x1 - x2;
    if d <= 60 {
        let f: u128 = two_to(d as u64);
        proof {
            aligned(m1 as nat, d as nat, x2 as nat);
            aligned_fits(m1 as nat, d as nat);
            lemma_pow2_pos(x2 as nat);
            lemma2_to64();
            let a = m1 * f;
            let p = pow2(x2 as nat);
            if d == 0 {
                assert(a == m1) by (nonlinear_arith)
                    requires
                        a == m1 * f,
                        f == 1,
                ;
            } else {
                lemma_pow2_unfold(d as nat);
                lemma_pow2_pos((d - 1) as nat);
                assert(a > m2) by (nonlinear_arith)
                    requires
                        a == m1 * f,
                        f >= 2,
                        m1 >= 0x10_0000_0000_0000,
                        m2 < 0x20_0000_0000_0000,
                ;
            }
            assert((a - m2) * p == a * p - m2 * p) by (nonlinear_arith);
            assert(m2 * p < a * p) by (nonlinear_arith)
                requires
                    m2 < a,
                    p > 0,
            ;
        }
        pack(m1 as u128 * f - m2 as u128, x2)
    } else {
        proof {
            let p = pow2(x2 as nat);
            lemma_pow2_pos(x2 as nat);
            far_below(m2 as nat, x2 as nat, x1 as nat);
            if m2 == 0 {
                assert(m2 * p == 0) by (nonlinear_arith)
                    requires
                        m2 == 0,
                ;
                far_sum(m1 as nat, x1 as nat, 0);
                lemma_pow2_pos(x1 as nat);
                let q = pow2(x1 as nat);
                assert(m1 * q > 0) by (nonlinear_arith)
                    requires
                        m1 > 0,
                        q > 0,
                ;
            } else {
                assert(m2 * p > 0) by (nonlinear_arith)
                    requires
                        m2 > 0,
                        p > 0,
                ;
                far_difference(m1 as nat, x1 as nat, m2 as nat * p);
            }
        }
        x1 as u64 * 0x10_0000_0000_0000 + m1
    }
}

fn signed(negative: bool, size: u64) -> (res: Figure)
    requires
        size <= INFINITY_BITS,
    ensures
        res == with_sign(negative, size as nat),
{
    if negative {
        Figure { bits: size + SIGN_BIT }
    } else {
        Figure { bits: size }
    }
}

fn size_of(f: Figure) -> (res: u64)
    ensures
        res == f.magnitude(),
{
    if f.bits >= SIGN_BIT {
        f.bits - SIGN_BIT
    } else {
        f.bits
    }
}

/// `a + b`.
pub fn add_figures(a: Figure, b: Figure) -> (res: Figure)
    ensures
        res == sum(a, b),
{
    let sa: u64 = size_of(a);
    let sb: u64 = size_of(b);
    let na: bool = a.bits >= SIGN_BIT;
    let nb: bool = b.bits >= SIGN_BIT;
    if sa > INFINITY_BITS || sb > INFINITY_BITS || (sa == INFINITY_BITS && sb == INFINITY_BITS && na
        != nb) {
        return Figure { bits: NAN_BITS };
    }
    if sa == INFINITY_BITS {
        return a;
    }
    if sb == INFINITY_BITS {
        return b;
    }
    let (m1, x1) = mantissa_and_place(a);
    let (m2, x2) = mantissa_and_place(b);
    proof {
        pattern_of_units(a);
        pattern_of_units(b);
    }
    if na == nb {
        if sa == 0 && sb == 0 {
            return signed(na, 0);
        }
        let size: u64 = if x1 >= x2 {
            add_sizes(m1, x1, m2, x2)
        } else {
            add_sizes(m2, x2, m1, x1)
        };
        signed(na, size)
    } else if sa == sb {
        assert(a.units() == b.units());
        signed(false, 0)
    } else if x1 > x2 || (x1 == x2 && m1 > m2) {
        signed(na, subtract_sizes(m1, x1, m2, x2))
    } else {
        signed(nb, subtract_sizes(m2, x2, m1, x1))
    }
}

/// `a - b`.
pub fn subtract_figures(a: Figure, b: Figure) -> (res: Figure)
    ensures
        res == difference(a, b),
{
    let flipped: u64 = if b.bits >= SIGN_BIT {
        b.bits - SIGN_BIT
    } else {
        b.bits + SIGN_BIT
    };
    add_figures(a, Figure { bits: flipped })
}

/// `a * b`.
pub fn multiply_figures(a: Figure, b: Figure) -> (res: Figure)
    ensures
        res == product(a, b),
{
    let sa: u64 = size_of(a);
    let sb: u64 = size_of(b);
    let negative: bool = (a.bits >= SIGN_BIT) != (b.bits >= SIGN_BIT);
    if sa > INFINITY_BITS || sb > INFINITY_BITS || (sa == INFINITY_BITS && sb == 0) || (sb
        == INFINITY_BITS && sa == 0) {
        return Figure { bits: NAN_BITS };
    }
    if sa == INFINITY_BITS || sb == INFINITY_BITS {
        return signed(negative, INFINITY_BITS);
    }
    let (m1, x1) = mantissa_and_place(a);
    let (m2, x2) = mantissa_and_place(b);
    let x: i64 = x1 + x2 - 1074;
    proof {
        pow2_126();
        assert(m1 * m2 < 0x20_0000_0000_0000 * 0x20_0000_0000_0000) by (nonlinear_arith)
            requires
                m1 < 0x20_0000_0000_0000,
                m2 < 0x20_0000_0000_0000,
        ;
        scaled_product(m1 as nat, x1 as nat, m2 as nat, x2 as nat);
    }
    signed(negative, pack(m1 as u128 * m2 as u128, x))
}

proof fn scaled_product(m1: nat, x1: nat, m2: nat, x2: nat)
    ensures
        nearest_size((m1 * pow2(x1)) * (m2 * pow2(x2)), pow2(1074)) == nearest_size(
            (m1 * m2) * up(x1 + x2 - 1074),
            down(x1 + x2 - 1074),
        ),
{
    let m = m1 * m2;
    let p1 = pow2(x1);
    let p2 = pow2(x2);
    let x = x1 + x2 - 1074;
    lemma_pow2_adds(x1, x2);
    lemma_pow2_pos(x1 + x2);
    lemma_pow2_pos(1074);
    assert((m1 * p1) * (m2 * p2) == m * (p1 * p2)) by (nonlinear_arith)
        requires
            m == m1 * m2,
    ;
    if x >= 0 {
        let e = pow2(x as nat);
        let t = pow2(1074);
        lemma_pow2_adds(x as nat, 1074);
        assert(m * (e * t) == (m * e) * t) by (nonlinear_arith);
        assert(1 * t == t);
        nearest_scales(m * e, 1, t);
    } else {
        let d = pow2((-x) as nat);
        let t = pow2(x1 + x2);
        lemma_pow2_adds((-x) as nat, x1 + x2);
        lemma_pow2_pos((-x) as nat);
        assert(m * 1 == m);
        nearest_scales(m, d, t);
    }
}

/// One more bit that tells whether anything was left over is all that rounding
/// needs of a quotient cut short.
proof fn left_over_bit(a: nat, b: nat, j: nat)
    requires
        b > 0,
        j > 0,
    ensures
        half_even(a, b * pow2(j)) == half_even(
            2 * (a / b) + if a % b > 0 {
                1nat
            } else {
                0nat
            },
            pow2(j + 1),
        ),
{
    let d = pow2(j);
    let h = pow2((j - 1) as nat);
    lemma_pow2_unfold(j);
    lemma_pow2_unfold(j + 1);
    lemma_pow2_pos((j - 1) as nat);
    let q = a / b;
    let rest = a % b;
    let bit: nat = if rest > 0 {
        1
    } else {
        0
    };
    let k = q / d;
    let r = q % d;
    lemma_fundamental_div_mod(a as int, b as int);
    lemma_fundamental_div_mod(q as int, d as int);
    assert(a == k * (b * d) + (b * r + rest)) by (nonlinear_arith)
        requires
            a == b * q + rest,
            q == d * k + r,
    ;
    assert(b * r + rest < b * d) by (nonlinear_arith)
        requires
            r + 1 <= d,
            rest < b,
            b > 0,
    ;
    assert(b * r >= 0 && b * d > 0) by (nonlinear_arith)
        requires
            r >= 0,
            b > 0,
            d > 0,
    ;
    lemma_fundamental_div_mod_converse(a as int, (b * d) as int, k as int, (b * r + rest) as int);
    assert(2 * q + bit == k * (2 * d) + (2 * r + bit)) by (nonlinear_arith)
        requires
            q == d * k + r,
    ;
    lemma_fundamental_div_mod_converse(
        (2 * q + bit) as int,
        (2 * d) as int,
        k as int,
        (2 * r + bit) as int,
    );
    assert(b * d == 2 * (b * h)) by (nonlinear_arith)
        requires
            d == 2 * h,
    ;
    if r > h {
        assert(b * r >= b * h + b) by (nonlinear_arith)
            requires
                r >= h + 1,
                b > 0,
        ;
    } else if r < h {
        assert(b * r + b <= b * h) by (nonlinear_arith)
            requires
                r + 1 <= h,
                b > 0,
        ;
    }
}

proof fn quotient_from_cut(a: nat, b: nat, len: nat, z: int)
    requires
        b > 0,
        len >= 64,
        pow2((len - 1) as nat) <= a / b < pow2(len),
    ensures
        nearest_size(a * up(z), b * down(z)) == nearest_size(
            (2 * (a / b) + if a % b > 0 {
                1nat
            } else {
                0nat
            }) * up(z - 1),
            down(z - 1),
        ),
{
    let q = a / b;
    let rest = a % b;
    let bit: nat = if rest > 0 {
        1
    } else {
        0
    };
    let m = 2 * q + bit;
    lemma_fundamental_div_mod(a as int, b as int);
    if z < 0 {
        let d = pow2((-z) as nat);
        lemma_pow2_pos((-z) as nat);
        lemma_pow2_unfold((1 - z) as nat);
        assert(a * 1 == a && m * 1 == m);
        let k = q / d;
        let r = q % d;
        lemma_fundamental_div_mod(q as int, d as int);
        assert(a == k * (b * d) + (b * r + rest)) by (nonlinear_arith)
            requires
                a == b * q + rest,
                q == d * k + r,
        ;
        assert(0 <= b * r + rest < b * d) by (nonlinear_arith)
            requires
                0 <= r,
                r + 1 <= d,
                0 <= rest < b,
                b > 0,
        ;
        lemma_fundamental_div_mod_converse(a as int, (b * d) as int, k as int, (b * r + rest) as int);
        assert(m == k * (2 * d) + (2 * r + bit)) by (nonlinear_arith)
            requires
                m == 2 * q + bit,
                q == d * k + r,
        ;
        lemma_fundamental_div_mod_converse(
            m as int,
            (2 * d) as int,
            k as int,
            (2 * r + bit) as int,
        );
        let s = shift_for(k);
        let e = pow2(s);
        lemma_pow2_adds((-z) as nat, s);
        lemma_pow2_adds((1 - z) as nat, s);
        assert((b * d) * e == b * (d * e)) by (nonlinear_arith);
        left_over_bit(a, b, (s - z) as nat);
        assert((1 - z) as nat + s == (s - z) as nat + 1);
    } else {
        let e = pow2(z as nat);
        let s = (len + z - 53) as nat;
        let j = (len - 53) as nat;
        lemma_pow2_pos(z as nat);
        lemma_pow2_pos(j);
        // The whole part of the quotient.
        let top = pow2(len);
        let low = pow2((len - 1) as nat);
        lemma_pow2_adds(len, z as nat);
        lemma_pow2_adds((len - 1) as nat, z as nat);
        assert(b * (low * e) <= a * e) by (nonlinear_arith)
            requires
                low <= q,
                a >= b * q,
                e > 0,
                b > 0,
        ;
        assert(a * e < b * (top * e)) by (nonlinear_arith)
            requires
                q + 1 <= top,
                a < b * q + b,
                e > 0,
                b > 0,
        ;
        assert(b * 1 == b);
        let n = (a * e) / b;
        lemma_fundamental_div_mod((a * e) as int, b as int);
        let left = (a * e) % b;
        let ae = a * e;
        let te = top * e;
        let le = low * e;
        assert(n < te) by (nonlinear_arith)
            requires
                ae == b * n + left,
                ae < b * te,
                left >= 0,
                b > 0,
        ;
        assert(n >= le) by (nonlinear_arith)
            requires
                ae == b * n + left,
                ae >= b * le,
                left < b,
                b > 0,
        ;
        shift_is(n, s);
        // The whole part of the cut one.
        lemma_pow2_unfold(len + 1);
        lemma_pow2_unfold(len);
        whole_part_bounds(m, len + 1, z - 1);
        shift_is((m * up(z - 1)) / down(z - 1), s);
        // Both round alike.
        lemma_pow2_adds(j, z as nat);
        let pj = pow2(j);
        assert(b * (pj * e) == (b * pj) * e) by (nonlinear_arith);
        assert(b * pj > 0) by (nonlinear_arith)
            requires
                b > 0,
                pj > 0,
        ;
        half_even_scales(a, b * pj, e);
        left_over_bit(a, b, j);
        lemma_pow2_pos(j + 1);
        if z == 0 {
            lemma2_to64();
            lemma_pow2_adds(1, s);
            assert(m * 1 == m);
        } else {
            let f = pow2((z - 1) as nat);
            lemma_pow2_pos((z - 1) as nat);
            lemma_pow2_adds(j + 1, (z - 1) as nat);
            let ps = pow2(s);
            assert(1 * ps == ps) by (nonlinear_arith);
            half_even_scales(m, pow2(j + 1), f);
        }
    }
}

proof fn scaled_quotient(m1: nat, x1: nat, j: nat, m2: nat, x2: nat)
    requires
        m2 > 0,
    ensures
        nearest_size((m1 * pow2(x1)) * pow2(1074), m2 * pow2(x2)) == nearest_size(
            ((m1 * pow2(j)) * pow2(64)) * up(x1 - j - x2 + 1010),
            m2 * down(x1 - j - x2 + 1010),
        ),
{
    let z = x1 - j - x2 + 1010;
    let e = pow2(x1 + 1074);
    let p2 = pow2(x2);
    let a = pow2(j + 64);
    lemma_pow2_pos(x2);
    lemma_pow2_adds(x1, 1074);
    lemma_pow2_adds(j, 64);
    let px = pow2(x1);
    let pt = pow2(1074);
    assert((m1 * px) * pt == m1 * (px * pt)) by (nonlinear_arith);
    let pj = pow2(j);
    let p64 = pow2(64);
    assert((m1 * pj) * p64 == m1 * (pj * p64)) by (nonlinear_arith);
    assert(m2 * p2 > 0) by (nonlinear_arith)
        requires
            m2 > 0,
            p2 > 0,
    ;
    if z >= 0 {
        let u = pow2(z as nat);
        lemma_pow2_adds(j + 64, z as nat);
        lemma_pow2_adds(j + 64 + z as nat, x2);
        assert(m1 * ((a * u) * p2) == ((m1 * a) * u) * p2) by (nonlinear_arith);
        assert(m2 * 1 == m2);
        nearest_scales((m1 * a) * u, m2, p2);
    } else {
        let d = pow2((-z) as nat);
        lemma_pow2_pos((-z) as nat);
        lemma_pow2_adds(x1 + 1074, (-z) as nat);
        lemma_pow2_adds(j + 64, x2);
        assert(x1 + 1074 + (-z) as nat == j + 64 + x2);
        nearest_scales(m1 * e, m2 * p2, d);
        assert((m1 * e) * d == m1 * (e * d)) by (nonlinear_arith);
        assert((m1 * a) * p2 == m1 * (a * p2)) by (nonlinear_arith);
        assert((m2 * p2) * d == (m2 * d) * p2) by (nonlinear_arith);
        assert(m2 * d > 0) by (nonlinear_arith)
            requires
                m2 > 0,
                d > 0,
        ;
        assert((m1 * a) * 1 == m1 * a);
        nearest_scales(m1 * a, m2 * d, p2);
    }
}

/// `a / b`.
pub fn divide_figures(a: Figure, b: Figure) -> (res: Figure)
    ensures
        res == quotient(a, b),
{
    let sa: u64 = size_of(a);
    let sb: u64 = size_of(b);
    let negative: bool = (a.bits >= SIGN_BIT) != (b.bits >= SIGN_BIT);
    if sa > INFINITY_BITS || sb > INFINITY_BITS || (sa == INFINITY_BITS && sb == INFINITY_BITS) || (
    sa == 0 && sb == 0) {
        return Figure { bits: NAN_BITS };
    }
    if sa == INFINITY_BITS || sb == 0 {
        return signed(negative, INFINITY_BITS);
    }
    if sb == INFINITY_BITS {
        return signed(negative, 0);
    }
    let (m1, x1) = mantissa_and_place(a);
    let (m2, x2) = mantissa_and_place(b);
    proof {
        pattern_of_units(a);
        pattern_of_units(b);
    }
    if sa == 0 {
        proof {
            lemma_pow2_pos(x2 as nat);
            let p = pow2(x2 as nat);
            let e = pow2(1074);
            assert(0 * e == 0) by (nonlinear_arith);
            lemma2_to64();
            let u = b.units();
            assert(u * 1 == u) by (nonlinear_arith);
            half_even_of_small(0, u * pow2(0));
            lemma_fundamental_div_mod_converse(0, b.units() as int, 0, 0);
        }
        return signed(negative, 0);
    }
    let mut top: u64 = m1;
    let mut j: i64 = 0;
    proof {
        lemma2_to64();
        assert(m1 * 1 == m1);
    }
    while top < 0x10_0000_0000_0000
        invariant
            0 < top < 0x20_0000_0000_0000,
            top == m1 * pow2(j as nat),
            0 <= j <= 60,
            top >= pow2(j as nat),
        decreases 0x20_0000_0000_0000 - top,
    {
        proof {
            lemma_pow2_unfold((j + 1) as nat);
            let p = pow2(j as nat);
            assert(m1 * (2 * p) == 2 * (m1 * p)) by (nonlinear_arith);
            lemma2_to64_rest();
            if j >= 53 {
                lemma_pow2_strictly_increases(52, j as nat);
            }
        }
        top = top * 2;
        j = j + 1;
    }
    let wide: u128 = top as u128 * 0x1_0000_0000_0000_0000;
    let q: u128 = wide / m2 as u128;
    let rest: u128 = wide % m2 as u128;
    let bit: u128 = if rest > 0 {
        1
    } else {
        0
    };
    proof {
        lemma_fundamental_div_mod(wide as int, m2 as int);
        assert(q >= 0x8000_0000_0000_0000) by (nonlinear_arith)
            requires
                wide == m2 * q + rest,
                rest < m2,
                m2 < 0x20_0000_0000_0000,
                wide >= 0x10_0000_0000_0000 * 0x1_0000_0000_0000_0000,
        ;
        assert(q < 0x20_0000_0000_0000 * 0x1_0000_0000_0000_0000) by (nonlinear_arith)
            requires
                wide == m2 * q + rest,
                rest >= 0,
                m2 >= 1,
                wide < 0x20_0000_0000_0000 * 0x1_0000_0000_0000_0000,
        ;
        pow2_126();
        lemma2_to64_rest();
    }
    let len: u64 = bit_length(q);
    let z: i64 = x1 - j - x2 + 1010;
    proof {
        if len < 64 {
            if len < 63 {
                lemma_pow2_strictly_increases(len as nat, 63);
            }
        }
        scaled_quotient(m1 as nat, x1 as nat, j as nat, m2 as nat, x2 as nat);
        quotient_from_cut(wide as nat, m2 as nat, len as nat, z as int);
    }
    signed(negative, pack(2 * q + bit, z - 1))
}

/// The figure nearest to a whole number.
pub fn whole_figure(n: u64) -> (res: Figure)
    ensures
        res == whole(n as nat),
{
    proof {
        pow2_126();
        lemma_pow2_pos(1074);
    }
    signed(false, pack(n as u128, 1074))
}

/// The figures of a list, summed from the left.
pub fn total_of(list: &Vec<Figure>) -> (res: Figure)
    ensures
        res == total(list@),
{
    let mut res: Figure = Figure { bits: 0 };
    let mut i: usize = 0;
    assert(list@.take(0) =~= Seq::<Figure>::empty());
    while i < list.len()
        invariant
            i <= list.len(),
            res == total(list@.take(i as int)),
        decreases list.len() - i,
    {
        assert(list@.take(i + 1).drop_last() =~= list@.take(i as int));
        res = add_figures(res, list[i]);
        i = i + 1;
    }
    assert(list@.take(list.len() as int) =~= list@);
    res
}

// ---------------------------------------------------------------------------
// Whole numbers
// ---------------------------------------------------------------------------

/// The figure nearest to a whole number with a sign.
pub open spec fn signed_whole(n: int) -> Figure {
    if n < 0 {
        with_sign(true, nearest_size(((-n) as nat) * pow2(1074), 1))
    } else {
        whole(n as nat)
    }
}

/// The figure of a whole number with a sign.
pub fn signed_whole_figure(n: i64) -> (res: Figure)
    ensures
        res == signed_whole(n as int),
{
    proof {
        pow2_126();
        lemma_pow2_pos(1074);
    }
    if n < 0 {
        let size: u128 = (-(n as i128)) as u128;
        signed(true, pack(size, 1074))
    } else {
        whole_figure(n as u64)
    }
}

impl Figure {
    /// The size of a finite figure without its fraction.
    pub open spec fn whole_part(self) -> nat {
        self.units() / pow2(1074)
    }

    /// The size of a finite figure at the nearest whole number, a half up.
    pub open spec fn nearest_whole(self) -> nat {
        (2 * self.units() + pow2(1074)) / (2 * pow2(1074))
    }
}

/// The whole part of a figure between two bounds: what is beyond them is held
/// to them, and what is not a number is zero.
pub open spec fn cut_to_range(f: Figure, low: int, high: int) -> int {
    if f.nan() {
        0
    } else if f.infinite() {
        if f.negative() {
            low
        } else {
            high
        }
    } else {
        let n = if f.negative() {
            -(f.whole_part() as int)
        } else {
            f.whole_part() as int
        };
        if n < low {
            low
        } else if n > high {
            high
        } else {
            n
        }
    }
}

/// Where a fraction of a mantissa begins.
proof fn parts_of_a_unit(m: nat, x: nat)
    requires
        m < 0x20_0000_0000_0000,
        x < 1074,
    ensures
        (m * pow2(x)) / pow2(1074) == m / pow2((1074 - x) as nat),
        (2 * (m * pow2(x)) + pow2(1074)) / (2 * pow2(1074)) == (m + pow2((1073 - x) as nat))
            / pow2((1074 - x) as nat),
        x < 1021 ==> m / pow2((1074 - x) as nat) == 0,
        x < 1020 ==> (m + pow2((1073 - x) as nat)) / pow2((1074 - x) as nat) == 0,
{
    let k = (1074 - x) as nat;
    let p = pow2(x);
    let d = pow2(k);
    let h = pow2((1073 - x) as nat);
    lemma_pow2_pos(x);
    lemma_pow2_pos(k);
    lemma_pow2_adds(k, x);
    lemma_pow2_unfold(k);
    lemma_div_multiples_vanish_quotient(p as int, m as int, d as int);
    assert(m * p == p * m && d * p == p * d) by (nonlinear_arith);
    let q = 2 * p;
    lemma_div_multiples_vanish_quotient(q as int, (m + h) as int, d as int);
    assert(q * (m + h) == 2 * (m * p) + d * p) by (nonlinear_arith)
        requires
            q == 2 * p,
            d == 2 * h,
    ;
    assert(q * d == 2 * (d * p)) by (nonlinear_arith)
        requires
            q == 2 * p,
    ;
    lemma2_to64_rest();
    if x < 1021 {
        if k > 53 {
            lemma_pow2_strictly_increases(53, k);
        }
        lemma_fundamental_div_mod_converse(m as int, d as int, 0, m as int);
    }
    if x < 1020 {
        if k > 55 {
            lemma_pow2_strictly_increases(54, (1073 - x) as nat);
        }
        lemma_fundamental_div_mod_converse((m + h) as int, d as int, 0, (m + h) as int);
    }
}

/// A figure at a place with no fraction is a whole number.
proof fn whole_places(m: nat, x: nat)
    requires
        x >= 1074,
    ensures
        (m * pow2(x)) / pow2(1074) == m * pow2((x - 1074) as nat),
        (m * pow2(x)) % pow2(1074) == 0,
{
    let e = pow2((x - 1074) as nat);
    let t = pow2(1074);
    lemma_pow2_adds((x - 1074) as nat, 1074);
    lemma_pow2_pos(1074);
    assert(m * (e * t) == (m * e) * t) by (nonlinear_arith);
    lemma_fundamental_div_mod_converse((m * pow2(x)) as int, t as int, (m * e) as int, 0);
}

/// The whole part of a finite figure, held to what fits in 32 bits.
fn whole_part_within(f: Figure) -> (res: u64)
    requires
        f.finite(),
    ensures
        res == if f.whole_part() < 0x1_0000_0000 {
            f.whole_part()
        } else {
            0x1_0000_0000
        },
{
    let (m, x) = mantissa_and_place(f);
    if x >= 1074 {
        proof {
            whole_places(m as nat, x as nat);
            lemma_pow2_pos((x - 1074) as nat);
            let e = pow2((x - 1074) as nat);
            assert(m * e >= m) by (nonlinear_arith)
                requires
                    e >= 1,
            ;
        }
        0x1_0000_0000
    } else {
        proof {
            parts_of_a_unit(m as nat, x as nat);
        }
        if x < 1021 {
            0
        } else {
            let d: u128 = two_to((1074 - x) as u64);
            let n: u128 = m as u128 / d;
            proof {
                lemma_pow2_pos((1074 - x) as nat);
                assert(n <= m) by (nonlinear_arith)
                    requires
                        n == m as u128 / d,
                        d >= 1,
                ;
            }
            if n < 0x1_0000_0000 {
                n as u64
            } else {
                0x1_0000_0000
            }
        }
    }
}

/// `f as i32`.
pub fn figure_to_i32(f: Figure) -> (res: i32)
    ensures
        res == cut_to_range(f, i32::MIN as int, i32::MAX as int),
{
    if f.is_nan() {
        return 0;
    }
    let negative: bool = f.bits >= SIGN_BIT;
    if size_of(f) == INFINITY_BITS {
        return if negative {
            i32::MIN
        } else {
            i32::MAX
        };
    }
    let n: u64 = whole_part_within(f);
    if negative {
        if n >= 0x8000_0000 {
            i32::MIN
        } else {
            -(n as i32)
        }
    } else if n > 0x7FFF_FFFF {
        i32::MAX
    } else {
        n as i32
    }
}

/// `f as u32`.
pub fn figure_to_u32(f: Figure) -> (res: u32)
    ensures
        res == cut_to_range(f, 0, u32::MAX as int),
{
    if f.is_nan() {
        return 0;
    }
    let negative: bool = f.bits >= SIGN_BIT;
    if size_of(f) == INFINITY_BITS {
        return if negative {
            0
        } else {
            u32::MAX
        };
    }
    let n: u64 = whole_part_within(f);
    if negative {
        0
    } else if n > 0xFFFF_FFFF {
        u32::MAX
    } else {
        n as u32
    }
}

/// The nearest whole number to a figure, a half away from zero.
pub open spec fn rounded_figure(f: Figure) -> Figure {
    if f.finite() {
        with_sign(f.negative(), nearest_size(f.nearest_whole() * pow2(1074), 1))
    } else {
        f
    }
}

/// A whole size rounds to itself.
proof fn whole_sizes_stay(m: nat, x: nat)
    requires
        x >= 1074,
        0x10_0000_0000_0000 <= m < 0x20_0000_0000_0000,
        x * 0x10_0000_0000_0000 + m < INFINITY_BITS,
    ensures
        (2 * (m * pow2(x)) + pow2(1074)) / (2 * pow2(1074)) == m * pow2((x - 1074) as nat),
        nearest_size((m * pow2((x - 1074) as nat)) * pow2(1074), 1) == x * 0x10_0000_0000_0000 + m,
{
    let e = pow2((x - 1074) as nat);
    let t = pow2(1074);
    lemma_pow2_adds((x - 1074) as nat, 1074);
    lemma_pow2_pos(1074);
    assert(m * (e * t) == (m * e) * t) by (nonlinear_arith);
    let n = m * e;
    assert(2 * (n * t) + t == n * (2 * t) + t) by (nonlinear_arith);
    lemma_fundamental_div_mod_converse((2 * (n * t) + t) as int, (2 * t) as int, n as int, t as int);
    lemma_pow2_pos((x - 1) as nat);
    far_sum(m, x, 0);
    assert(m * pow2(x) + 0 == n * t);
}

/// `f.round()`.
pub fn round_figure(f: Figure) -> (res: Figure)
    ensures
        res == rounded_figure(f),
{
    let size: u64 = size_of(f);
    if size >= INFINITY_BITS {
        return f;
    }
    let negative: bool = f.bits >= SIGN_BIT;
    let (m, x) = mantissa_and_place(f);
    if x >= 1074 {
        proof {
            whole_sizes_stay(m as nat, x as nat);
        }
        return f;
    }
    proof {
        parts_of_a_unit(m as nat, x as nat);
        pow2_126();
        lemma2_to64_rest();
        lemma_pow2_pos(1074);
    }
    let n: u64 = if x < 1020 {
        0
    } else {
        let k: u64 = (1074 - x) as u64;
        let half: u128 = two_to(k - 1);
        let d: u128 = two_to(k);
        proof {
            lemma_pow2_unfold(k as nat);
            lemma_pow2_pos((k - 1) as nat);
            if k < 54 {
                lemma_pow2_strictly_increases((k - 1) as nat, 53);
            }
        }
        let raised: u128 = m as u128 + half;
        let n: u128 = raised / d;
        proof {
            assert(n <= raised) by (nonlinear_arith)
                requires
                    n == raised / d,
                    d >= 1,
            ;
        }
        n as u64
    };
    signed(negative, pack(n as u128, 1074))
}

} // verus!
