//! Decimal text of whole numbers and of figures, rounded half to even.

use vstd::arithmetic::power2::{lemma2_to64, lemma_pow2_strictly_increases, lemma_pow2_unfold, pow2};
use vstd::prelude::*;

use crate::figure::{Figure, INFINITY_BITS, SIGN_BIT};

verus! {

// ---------------------------------------------------------------------------
// Whole numbers
// ---------------------------------------------------------------------------

/// The character of a decimal digit.
pub open spec fn digit(d: int) -> char {
    (48 + d) as char
}

/// A number in decimal, without leading zeros.
pub open spec fn digits(n: nat) -> Seq<char>
    decreases n,
{
    if n < 10 {
        seq![digit(n as int)]
    } else {
        digits(n / 10).push(digit((n % 10) as int))
    }
}

/// The last `count` decimal digits of a number, leading zeros kept.
pub open spec fn last_digits(n: nat, count: nat) -> Seq<char>
    decreases count,
{
    if count == 0 {
        Seq::empty()
    } else {
        last_digits(n / 10, (count - 1) as nat).push(digit((n % 10) as int))
    }
}

/// A whole number with its sign.
pub open spec fn signed_digits(n: int) -> Seq<char> {
    if n < 0 {
        seq!['-'] + digits((-n) as nat)
    } else {
        digits(n as nat)
    }
}

pub open spec fn pow10(n: nat) -> nat
    decreases n,
{
    if n == 0 {
        1
    } else {
        10 * pow10((n - 1) as nat)
    }
}

/// `n` counted in units of `10^-places`, written with that many places.
pub open spec fn fixed(n: nat, places: nat) -> Seq<char> {
    if places == 0 {
        digits(n)
    } else {
        digits(n / pow10(places)) + seq!['.'] + last_digits(n, places)
    }
}

/// `n / d` rounded to the nearest whole number, a tie to the even one.
pub open spec fn half_even(n: nat, d: nat) -> nat {
    let q = n / d;
    let r = n % d;
    if 2 * r > d || (2 * r == d && q % 2 == 1) {
        q + 1
    } else {
        q
    }
}

fn digit_of(d: u8) -> (c: char)
    requires
        d < 10,
    ensures
        c == digit(d as int),
{
    let code: u8 = 48 + d;
    code as char
}

fn push_digits(out: &mut String, n: u64)
    ensures
        final(out)@ == old(out)@ + digits(n as nat),
    decreases n,
{
    if n >= 10 {
        push_digits(out, n / 10);
    }
    out.push(digit_of((n % 10) as u8));
    assert(out@ =~= old(out)@ + digits(n as nat));
}

proof fn digits_end(n: nat)
    ensures
        digits(n).len() > 0,
        digits(n).last() == digit((n % 10) as int),
        n < 10 ==> digits(n).len() == 1,
        n >= 10 ==> digits(n).len() > 1 && digits(n).drop_last() == digits(n / 10),
        '0' as u32 <= digits(n)[0] as u32 <= '9' as u32,
    decreases n,
{
    if n >= 10 {
        digits_end(n / 10);
        assert(digits(n).drop_last() =~= digits(n / 10));
    }
}

proof fn digit_values(a: int, b: int)
    requires
        0 <= a < 10,
        0 <= b < 10,
        digit(a) == digit(b),
    ensures
        a == b,
{
}

/// Different numbers are written differently.
pub proof fn digits_tell_numbers_apart(a: nat, b: nat)
    requires
        digits(a) == digits(b),
    ensures
        a == b,
    decreases a,
{
    digits_end(a);
    digits_end(b);
    digit_values((a % 10) as int, (b % 10) as int);
    if a >= 10 && b >= 10 {
        digits_tell_numbers_apart(a / 10, b / 10);
    }
}

/// Different numbers with a sign are written differently.
pub proof fn signed_digits_tell_numbers_apart(a: int, b: int)
    requires
        signed_digits(a) == signed_digits(b),
    ensures
        a == b,
{
    if a < 0 && b < 0 {
        let x = digits((-a) as nat);
        let y = digits((-b) as nat);
        assert(signed_digits(a).drop_first() =~= x);
        assert(signed_digits(b).drop_first() =~= y);
        digits_tell_numbers_apart((-a) as nat, (-b) as nat);
    } else if a >= 0 && b >= 0 {
        digits_tell_numbers_apart(a as nat, b as nat);
    } else if a < 0 {
        digits_end(b as nat);
        assert(signed_digits(a)[0] == '-');
    } else {
        digits_end(a as nat);
        assert(signed_digits(b)[0] == '-');
    }
}

/// A number in decimal.
pub fn decimal(n: u64) -> (out: String)
    ensures
        out@ == digits(n as nat),
{
    let mut out = String::new();
    push_digits(&mut out, n);
    assert(out@ =~= digits(n as nat));
    out
}

/// A signed number in decimal.
pub fn signed_decimal(n: i64) -> (out: String)
    ensures
        out@ == signed_digits(n as int),
{
    let mut out = String::new();
    if n < 0 {
        out.push('-');
        let size: u64 = if n == i64::MIN {
            0x8000_0000_0000_0000
        } else {
            (-n) as u64
        };
        push_digits(&mut out, size);
        assert(out@ =~= seq!['-'] + digits(size as nat));
    } else {
        push_digits(&mut out, n as u64);
        assert(out@ =~= digits(n as nat));
    }
    out
}

// ---------------------------------------------------------------------------
// Numbers of any size, as decimal digits from the lowest up
// ---------------------------------------------------------------------------

/// The number that a row of digits stands for, the lowest digit first.
pub open spec fn value(row: Seq<u8>) -> nat
    decreases row.len(),
{
    if row.len() == 0 {
        0
    } else {
        row[0] as nat + 10 * value(row.drop_first())
    }
}

/// A row of digits with no zero at its high end, unless it is the only digit.
pub open spec fn tidy(row: Seq<u8>) -> bool {
    &&& row.len() > 0
    &&& forall|i: int| 0 <= i < row.len() ==> row[i] < 10
    &&& row.len() > 1 ==> row.last() != 0
}

/// A row of digits as text, the highest digit first.
spec fn from_high(row: Seq<u8>) -> Seq<char>
    decreases row.len(),
{
    if row.len() == 0 {
        Seq::empty()
    } else {
        from_high(row.drop_first()).push(digit(row[0] as int))
    }
}

proof fn value_positive(row: Seq<u8>)
    requires
        row.len() > 0,
        row.last() != 0,
    ensures
        value(row) > 0,
    decreases row.len(),
{
    if row.len() > 1 {
        value_positive(row.drop_first());
    }
}

proof fn value_push(row: Seq<u8>, d: u8)
    ensures
        value(row.push(d)) == value(row) + d * pow10(row.len()),
    decreases row.len(),
{
    if row.len() == 0 {
        assert(row.push(d).drop_first() =~= row);
        assert(value(row) == 0);
        assert(pow10(0) == 1);
    } else {
        value_push(row.drop_first(), d);
        assert(row.push(d).drop_first() =~= row.drop_first().push(d));
        let p = pow10((row.len() - 1) as nat);
        assert(10 * (d * p) == d * (10 * p)) by (nonlinear_arith);
    }
}

proof fn tidy_row_is_digits(row: Seq<u8>)
    requires
        tidy(row),
    ensures
        from_high(row) == digits(value(row)),
    decreases row.len(),
{
    let rest = row.drop_first();
    if row.len() == 1 {
        assert(value(rest) == 0);
        assert(from_high(rest) =~= Seq::empty());
        assert(from_high(row) =~= seq![digit(row[0] as int)]);
    } else {
        assert(tidy(rest));
        value_positive(rest);
        tidy_row_is_digits(rest);
        assert(value(row) / 10 == value(rest));
        assert(value(row) % 10 == row[0]);
    }
}

proof fn row_splits(row: Seq<u8>, places: nat)
    requires
        places <= row.len(),
        forall|i: int| 0 <= i < row.len() ==> row[i] < 10,
    ensures
        value(row.skip(places as int)) == value(row) / pow10(places),
        from_high(row.take(places as int)) == last_digits(value(row), places),
    decreases places,
{
    if places == 0 {
        assert(row.skip(0) =~= row);
        assert(pow10(0) == 1);
        assert(value(row) / 1 == value(row));
        assert(row.take(0) =~= Seq::empty());
    } else {
        let rest = row.drop_first();
        row_splits(rest, (places - 1) as nat);
        assert(rest.skip(places - 1) =~= row.skip(places as int));
        assert(row.take(places as int).drop_first() =~= rest.take(places - 1));
        assert(value(row) / 10 == value(rest));
        assert(value(row) % 10 == row[0]);
        pow10_positive((places - 1) as nat);
        vstd::arithmetic::div_mod::lemma_div_denominator(
            value(row) as int,
            10,
            pow10((places - 1) as nat) as int,
        );
    }
}

proof fn pow10_positive(n: nat)
    ensures
        pow10(n) > 0,
    decreases n,
{
    if n > 0 {
        pow10_positive((n - 1) as nat);
    }
}

fn row_of(n: u64) -> (row: Vec<u8>)
    ensures
        tidy(row@),
        value(row@) == n,
{
    let mut row: Vec<u8> = Vec::new();
    let mut rest: u64 = n;
    let ghost mut scale: nat = 1;
    while rest >= 10
        invariant
            forall|i: int| 0 <= i < row@.len() ==> row@[i] < 10,
            scale == pow10(row@.len()),
            value(row@) + rest * scale == n,
            row@.len() > 0 ==> rest > 0,
        decreases rest,
    {
        proof {
            value_push(row@, (rest % 10) as u8);
            assert(rest * scale == (rest % 10) * scale + (rest / 10) * (10 * scale))
                by (nonlinear_arith)
                requires
                    rest == (rest % 10) + 10 * (rest / 10),
            ;
            scale = 10 * scale;
        }
        row.push((rest % 10) as u8);
        rest = rest / 10;
    }
    proof {
        value_push(row@, rest as u8);
    }
    row.push(rest as u8);
    row
}

/// Double the number that the row stands for.
fn double(row: &mut Vec<u8>)
    requires
        tidy(old(row)@),
    ensures
        tidy(final(row)@),
        value(final(row)@) == 2 * value(old(row)@),
{
    let ghost before = row@;
    let mut carry: u8 = 0;
    let mut i: usize = 0;
    while i < row.len()
        invariant
            tidy(before),
            row@.len() == before.len(),
            i <= row@.len(),
            carry <= 1,
            forall|j: int| 0 <= j < row@.len() ==> row@[j] < 10,
            forall|j: int| i <= j < row@.len() ==> row@[j] == before[j],
            i > 0 && carry == 0 ==> row@[i - 1] >= before[i - 1],
            value(row@.take(i as int)) + carry * pow10(i as nat) == 2 * value(before.take(i as int)),
        decreases row@.len() - i,
    {
        let sum: u8 = row[i] + row[i] + carry;
        let ghost held = row@;
        proof {
            let d = before[i as int];
            assert(before.take(i + 1) =~= before.take(i as int).push(d));
            value_push(before.take(i as int), d);
            value_push(held.take(i as int), sum % 10);
            let p = pow10(i as nat);
            assert(2 * (d * p) + carry * p == (sum % 10) * p + (sum / 10) * (10 * p))
                by (nonlinear_arith)
                requires
                    2 * d + carry == (sum % 10) + 10 * (sum / 10),
            ;
        }
        row[i] = sum % 10;
        assert(row@.take(i + 1) =~= held.take(i as int).push(sum % 10));
        carry = sum / 10;
        i = i + 1;
    }
    assert(row@.take(i as int) =~= row@);
    assert(before.take(i as int) =~= before);
    if carry > 0 {
        proof {
            value_push(row@, carry);
        }
        row.push(carry);
    }
}

/// The number that the row stands for, in units of `10^-places`.
fn rendered(row: Vec<u8>, places: usize) -> (out: String)
    requires
        tidy(row@),
    ensures
        out@ == fixed(value(row@), places as nat),
{
    let ghost n = value(row@);
    let mut row = row;
    while row.len() <= places
        invariant
            value(row@) == n,
            forall|j: int| 0 <= j < row@.len() ==> row@[j] < 10,
            row@.len() > 0,
            tidy(row@) || row@.len() <= places + 1,
        decreases places + 1 - row@.len(),
    {
        proof {
            value_push(row@, 0);
        }
        row.push(0);
    }
    proof {
        row_splits(row@, places as nat);
        assert(tidy(row@.skip(places as int)));
        tidy_row_is_digits(row@.skip(places as int));
    }
    let mut out = String::new();
    let mut i: usize = row.len();
    while i > places
        invariant
            places <= i <= row@.len(),
            forall|j: int| 0 <= j < row@.len() ==> row@[j] < 10,
            out@ == from_high(row@.skip(i as int)),
        decreases i,
    {
        assert(row@.skip(i - 1).drop_first() =~= row@.skip(i as int));
        out.push(digit_of(row[i - 1]));
        i = i - 1;
    }
    if places > 0 {
        out.push('.');
        let ghost whole = out@;
        assert(row@.subrange(i as int, places as int) =~= Seq::empty());
        while i > 0
            invariant
                i <= places <= row@.len(),
                forall|j: int| 0 <= j < row@.len() ==> row@[j] < 10,
                out@ == whole + from_high(row@.subrange(i as int, places as int)),
            decreases i,
        {
            assert(row@.subrange(i - 1, places as int).drop_first() =~= row@.subrange(
                i as int,
                places as int,
            ));
            out.push(digit_of(row[i - 1]));
            i = i - 1;
            assert(out@ =~= whole + from_high(row@.subrange(i as int, places as int)));
        }
        assert(row@.subrange(0, places as int) =~= row@.take(places as int));
        assert(out@ =~= fixed(n, places as nat));
    } else {
        assert(pow10(0) == 1);
        assert(n / 1 == n);
    }
    out
}

// ---------------------------------------------------------------------------
// Figures
// ---------------------------------------------------------------------------

impl Figure {
    /// The exponent field of the pattern.
    pub open spec fn exponent_field(self) -> int {
        self.magnitude() / 0x10_0000_0000_0000
    }

    /// The size of a finite figure is `mantissa * 2^exponent`.
    pub open spec fn mantissa(self) -> nat {
        let fraction = (self.magnitude() % 0x10_0000_0000_0000) as nat;
        if self.exponent_field() == 0 {
            fraction
        } else {
            fraction + 0x10_0000_0000_0000
        }
    }

    pub open spec fn exponent(self) -> int {
        if self.exponent_field() == 0 {
            -1074
        } else {
            self.exponent_field() - 1075
        }
    }

    /// Neither infinite nor undefined.
    pub open spec fn finite(self) -> bool {
        self.magnitude() < INFINITY_BITS
    }
}

/// The nearest whole number to the size of `f` times `10^places`.
pub open spec fn scaled(f: Figure, places: nat) -> nat {
    if f.exponent() >= 0 {
        f.mantissa() * pow10(places) * pow2(f.exponent() as nat)
    } else {
        half_even(f.mantissa() * pow10(places), pow2((-f.exponent()) as nat))
    }
}

/// A figure in decimal with a fixed number of places.
pub open spec fn figure_text(f: Figure, places: nat) -> Seq<char> {
    if f.nan() {
        "NaN"@
    } else {
        let sign = if f.bits >= SIGN_BIT {
            seq!['-']
        } else {
            Seq::empty()
        };
        if f.finite() {
            sign + fixed(scaled(f, places), places)
        } else {
            sign + "inf"@
        }
    }
}

/// `n / d` rounded to the nearest whole number, a tie to the even one.
pub fn rounded(n: u128, d: u128) -> (res: u128)
    requires
        d > 1,
        n < 0x8000_0000_0000_0000_0000_0000_0000_0000,
        d < 0x8000_0000_0000_0000_0000_0000_0000_0000,
    ensures
        res == half_even(n as nat, d as nat),
{
    let q: u128 = n / d;
    let r: u128 = n % d;
    assert(q <= n) by (nonlinear_arith)
        requires
            q == n / d,
            d > 1,
            n >= 0,
    ;
    if 2 * r > d || (2 * r == d && q % 2 == 1) {
        q + 1
    } else {
        q
    }
}

fn two_to(k: u64) -> (res: u64)
    requires
        k < 64,
    ensures
        res == pow2(k as nat),
        res > 0,
        k > 0 ==> res > 1,
{
    let mut res: u64 = 1;
    let mut i: u64 = 0;
    proof {
        lemma2_to64();
    }
    while i < k
        invariant
            i <= k < 64,
            res == pow2(i as nat),
            res > 0,
            i > 0 ==> res > 1,
        decreases k - i,
    {
        proof {
            lemma_pow2_unfold((i + 1) as nat);
            lemma2_to64();
            lemma_pow2_strictly_increases((i + 1) as nat, 64);
        }
        res = res * 2;
        i = i + 1;
    }
    res
}

/// The digits of the nearest whole number to the size of `f` times
/// `10^places`.
fn scaled_row(f: Figure, places: usize) -> (row: Vec<u8>)
    requires
        f.finite(),
        places <= 3,
    ensures
        tidy(row@),
        value(row@) == scaled(f, places as nat),
{
    let size: u64 = if f.bits >= SIGN_BIT {
        f.bits - SIGN_BIT
    } else {
        f.bits
    };
    let field: u64 = size / 0x10_0000_0000_0000;
    let fraction: u64 = size % 0x10_0000_0000_0000;
    let mantissa: u64 = if field == 0 {
        fraction
    } else {
        fraction + 0x10_0000_0000_0000
    };
    let factor: u64 = if places == 0 {
        1
    } else if places == 1 {
        10
    } else if places == 2 {
        100
    } else {
        1000
    };
    proof {
        reveal_with_fuel(pow10, 4);
    }
    assert(factor == pow10(places as nat));
    assert(mantissa * factor < 0x20_0000_0000_0000 * 1000) by (nonlinear_arith)
        requires
            mantissa < 0x20_0000_0000_0000,
            0 < factor <= 1000,
    ;
    let product: u64 = mantissa * factor;
    if field >= 1075 {
        let mut row = row_of(product);
        let doublings: u64 = field - 1075;
        let mut i: u64 = 0;
        proof {
            lemma2_to64();
        }
        while i < doublings
            invariant
                i <= doublings,
                tidy(row@),
                value(row@) == product * pow2(i as nat),
            decreases doublings - i,
        {
            proof {
                lemma_pow2_unfold((i + 1) as nat);
                let p = pow2(i as nat);
                assert(2 * (product * p) == product * (2 * p)) by (nonlinear_arith);
            }
            double(&mut row);
            i = i + 1;
        }
        row
    } else {
        let halvings: u64 = if field == 0 {
            1074
        } else {
            1075 - field
        };
        if halvings < 64 {
            let d: u64 = two_to(halvings);
            let whole: u128 = rounded(product as u128, d as u128);
            assert(whole <= product + 1) by {
                assert(product as nat / d as nat <= product) by (nonlinear_arith)
                    requires
                        d > 0,
                ;
            }
            row_of(whole as u64)
        } else {
            proof {
                lemma2_to64();
                if halvings > 64 {
                    lemma_pow2_strictly_increases(64, halvings as nat);
                }
                let d = pow2(halvings as nat);
                vstd::arithmetic::div_mod::lemma_basic_div(product as int, d as int);
                vstd::arithmetic::div_mod::lemma_small_mod(product as nat, d);
            }
            row_of(0)
        }
    }
}

/// A figure in decimal with a fixed number of places.
pub fn figure_decimal(f: Figure, places: usize) -> (out: String)
    requires
        places <= 3,
    ensures
        out@ == figure_text(f, places as nat),
{
    if f.is_nan() {
        return "NaN".to_owned();
    }
    let mut out = String::new();
    if f.bits >= SIGN_BIT {
        out.push('-');
    }
    let ghost sign = out@;
    if f.bits == INFINITY_BITS || f.bits == SIGN_BIT + INFINITY_BITS {
        out.append("inf");
    } else {
        out.append(rendered(scaled_row(f, places), places).as_str());
    }
    out
}

} // verus!
