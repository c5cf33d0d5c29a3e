//! Numbers as they are written, and the texts made of them.

use vstd::arithmetic::div_mod::{lemma_fundamental_div_mod, lemma_fundamental_div_mod_converse};
use vstd::arithmetic::power2::{lemma2_to64, lemma2_to64_rest, lemma_pow2_adds, lemma_pow2_pos, pow2};
use vstd::prelude::*;

use crate::arithmetic::{quotient, whole};
use crate::decimal::{digit, digits, figure_text, fixed, half_even, last_digits, pow10, scaled, signed_digits};
use crate::exact::{dyadic, dyadics_are_exact, dyadics_order, dyadics_shift, half_even_is_nearest, nearest_to, pattern_of_whole, short, wholes_are_dyadics};
use crate::figure::figure_of;
use crate::laws::sums::icon_marks;
use crate::models::{Aggregate, MonitorSnapshot};
use crate::readout::{bytes_text, decimal_below_hundred, in_unit, menu_bar_rate_text, rate_text, uptime_text, GB_BITS, KB_BITS, MB_BITS, TB_BITS};
use crate::text::cut_to;
use crate::tray::{menu_bar, tooltip};

verus! {

/// The number that some digits write.
pub open spec fn number_written(s: Seq<char>) -> int
    decreases s.len(),
{
    if s.len() == 0 {
        0
    } else {
        10 * number_written(s.drop_last()) + (s.last() as u32 - 48)
    }
}

/// Whether a text is of digits alone.
pub open spec fn only_digits(s: Seq<char>) -> bool {
    forall|i: int| 0 <= i < s.len() ==> 48 <= #[trigger] s[i] as u32 <= 57
}

proof fn one_digit(d: int)
    requires
        0 <= d < 10,
    ensures
        digit(d) as u32 == 48 + d,
{
}

/// Written digits say their number: they are digits alone, the first is no zero
/// but for zero itself, and they read back as the number.
pub proof fn digits_read_back(n: nat)
    ensures
        number_written(digits(n)) == n,
        only_digits(digits(n)),
        digits(n).len() > 0,
        n > 0 ==> digits(n)[0] != '0',
    decreases n,
{
    one_digit((n % 10) as int);
    if n < 10 {
        let s = digits(n);
        reveal_with_fuel(number_written, 2);
        assert(s.drop_last() =~= Seq::empty());
        one_digit(n as int);
        assert('0' as u32 == 48);
    } else {
        digits_read_back(n / 10);
        let (s, front) = (digits(n), digits(n / 10));
        assert(s.drop_last() =~= front);
        assert(s[0] == front[0]);
        assert forall|i: int| 0 <= i < s.len() implies 48 <= #[trigger] s[i] as u32 <= 57 by {
            if i < front.len() {
                assert(s[i] == front[i]);
            }
        }
    }
}

/// A number below zero is written behind a minus sign.
pub proof fn signs_stand_in_front(n: int)
    ensures
        n >= 0 ==> signed_digits(n) == digits(n as nat),
        n < 0 ==> signed_digits(n)[0] == '-' && signed_digits(n).skip(1) == digits((-n) as nat),
{
    if n < 0 {
        assert(signed_digits(n).skip(1) =~= digits((-n) as nat));
    }
}

/// The last digits of a number are so many, and say what is over of it.
pub proof fn last_digits_read_back(n: nat, count: nat)
    ensures
        last_digits(n, count).len() == count,
        only_digits(last_digits(n, count)),
        pow10(count) > 0,
        number_written(last_digits(n, count)) == n % pow10(count),
    decreases count,
{
    if count > 0 {
        let rest = (count - 1) as nat;
        last_digits_read_back(n / 10, rest);
        one_digit((n % 10) as int);
        let (s, front) = (last_digits(n, count), last_digits(n / 10, rest));
        assert(s.drop_last() =~= front);
        let p = pow10(rest);
        let (q, r) = ((n / 10) / p, (n / 10) % p);
        lemma_fundamental_div_mod((n / 10) as int, p as int);
        assert(n == q * (10 * p) + (10 * r + n % 10)) by (nonlinear_arith)
            requires
                n / 10 == p * q + r,
                n == 10 * (n / 10) + n % 10,
        ;
        lemma_fundamental_div_mod_converse(
            n as int,
            (10 * p) as int,
            q as int,
            (10 * r + n % 10) as int,
        );
        assert forall|i: int| 0 <= i < s.len() implies 48 <= #[trigger] s[i] as u32 <= 57 by {
            if i < front.len() {
                assert(s[i] == front[i]);
            }
        }
    } else {
        assert(n % 1 == 0);
    }
}

/// A number of tenths, hundredths and so on is written with so many digits after
/// a point: those before it and those after it say the number together.
pub proof fn fractions_read_back(n: nat, places: nat)
    requires
        places > 0,
    ensures
        ({
            let s = fixed(n, places);
            let at = s.len() - places - 1;
            &&& at > 0
            &&& s[at] == '.'
            &&& only_digits(s.take(at))
            &&& only_digits(s.skip(at + 1))
            &&& s.skip(at + 1).len() == places
            &&& number_written(s.take(at)) * pow10(places) + number_written(s.skip(at + 1)) == n
        }),
{
    let s = fixed(n, places);
    let at = s.len() - places - 1;
    last_digits_read_back(n, places);
    digits_read_back(n / pow10(places));
    let (a, b) = (digits(n / pow10(places)), last_digits(n, places));
    assert(s.take(at) =~= a);
    assert(s.skip(at + 1) =~= b);
    lemma_fundamental_div_mod(n as int, pow10(places) as int);
    let (q, p) = (n / pow10(places), pow10(places));
    assert(q * p == p * q) by (nonlinear_arith);
}

proof fn half_even_scales(n: nat, d: nat, c: nat)
    requires
        d > 0,
        c > 0,
    ensures
        half_even(n * c, d * c) == half_even(n, d),
{
    let (q, r) = (n / d, n % d);
    lemma_fundamental_div_mod(n as int, d as int);
    assert(n * c == q * (d * c) + r * c) by (nonlinear_arith)
        requires
            n == d * q + r,
    ;
    assert(0 <= r * c < d * c) by (nonlinear_arith)
        requires
            0 <= r < d,
            c > 0,
    ;
    lemma_fundamental_div_mod_converse((n * c) as int, (d * c) as int, q as int, (r * c) as int);
    assert(2 * (r * c) > d * c <==> 2 * r > d) by (nonlinear_arith)
        requires
            c > 0,
    ;
    assert(2 * (r * c) == d * c <==> 2 * r == d) by (nonlinear_arith)
        requires
            c > 0,
    ;
}

/// A figure of `n / 2^j` with some digits after the point is written as the
/// nearest number of tenths, hundredths and so on to it.
pub proof fn figures_are_written_to_the_nearest(n: nat, j: nat, places: nat)
    requires
        short(n as int),
        j <= 1000,
    ensures
        exists|k: nat|
            #[trigger] fixed(k, places) == figure_text(dyadic(n as int, j), places) && nearest_to(
                k,
                n * pow10(places),
                pow2(j),
            ),
{
    let f = dyadic(n as int, j);
    let m = f.mantissa();
    let e = f.exponent();
    let ten = pow10(places);
    dyadics_are_exact(n as int, j);
    lemma_pow2_pos(j);
    let (d, r) = (pow2(j), pow2((1074 - j) as nat));
    lemma_pow2_pos((1074 - j) as nat);
    lemma_pow2_adds(j, (1074 - j) as nat);
    lemma_pow2_pos(1074);
    let x = (e + 1074) as nat;
    let t = pow2(1074);
    lemma_pow2_pos(x);
    // The size of the figure is m 2^x / 2^1074, and that is n / 2^j.
    half_even_scales(n * ten, d, r);
    assert((n * ten) * r == (m * pow2(x)) * ten) by (nonlinear_arith)
        requires
            n * r == m * pow2(x),
    ;
    let k = scaled(f, places);
    if e >= 0 {
        lemma_pow2_adds(e as nat, 1074);
        let c = m * ten * pow2(e as nat);
        assert((m * (pow2(e as nat) * t)) * ten == c * t) by (nonlinear_arith)
            requires
                c == m * ten * pow2(e as nat),
        ;
        crate::arithmetic::half_even_exact(c, t);
    } else {
        lemma_pow2_adds(x, (-e) as nat);
        half_even_scales(m * ten, pow2((-e) as nat), pow2(x));
        lemma_pow2_pos((-e) as nat);
        assert((m * pow2(x)) * ten == (m * ten) * pow2(x)) by (nonlinear_arith);
        assert(pow2(x) * pow2((-e) as nat) == pow2((-e) as nat) * pow2(x)) by (nonlinear_arith);
    }
    assert(k == half_even(n * ten, d));
    half_even_is_nearest(n * ten, d);
    assert(figure_text(f, places) =~= fixed(k, places));
}

/// A whole number is written without a point as its digits.
pub proof fn whole_figures_are_their_digits(n: nat)
    requires
        short(n as int),
    ensures
        figure_text(whole(n), 0) == digits(n),
{
    lemma2_to64();
    wholes_are_dyadics(n as int);
    figures_are_written_to_the_nearest(n, 0, 0);
    let k = choose|k: nat|
        #[trigger] fixed(k, 0) == figure_text(dyadic(n as int, 0), 0) && nearest_to(
            k,
            n * pow10(0),
            pow2(0),
        );
    assert(pow10(0) == 1);
    assert(n * 1 == n);
    assert((2 * k - 1) * 1 <= 2 * n && 2 * n <= (2 * k + 1) * 1);
}

/// The units of sizes are powers of 1,024.
pub proof fn units_are_powers()
    ensures
        figure_of(KB_BITS) == whole(0x400),
        figure_of(MB_BITS) == whole(0x10_0000),
        figure_of(GB_BITS) == whole(0x4000_0000),
        figure_of(TB_BITS) == whole(0x100_0000_0000),
        pow2(10) == 0x400,
        pow2(20) == 0x10_0000,
        pow2(30) == 0x4000_0000,
        pow2(40) == 0x100_0000_0000,
{
    lemma2_to64();
    lemma2_to64_rest();
    pattern_of_whole(KB_BITS, 0x400, 42);
    pattern_of_whole(MB_BITS, 0x10_0000, 32);
    pattern_of_whole(GB_BITS, 0x4000_0000, 22);
    pattern_of_whole(TB_BITS, 0x100_0000_0000, 12);
}

proof fn in_powers(n: nat, i: nat, k: nat, bits: u64, places: nat, unit: Seq<char>)
    requires
        short(n as int),
        figure_of(bits) == whole(pow2(k)),
        short(pow2(k) as int),
        i + k <= 1000,
    ensures
        says(
            in_unit(dyadic(n as int, i), bits, places, unit),
            n,
            pow2(i + k),
            places,
            unit,
        ),
{
    dyadics_shift(n, i, k);
    figures_are_written_to_the_nearest(n, i + k, places);
    let v = choose|v: nat|
        #[trigger] fixed(v, places) == figure_text(dyadic(n as int, i + k), places) && nearest_to(
            v,
            n * pow10(places),
            pow2(i + k),
        );
    assert(in_unit(dyadic(n as int, i), bits, places, unit) == fixed(v, places) + unit);
}

/// Whether a text is the nearest number of parts of `n / d`, with so many digits
/// after the point, and a unit.
pub open spec fn says(text: Seq<char>, n: nat, d: nat, places: nat, unit: Seq<char>) -> bool {
    exists|v: nat|
        text == #[trigger] fixed(v, places) + unit && nearest_to(v, n * pow10(places), d)
}

proof fn against(n: nat, i: nat, k: nat)
    requires
        short(n as int),
        i <= 10,
        k <= 40,
    ensures
        pow2(i + k) == pow2(i) * pow2(k),
        dyadic(n as int, i).below(whole(pow2(k))) <==> n < pow2(i + k),
{
    lemma2_to64();
    lemma2_to64_rest();
    lemma_pow2_adds(i, k);
    lemma_pow2_adds(i + k, (50 - i - k) as nat);
    lemma_pow2_pos((50 - i - k) as nat);
    let d = pow2(i + k);
    assert(d <= 0x4_0000_0000_0000) by (nonlinear_arith)
        requires
            d * pow2((50 - i - k) as nat) == 0x4_0000_0000_0000,
            pow2((50 - i - k) as nat) > 0,
            d >= 0,
    ;
    crate::exact::finer_parts(pow2(k) as int, 0, i);
    assert(pow2(k) * pow2(i) == pow2(i) * pow2(k)) by (nonlinear_arith);
    dyadics_order(n as int, d as int, i);
}

/// A rate of `n / 2^i` bytes per second is written in bytes below 1,024, in KB
/// with one digit after the point below 1,024 times that, and in MB and GB with
/// two, each time as the nearest such number.
pub proof fn rates_are_written_in_their_unit(n: nat, i: nat)
    requires
        short(n as int),
        i <= 10,
    ensures
        ({
            let text = rate_text(dyadic(n as int, i));
            &&& n < pow2(i + 10) ==> says(text, n, pow2(i), 0, "B/s"@)
            &&& pow2(i + 10) <= n < pow2(i + 20) ==> says(text, n, pow2(i + 10), 1, "KB/s"@)
            &&& pow2(i + 20) <= n < pow2(i + 30) ==> says(text, n, pow2(i + 20), 2, "MB/s"@)
            &&& pow2(i + 30) <= n ==> says(text, n, pow2(i + 30), 2, "GB/s"@)
        }),
        n < 0x400 ==> rate_text(whole(n)) == digits(n) + "B/s"@,
{
    icon_marks();
    units_are_powers();
    dyadics_are_exact(0, i);
    dyadics_order(n as int, 0, i);
    against(n, i, 10);
    against(n, i, 20);
    against(n, i, 30);
    plain(n, i, "B/s"@);
    in_powers(n, i, 10, KB_BITS, 1, "KB/s"@);
    in_powers(n, i, 20, MB_BITS, 2, "MB/s"@);
    in_powers(n, i, 30, GB_BITS, 2, "GB/s"@);
    if n < 0x400 {
        wholes_are_dyadics(n as int);
        dyadics_order(n as int, 0, 0);
        dyadics_order(n as int, 0x400, 0);
        whole_figures_are_their_digits(n);
    }
}

proof fn plain(n: nat, i: nat, unit: Seq<char>)
    requires
        short(n as int),
        i <= 1000,
    ensures
        says(figure_text(dyadic(n as int, i), 0) + unit, n, pow2(i), 0, unit),
{
    figures_are_written_to_the_nearest(n, i, 0);
    let v = choose|v: nat|
        #[trigger] fixed(v, 0) == figure_text(dyadic(n as int, i), 0) && nearest_to(
            v,
            n * pow10(0),
            pow2(i),
        );
    assert(figure_text(dyadic(n as int, i), 0) + unit == fixed(v, 0) + unit);
}

/// A rate below zero is written as none.
pub proof fn rates_below_zero_are_none(n: int)
    requires
        short(n),
        n < 0,
    ensures
        rate_text(dyadic(n, 0)) == "0B/s"@,
        menu_bar_rate_text(dyadic(n, 0)) == "0 B/s"@,
{
    icon_marks();
    dyadics_order(n, 0, 0);
}

/// A size in bytes is written in its digits below 1,024, and else in KB with one
/// digit after the point, or in MB, GB and TB with two.
pub proof fn sizes_are_written_in_their_unit(n: u64)
    requires
        n < 0x20_0000_0000_0000,
    ensures
        n < 0x400 ==> bytes_text(n) == digits(n as nat) + "B"@,
        0x400 <= n < 0x10_0000 ==> says(bytes_text(n), n as nat, 0x400, 1, "KB"@),
        0x10_0000 <= n < 0x4000_0000 ==> says(bytes_text(n), n as nat, 0x10_0000, 2, "MB"@),
        0x4000_0000 <= n < 0x100_0000_0000 ==> says(bytes_text(n), n as nat, 0x4000_0000, 2, "GB"@),
        0x100_0000_0000 <= n ==> says(bytes_text(n), n as nat, 0x100_0000_0000, 2, "TB"@),
{
    units_are_powers();
    dyadics_order(n as int, 0x400, 0);
    dyadics_order(n as int, 0x10_0000, 0);
    dyadics_order(n as int, 0x4000_0000, 0);
    dyadics_order(n as int, 0x100_0000_0000, 0);
    wholes_are_dyadics(n as int);
    in_powers(n as nat, 0, 10, KB_BITS, 1, "KB"@);
    in_powers(n as nat, 0, 20, MB_BITS, 2, "MB"@);
    in_powers(n as nat, 0, 30, GB_BITS, 2, "GB"@);
    in_powers(n as nat, 0, 40, TB_BITS, 2, "TB"@);
}

/// A time of days, hours, minutes and seconds is written in its two largest
/// parts from the days down, and in minutes below an hour.
pub proof fn uptimes_are_written_in_their_parts(d: nat, h: nat, m: nat, s: nat, secs: u64)
    requires
        secs == 86_400 * d + 3_600 * h + 60 * m + s,
        h < 24,
        m < 60,
        s < 60,
    ensures
        d > 0 ==> uptime_text(secs) == digits(d) + "天"@ + digits(h) + "小时"@,
        d == 0 && h > 0 ==> uptime_text(secs) == digits(h) + "小时"@ + digits(m) + "分"@,
        d == 0 && h == 0 ==> uptime_text(secs) == digits(m) + "分钟"@,
{
    let n = secs as nat;
    lemma_fundamental_div_mod_converse(n as int, 86_400, d as int, (3_600 * h + 60 * m + s) as int);
    lemma_fundamental_div_mod_converse(
        (3_600 * h + 60 * m + s) as int,
        3_600,
        h as int,
        (60 * m + s) as int,
    );
    lemma_fundamental_div_mod_converse(n as int, 3_600, (24 * d + h) as int, (60 * m + s) as int);
    lemma_fundamental_div_mod_converse((60 * m + s) as int, 60, m as int, s as int);
}

/// In the menu bar a rate of `n / 2^i` has no digit after the point below a MB,
/// and from there on one below 100 and none above.
pub proof fn menu_bar_rates_are_short(n: nat, i: nat)
    requires
        short(n as int),
        i <= 10,
    ensures
        ({
            let text = menu_bar_rate_text(dyadic(n as int, i));
            let (kb, mb, gb) = (pow2(i + 10), pow2(i + 20), pow2(i + 30));
            &&& n < kb ==> says(text, n, pow2(i), 0, " B/s"@)
            &&& kb <= n < mb ==> says(text, n, kb, 0, " KB/s"@)
            &&& mb <= n < gb && n < 100 * mb ==> says(text, n, mb, 1, " MB/s"@)
            &&& mb <= n < gb && 100 * mb <= n ==> says(text, n, mb, 0, " MB/s"@)
            &&& gb <= n < 100 * gb ==> says(text, n, gb, 1, " GB/s"@)
            &&& gb <= n && 100 * gb <= n ==> says(text, n, gb, 0, " GB/s"@)
        }),
{
    icon_marks();
    units_are_powers();
    dyadics_are_exact(0, i);
    dyadics_order(n as int, 0, i);
    against(n, i, 10);
    against(n, i, 20);
    against(n, i, 30);
    plain(n, i, " B/s"@);
    in_powers(n, i, 10, KB_BITS, 0, " KB/s"@);
    below_hundred(n, i, 20, MB_BITS, "MB/s"@, " MB/s"@);
    below_hundred(n, i, 30, GB_BITS, "GB/s"@, " GB/s"@);
    reveal_strlit(" ");
    reveal_strlit("MB/s");
    reveal_strlit(" MB/s");
    reveal_strlit("GB/s");
    reveal_strlit(" GB/s");
    assert(" "@ + "MB/s"@ =~= " MB/s"@);
    assert(" "@ + "GB/s"@ =~= " GB/s"@);
}

proof fn below_hundred(n: nat, i: nat, k: nat, bits: u64, unit: Seq<char>, spaced: Seq<char>)
    requires
        short(n as int),
        figure_of(bits) == whole(pow2(k)),
        i <= 10,
        k <= 30,
        short(pow2(k) as int),
    ensures
        ({
            let text = decimal_below_hundred(quotient(dyadic(n as int, i), figure_of(bits)), unit);
            let d = pow2(i + k);
            &&& " "@ + unit == spaced && n < 100 * d ==> says(text, n, d, 1, spaced)
            &&& " "@ + unit == spaced && n >= 100 * d ==> says(text, n, d, 0, spaced)
        }),
{
    icon_marks();
    lemma2_to64();
    lemma2_to64_rest();
    let d = pow2(i + k);
    lemma_pow2_adds(i + k, (40 - i - k) as nat);
    lemma_pow2_pos((40 - i - k) as nat);
    assert(d <= 0x100_0000_0000) by (nonlinear_arith)
        requires
            d * pow2((40 - i - k) as nat) == 0x100_0000_0000,
            pow2((40 - i - k) as nat) > 0,
            d >= 0,
    ;
    dyadics_shift(n, i, k);
    crate::exact::finer_parts(100, 0, i + k);
    dyadics_order(n as int, 100 * d as int, i + k);
    if " "@ + unit == spaced {
        in_powers(n, i, k, bits, 1, spaced);
        in_powers(n, i, k, bits, 0, spaced);
        let value = quotient(dyadic(n as int, i), figure_of(bits));
        assert(figure_text(value, 1) + " "@ + unit =~= figure_text(value, 1) + spaced);
        assert(figure_text(value, 0) + " "@ + unit =~= figure_text(value, 0) + spaced);
    }
}

proof fn last_part(a: Seq<char>, b: Seq<char>)
    ensures
        b.is_suffix_of(a + b),
        a.is_prefix_of(a + b),
{
    assert((a + b).skip(a.len() as int) =~= b);
    assert((a + b).take(a.len() as int) =~= a);
}

/// The menu bar has the upload on its first line and the download on its second.
pub proof fn the_menu_bar_has_two_lines(agg: Aggregate)
    ensures
        ("↑\t"@ + menu_bar_rate_text(agg.net_up) + "\n"@).is_prefix_of(menu_bar(agg)),
        ("↓\t"@ + menu_bar_rate_text(agg.net_down)).is_suffix_of(menu_bar(agg)),
{
    reveal_strlit("\n");
    reveal_strlit("↓\t");
    reveal_strlit("\n↓\t");
    assert("\n↓\t"@ =~= "\n"@ + "↓\t"@);
    let (up, down) = (menu_bar_rate_text(agg.net_up), menu_bar_rate_text(agg.net_down));
    let first = "↑\t"@ + up + "\n"@;
    let second = "↓\t"@ + down;
    assert(menu_bar(agg) =~= first + second);
    last_part(first, second);
}

/// The tooltip begins with how many nodes of how many are online and ends with
/// the upload and the download; the CPU and the memory stand between.
pub proof fn tooltips_tell_the_sums(snap: MonitorSnapshot, agg: Aggregate)
    requires
        snap.backend_ok,
    ensures
        ("Hotaru · 在线 "@ + digits(agg.online as nat) + "/"@ + digits(
            agg.total as nat,
        )).is_prefix_of(tooltip(snap, agg)),
        ("\n↑"@ + rate_text(agg.net_up) + " ↓"@ + rate_text(agg.net_down)).is_suffix_of(
            tooltip(snap, agg),
        ),
        exists|a: Seq<char>, b: Seq<char>|
            tooltip(snap, agg) == #[trigger] (a + ("\nCPU "@ + figure_text(agg.cpu, 0)
                + "% · 内存 "@ + figure_text(agg.mem_pct, 0) + "%"@) + b),
{
    let first = "Hotaru · 在线 "@ + digits(agg.online as nat) + "/"@ + digits(agg.total as nat);
    let second = "\nCPU "@ + figure_text(agg.cpu, 0) + "% · 内存 "@ + figure_text(agg.mem_pct, 0)
        + "%"@;
    let third = "\n↑"@ + rate_text(agg.net_up) + " ↓"@ + rate_text(agg.net_down);
    reveal_strlit("%");
    reveal_strlit("\n↑");
    reveal_strlit("%\n↑");
    assert("%\n↑"@ =~= "%"@ + "\n↑"@);
    assert(tooltip(snap, agg) =~= first + second + third);
    last_part(first, second + third);
    assert(first + (second + third) =~= first + second + third);
    last_part(first + second, third);
}

/// Without a backend the tooltip ends with why, up to 90 characters of it.
pub proof fn tooltips_tell_what_went_wrong(snap: MonitorSnapshot, agg: Aggregate)
    requires
        !snap.backend_ok,
    ensures
        snap.error is Some && snap.error.unwrap()@.len() <= 90 ==> snap.error.unwrap()@.is_suffix_of(
            tooltip(snap, agg),
        ),
        "Hotaru · 后端不可达\n"@.is_prefix_of(tooltip(snap, agg)),
{
    let head = "Hotaru · 后端不可达\n"@;
    if snap.error is Some {
        last_part(head, cut_to(snap.error.unwrap()@, 90));
    } else {
        last_part(head, cut_to("后端不可达"@, 90));
    }
}

/// A text cut to a length keeps what fits before the sign that it goes on.
pub proof fn cut_texts_go_on(s: Seq<char>, max: nat)
    ensures
        s.len() <= max ==> cut_to(s, max) == s,
        s.len() > max && max > 0 ==> cut_to(s, max).len() == max && cut_to(s, max).last()
            == '\u{2026}' && cut_to(s, max).take(max - 1) == s.take(max - 1),
{
    if s.len() > max && max > 0 {
        assert(cut_to(s, max).take(max - 1) =~= s.take(max - 1));
    }
}

/// A figure below zero is written as the one above it behind a minus sign.
pub proof fn figures_below_zero_have_a_sign(n: nat, j: nat, places: nat)
    requires
        0 < n,
        short(n as int),
        j <= 1000,
    ensures
        figure_text(dyadic(-(n as int), j), places) == seq!['-'] + figure_text(
            dyadic(n as int, j),
            places,
        ),
{
    dyadics_are_exact(n as int, j);
    dyadics_are_exact(-(n as int), j);
    let (f, g) = (dyadic(n as int, j), dyadic(-(n as int), j));
    assert(f.magnitude() == g.magnitude());
    assert(figure_text(f, places) =~= fixed(scaled(f, places), places));
}

} // verus!
