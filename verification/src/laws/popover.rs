//! The popover's sizes and places, in whole pixels and exact fractions.

use vstd::arithmetic::div_mod::lemma_fundamental_div_mod;
use vstd::arithmetic::power2::{lemma2_to64, lemma2_to64_rest, lemma_pow2_adds, lemma_pow2_pos, pow2};
use vstd::prelude::*;

use crate::arithmetic::{cut_to_range, product, quotient, signed_whole, sum, whole};
use crate::exact::{cut_off, dyadic, dyadics_add, dyadics_are_cut, dyadics_are_exact, dyadics_divide, dyadics_halve, dyadics_multiply, dyadics_order, dyadics_round, finer_parts, held_in, parts_divide, pattern_of_whole, products_are_bracketed, quotients_are_bracketed, same_from_both_sides, short, whole_rounding_keeps_order, wholes_are_cut};
use crate::figure::{figure_of, Figure, ONE_BITS};
use crate::window_geometry::WorkArea;
use crate::windows::{chart_height, height_within, on_monitor, pixels_high, pixels_left, place_on, probe_of, resize_on, room_left, top_after_resize, MonitorRect, WindowRect, CHART_FOOT_BITS, CHART_GAP_BITS, CHART_HEAD_BITS, CHART_MAX_H_BITS, CHART_MIN_H_BITS, CHART_ROW_BITS, CHART_SCREEN_MARGIN_BITS, CHART_W_BITS, TWO_BITS};

verus! {

/// The popover's measures: 320 wide, from 300 to 900 high, 80 of the screen left
/// free, 6 from its icon, and 270 and 32 for each row high.
pub proof fn popover_measures()
    ensures
        figure_of(ONE_BITS) == whole(1),
        figure_of(TWO_BITS) == whole(2),
        figure_of(CHART_W_BITS) == whole(320),
        figure_of(CHART_MIN_H_BITS) == whole(300),
        figure_of(CHART_MAX_H_BITS) == whole(900),
        figure_of(CHART_SCREEN_MARGIN_BITS) == whole(80),
        figure_of(CHART_HEAD_BITS) == whole(224),
        figure_of(CHART_ROW_BITS) == whole(32),
        figure_of(CHART_FOOT_BITS) == whole(46),
        figure_of(CHART_GAP_BITS) == whole(6),
{
    lemma2_to64();
    lemma2_to64_rest();
    pattern_of_whole(ONE_BITS, 1, 52);
    pattern_of_whole(TWO_BITS, 2, 51);
    pattern_of_whole(CHART_W_BITS, 320, 44);
    pattern_of_whole(CHART_MIN_H_BITS, 300, 44);
    pattern_of_whole(CHART_MAX_H_BITS, 900, 43);
    pattern_of_whole(CHART_SCREEN_MARGIN_BITS, 80, 46);
    pattern_of_whole(CHART_HEAD_BITS, 224, 45);
    pattern_of_whole(CHART_ROW_BITS, 32, 47);
    pattern_of_whole(CHART_FOOT_BITS, 46, 47);
    pattern_of_whole(CHART_GAP_BITS, 6, 50);
}

/// A popover for `n` nodes asks for 270 and 32 for each, from 300 to 900.
pub proof fn popovers_have_a_row_for_each_node(n: int)
    requires
        0 <= n < 0x1_0000_0000,
    ensures
        chart_height(n as nat) == whole(held_in(270 + 32 * n, 300, 900) as nat),
{
    popover_measures();
    dyadics_multiply(n as nat, 0, 32, 0);
    dyadics_add(224, 32 * n, 0);
    dyadics_add(224 + 32 * n, 46, 0);
    dyadics_order(270 + 32 * n, 300, 0);
    dyadics_order(900, 270 + 32 * n, 0);
}

proof fn clamped_wholes(n: int, low: int, high: int, j: nat)
    requires
        short(n),
        short(low),
        short(high),
        j <= 1000,
    ensures
        low <= high ==> dyadic(n, j).clamped(dyadic(low, j), dyadic(high, j)) == dyadic(
            held_in(n, low, high),
            j,
        ),
        dyadic(n, j).larger(dyadic(low, j)) == dyadic(
            if n < low {
                low
            } else {
                n
            },
            j,
        ),
        dyadic(n, j).smaller(dyadic(low, j)) == dyadic(
            if low < n {
                low
            } else {
                n
            },
            j,
        ),
{
    dyadics_order(n, low, j);
    dyadics_order(low, n, j);
    dyadics_order(high, n, j);
    dyadics_are_exact(n, j);
    dyadics_are_exact(low, j);
}

/// With no monitor known a popover gets the height it asks for, here of `1 / 2^e`
/// parts, from 300 to 900; on a monitor of `m` parts it also leaves 80 free, but
/// is 300 high at least.
pub proof fn heights_fit_their_monitor(n: int, m: int, e: nat)
    requires
        0 <= n < 0x1_0000_0000,
        0 <= m < 0x1_0000_0000,
        e <= 16,
    ensures
        ({
            let d = pow2(e) as int;
            let h = if m <= 380 * d {
                300 * d
            } else if m < 980 * d {
                held_in(n, 300 * d, m - 80 * d)
            } else {
                held_in(n, 300 * d, 900 * d)
            };
            &&& height_within(dyadic(n, e), None) == dyadic(held_in(n, 300 * d, 900 * d), e)
            &&& height_within(dyadic(n, e), Some(dyadic(m, e))) == dyadic(h, e)
        }),
{
    popover_measures();
    let d = pow2(e) as int;
    edges(300, e);
    edges(900, e);
    edges(80, e);
    dyadics_add(m, 80 * d, e);
    clamped_wholes(900 * d, m - 80 * d, 900 * d, e);
    let most = if m - 80 * d < 900 * d {
        m - 80 * d
    } else {
        900 * d
    };
    clamped_wholes(300 * d, most, 900 * d, e);
    let top = if most < 300 * d {
        300 * d
    } else {
        most
    };
    clamped_wholes(n, 300 * d, top, e);
    clamped_wholes(n, 300 * d, 900 * d, e);
}

proof fn nearest_is_within_a_half(v: nat, d: nat)
    requires
        d > 0,
    ensures
        ({
            let h = (2 * v + d) / (2 * d);
            &&& h >= 0
            &&& (2 * h - 1) * d <= 2 * v
            &&& 2 * v < (2 * h + 1) * d
        }),
{
    let h = ((2 * v + d) / (2 * d)) as int;
    lemma_fundamental_div_mod((2 * v + d) as int, (2 * d) as int);
    let r = ((2 * v + d) % (2 * d)) as int;
    assert((2 * h - 1) * d == (2 * d) * h - d && (2 * h + 1) * d == (2 * d) * h + d)
        by (nonlinear_arith);
    assert(h >= 0) by {
        vstd::arithmetic::div_mod::lemma_div_pos_is_pos((2 * v + d) as int, (2 * d) as int);
    }
}

/// The pixels of a popover are its height times the window's scale, to the
/// nearest pixel and a half up: for a height of `p / 2^j` and a scale of
/// `q / 2^k` they lie within a half of `p q / 2^(j + k)`. There is one at least.
pub proof fn pixels_are_height_times_scale(p: nat, j: nat, q: nat, k: nat)
    requires
        p * q < 0x20_0000_0000_0000,
        short(p as int),
        short(q as int),
        j + k <= 1000,
    ensures
        ({
            let d = pow2(j + k);
            let pixels = pixels_high(dyadic(p as int, j), dyadic(q as int, k));
            exists|h: nat|
                {
                    &&& pixels == #[trigger] whole(h)
                    &&& 1 <= h < 0x20_0000_0000_0000
                    &&& h == 1 || (2 * h - 1) * d <= 2 * (p * q)
                    &&& 2 * (p * q) < (2 * h + 1) * d
                }
        }),
{
    let d = pow2(j + k);
    let pixels = pixels_high(dyadic(p as int, j), dyadic(q as int, k));
    lemma_pow2_pos(j + k);
    popover_measures();
    dyadics_multiply(p, j, q, k);
    dyadics_round(p * q, j + k);
    let h = ((2 * (p * q) + d) / (2 * d)) as nat;
    nearest_is_within_a_half(p * q, d);
    assert(h < 0x20_0000_0000_0000) by (nonlinear_arith)
        requires
            (2 * h - 1) * d <= 2 * (p * q),
            p * q < 0x20_0000_0000_0000,
            d >= 1,
    ;
    clamped_wholes(h as int, 1, 1, 0);
    if h < 1 {
        assert(pixels == whole(1));
        assert(2 * (p * q) < (2 * 1 + 1) * d) by (nonlinear_arith)
            requires
                2 * (p * q) < (2 * h + 1) * d,
                h < 1,
                d > 0,
        ;
    } else {
        assert(pixels == whole(h));
    }
}

/// So it is for whole heights and scales: twice the pixels at twice the scale.
pub proof fn whole_heights_have_their_pixels(n: nat, s: nat)
    requires
        0 < n,
        0 < s,
        n * s < 0x20_0000_0000_0000,
    ensures
        pixels_high(whole(n), whole(s)) == whole(n * s),
{
    lemma2_to64();
    assert(n <= n * s && s <= n * s) by (nonlinear_arith)
        requires
            n > 0,
            s > 0,
    ;
    pixels_are_height_times_scale(n, 0, s, 0);
    let pixels = pixels_high(whole(n), whole(s));
    let h = choose|h: nat|
        {
            &&& pixels == #[trigger] whole(h)
            &&& 1 <= h < 0x20_0000_0000_0000
            &&& h == 1 || (2 * h - 1) * pow2(0) <= 2 * (n * s)
            &&& 2 * (n * s) < (2 * h + 1) * pow2(0)
        };
}

/// For any height and scale the pixels are at least those of any exact number
/// that height times scale reaches, and at most those of any that it does not
/// pass: they are the nearest to `n / 2^j` from either side.
pub proof fn pixels_follow_height_times_scale(height: Figure, scale: Figure, n: nat, j: nat)
    requires
        height.finite(),
        scale.finite(),
        !height.negative(),
        !scale.negative(),
        short(n as int),
        j <= 1000,
    ensures
        ({
            let nearest = whole(((2 * n + pow2(j)) / (2 * pow2(j))) as nat);
            let exact = height.units() * scale.units();
            &&& n * pow2((2148 - j) as nat) <= exact ==> nearest.at_most(pixels_high(height, scale))
            &&& exact <= n * pow2((2148 - j) as nat) && whole(1).at_most(nearest) ==> pixels_high(
                height,
                scale,
            ).at_most(nearest)
        }),
{
    popover_measures();
    dyadics_round(n, j);
    dyadics_are_exact(n as int, j);
    products_are_bracketed(height, scale, n, j);
    let f = product(height, scale);
    let exact = height.units() * scale.units();
    lemma_pow2_pos(1074);
    crate::rounding::rounding_keeps_order(exact, pow2(1074), exact, pow2(1074));
    assert(!f.negative());
    if dyadic(n as int, j).at_most(f) {
        whole_rounding_keeps_order(dyadic(n as int, j), f);
    }
    if f.at_most(dyadic(n as int, j)) {
        whole_rounding_keeps_order(f, dyadic(n as int, j));
    }
}

/// The room of a popover is what is left of its work area on the side of the
/// icon that it grows to: from its top edge to the area's bottom where it hangs
/// below the icon, and from the area's top to its bottom edge where it does not;
/// an edge outside of the area counts as the area's own.
pub proof fn room_is_what_the_area_leaves(window: WindowRect, area: WorkArea)
    ensures
        area.y <= window.y ==> window.y + pixels_left(window, true, area) == area.y + area.height,
        window.y < area.y ==> pixels_left(window, true, area) == area.height,
        window.y + window.height <= area.y + area.height ==> area.y + pixels_left(
            window,
            false,
            area,
        ) == window.y + window.height,
        area.y + area.height < window.y + window.height ==> pixels_left(window, false, area)
            == area.height,
{
}

/// A popover in some pixels at a scale of `q / 2^k` gets the height that it asks
/// for, here of `1 / 2^e` parts, where that many points fit into the room, all of
/// the room where they do not, and 300 where it asks for less or less is left.
pub proof fn heights_fit_their_room(
    window: WindowRect,
    below: bool,
    n: nat,
    e: nat,
    q: nat,
    k: nat,
    r: nat,
    area: WorkArea,
    monitor: Option<MonitorRect>,
)
    requires
        n < 0x1_0000_0000,
        r < 0x1_0000_0000,
        e <= 16,
        0 < q < 0x1_0000,
        k <= 16,
        window.scale == dyadic(q as int, k),
        0 <= pixels_left(window, below, area),
    ensures
        ({
            let d = pow2(e);
            let room = pixels_left(window, below, area) * pow2(k) * d;
            let applied = resize_on(
                window,
                below,
                dyadic(n as int, e),
                Some(area),
                monitor,
            ).applied;
            &&& 300 * d <= n && n * q <= room ==> applied == dyadic(n as int, e)
            &&& 300 * d <= r <= n && r * q == room ==> applied == dyadic(r as int, e)
            &&& n <= 300 * d || room <= 300 * d * q ==> applied == whole(300)
            &&& 300 * d * q <= room && room <= r * q && r <= n ==> applied.at_most(
                dyadic(r as int, e),
            )
            &&& 300 * d <= r <= n && r * q <= room ==> dyadic(r as int, e).at_most(applied)
        }),
{
    let d = pow2(e);
    let left = pixels_left(window, below, area);
    let points = left * pow2(k);
    let f = room_left(window, below, area);
    edges(300, e);
    edges(0, k);
    lemma2_to64();
    lemma2_to64_rest();
    assert(0 <= points <= 0x1_0000_0000 * 0x1_0000) by (nonlinear_arith)
        requires
            0 <= left <= 0x1_0000_0000,
            0 < pow2(k) <= 0x1_0000,
            points == left * pow2(k),
    ;
    popover_measures();
    finer_parts(left, 0, k);
    parts_divide(points as nat, q, k);
    assert(f == quotient(whole(points as nat), whole(q)));
    let least = (300 * d) as nat;
    quotients_are_bracketed(points as nat, q, n, e);
    quotients_are_bracketed(points as nat, q, r, e);
    quotients_are_bracketed(points as nat, q, least, e);
    dyadics_order(n as int, least as int, e);
    dyadics_order(least as int, n as int, e);
    dyadics_order(r as int, n as int, e);
    dyadics_order(n as int, r as int, e);
    dyadics_order(r as int, least as int, e);
    dyadics_order(least as int, r as int, e);
    dyadics_are_exact(n as int, e);
    dyadics_are_exact(r as int, e);
    dyadics_are_exact(least as int, e);
    assert(least * q == 300 * d * q);
    if r * q == points * d {
        same_from_both_sides(f, dyadic(r as int, e));
    }
}

/// The top edge of a popover that was `cur` high at `top` and becomes `h` high:
/// where it is, where it hangs below the icon, and else so that its bottom edge
/// stays; and within its monitor, whose top edge goes before its bottom one.
pub proof fn resized_popovers_stay_anchored(
    below: bool,
    top: int,
    cur: nat,
    h: nat,
    monitor: Option<(int, nat)>,
)
    requires
        -0x1_0000_0000 < top < 0x1_0000_0000,
        cur < 0x1_0000_0000,
        h < 0x1_0000_0000,
        match monitor {
            Some((my, mh)) => -0x1_0000_0000 < my < 0x1_0000_0000 && mh < 0x1_0000_0000,
            None => true,
        },
    ensures
        ({
            let bounds = match monitor {
                Some((my, mh)) => Some((signed_whole(my), whole(mh))),
                None => None,
            };
            let got = top_after_resize(below, signed_whole(top), whole(cur), whole(h), bounds);
            let want = if below {
                top
            } else {
                top + cur - h
            };
            match monitor {
                None => got == signed_whole(want),
                Some((my, mh)) => {
                    &&& my <= want && want + h <= my + mh ==> got == signed_whole(want)
                    &&& want < my || mh <= h ==> got == signed_whole(my)
                    &&& my + mh < want + h && h <= mh ==> got == signed_whole(my + mh - h)
                },
            }
        }),
{
    let want = if below {
        top
    } else {
        top + cur - h
    };
    dyadics_add(top, cur as int, 0);
    dyadics_add(top + cur, h as int, 0);
    match monitor {
        Some((my, mh)) => {
            dyadics_add(my, mh as int, 0);
            dyadics_add(my + mh, h as int, 0);
            clamped_wholes(my + mh - h, my, my, 0);
            let last = if my + mh - h < my {
                my
            } else {
                my + mh - h
            };
            clamped_wholes(want, my, last, 0);
        },
        None => {},
    }
}

/// A resize in pixels. Where the height applied is `p / 2^j` and the window's
/// scale is `q / 2^k`, the window becomes `p q / 2^(j + k)` pixels high to the
/// nearest pixel. It keeps the edge that is at the icon: its top where it hangs
/// below the icon, else its bottom. It is held within its monitor, and it is
/// moved before it grows.
pub proof fn resizing_in_pixels(
    window: WindowRect,
    below: bool,
    logical_h: Figure,
    area: Option<WorkArea>,
    monitor: Option<MonitorRect>,
    p: nat,
    j: nat,
    q: nat,
    k: nat,
)
    requires
        resize_on(window, below, logical_h, area, monitor).applied == dyadic(p as int, j),
        window.scale == dyadic(q as int, k),
        p * q < 0x4000_0000 * pow2(j + k),
        p * q < 0x20_0000_0000_0000,
        short(p as int),
        short(q as int),
        j + k <= 1000,
    ensures
        ({
            let d = pow2(j + k);
            let r = resize_on(window, below, logical_h, area, monitor);
            let want = if below {
                window.y as int
            } else {
                window.y + window.height - r.height
            };
            &&& 1 <= r.height
            &&& r.height == 1 || (2 * r.height - 1) * d <= 2 * (p * q)
            &&& 2 * (p * q) < (2 * r.height + 1) * d
            &&& r.move_first == (window.height < r.height)
            &&& monitor is None ==> r.y == held_in(want, i32::MIN as int, i32::MAX as int)
            &&& match monitor {
                None => true,
                Some(m) => {
                    let last = m.y + m.height - r.height;
                    &&& m.y <= want <= last ==> r.y == held_in(
                        want,
                        i32::MIN as int,
                        i32::MAX as int,
                    )
                    &&& want < m.y || m.height <= r.height ==> r.y == m.y
                    &&& last < want && r.height <= m.height ==> r.y == held_in(
                        last,
                        i32::MIN as int,
                        i32::MAX as int,
                    )
                },
            }
        }),
{
    let d = pow2(j + k);
    let r = resize_on(window, below, logical_h, area, monitor);
    pixels_are_height_times_scale(p, j, q, k);
    let pixels = pixels_high(r.applied, window.scale);
    let h = choose|h: nat|
        {
            &&& pixels == #[trigger] whole(h)
            &&& 1 <= h < 0x20_0000_0000_0000
            &&& h == 1 || (2 * h - 1) * d <= 2 * (p * q)
            &&& 2 * (p * q) < (2 * h + 1) * d
        };
    lemma_pow2_pos(j + k);
    assert(h <= 0x4000_0000) by (nonlinear_arith)
        requires
            h == 1 || (2 * h - 1) * d <= 2 * (p * q),
            p * q < 0x4000_0000 * d,
            d >= 1,
    ;
    wholes_are_cut(h as int, 0, u32::MAX as int);
    dyadics_order(window.height as int, h as int, 0);
    let bounds = match monitor {
        Some(m) => Some((m.y as int, m.height as nat)),
        None => None,
    };
    resized_popovers_stay_anchored(below, window.y as int, window.height as nat, h, bounds);
    let want = if below {
        window.y as int
    } else {
        window.y + window.height - h
    };
    wholes_are_cut(want, i32::MIN as int, i32::MAX as int);
    match monitor {
        Some(m) => {
            wholes_are_cut(m.y as int, i32::MIN as int, i32::MAX as int);
            wholes_are_cut(m.y + m.height - h, i32::MIN as int, i32::MAX as int);
        },
        None => {},
    }
}

/// A point `(a / 2^j, b / 2^j)` is on a monitor where it is between its edges.
pub proof fn points_are_between_edges(m: MonitorRect, a: int, b: int, j: nat)
    requires
        -0x1_0000_0000_0000 < a < 0x1_0000_0000_0000,
        -0x1_0000_0000_0000 < b < 0x1_0000_0000_0000,
        j <= 16,
    ensures
        on_monitor(m, dyadic(a, j), dyadic(b, j)) <==> {
            &&& m.x * pow2(j) <= a <= (m.x + m.width) * pow2(j)
            &&& m.y * pow2(j) <= b <= (m.y + m.height) * pow2(j)
        },
{
    dyadics_add(m.x as int, m.width as int, 0);
    dyadics_add(m.y as int, m.height as int, 0);
    edges(m.x as int, j);
    edges(m.y as int, j);
    edges(m.x + m.width, j);
    edges(m.y + m.height, j);
    dyadics_order(m.x * pow2(j), a, j);
    dyadics_order(m.y * pow2(j), b, j);
    dyadics_order(a, (m.x + m.width) * pow2(j), j);
    dyadics_order(b, (m.y + m.height) * pow2(j), j);
}

proof fn edges(n: int, j: nat)
    requires
        -0x2_0000_0000 < n < 0x2_0000_0000,
        j <= 16,
    ensures
        0 < pow2(j) <= 0x1_0000,
        signed_whole(n) == dyadic(n * pow2(j), j),
        -0x2_0000_0000_0000 < n * pow2(j) < 0x2_0000_0000_0000,
{
    finer_parts(n, 0, j);
    lemma2_to64();
    lemma_pow2_adds(j, (16 - j) as nat);
    lemma_pow2_pos((16 - j) as nat);
    let d = pow2(j);
    assert(0 < d <= 0x1_0000) by (nonlinear_arith)
        requires
            d * pow2((16 - j) as nat) == 0x1_0000,
            pow2((16 - j) as nat) > 0,
            d >= 0,
    ;
    assert(-0x2_0000_0000_0000 < n * d < 0x2_0000_0000_0000) by (nonlinear_arith)
        requires
            0 < d <= 0x1_0000,
            -0x2_0000_0000 < n < 0x2_0000_0000,
    ;
}

/// A popover's monitor is found by the middle of the edge that is at the icon:
/// its top one where it hangs below, else a pixel above its bottom one.
pub proof fn popovers_are_found_by_their_anchored_edge(window: WindowRect, below: bool)
    ensures
        probe_of(window, below).0 == dyadic(2 * window.x + window.width, 1),
        below ==> probe_of(window, below).1 == signed_whole(window.y as int),
        !below ==> probe_of(window, below).1 == signed_whole(window.y + window.height - 1),
{
    popover_measures();
    lemma2_to64();
    dyadics_halve(window.width as nat, 0);
    finer_parts(window.x as int, 0, 1);
    dyadics_add(2 * window.x, window.width as int, 1);
    dyadics_add(window.y as int, window.height as int, 0);
    dyadics_add(window.y + window.height, 1, 0);
}

/// Where a popover goes, in parts of `1 / 2^j` of a pixel, for an icon with its
/// middle at `c`, its top at `t` and its bottom at `b`, and a scale of `q / 2^j`:
/// 160 points to the left of the icon's middle, so that its own middle is there;
/// 6 points below the icon where that is in the upper half of its monitor, else
/// 6 points and its own height above it; and never over its monitor's edges,
/// the left and the top ones first.
pub proof fn popovers_are_centred_beside_their_icon(
    m: MonitorRect,
    c: int,
    t: int,
    b: int,
    n: nat,
    q: nat,
    j: nat,
)
    requires
        -0x1_0000_0000_0000 < c < 0x1_0000_0000_0000,
        -0x1_0000_0000_0000 < t < 0x1_0000_0000_0000,
        -0x1_0000_0000_0000 < b < 0x1_0000_0000_0000,
        n < 0x1_0000,
        q < 0x1_0000_0000,
        1 <= j <= 16,
        m.scale == dyadic(q as int, j),
    ensures
        ({
            let d = pow2(j);
            let got = place_on(m, dyadic(c, j), dyadic(t, j), dyadic(b, j), whole(n));
            let (left, right) = (m.x * d, (m.x + m.width) * d);
            let (upper, lower) = (m.y * d, (m.y + m.height) * d);
            let want = if got.below {
                b + 6 * q
            } else {
                t - 6 * q - n * q
            };
            &&& got.below <==> 2 * b < (2 * m.y + m.height) * d
            &&& left <= c - 160 * q && c + 160 * q <= right ==> got.x == cut_in(c - 160 * q, d)
            &&& c - 160 * q < left || right - left <= 320 * q ==> got.x == m.x
            &&& right < c + 160 * q && 320 * q <= right - left ==> got.x == cut_in(
                right - 320 * q,
                d,
            )
            &&& upper <= want && want + n * q <= lower ==> got.y == cut_in(want, d)
            &&& want < upper || lower - upper <= n * q ==> got.y == m.y
            &&& lower < want + n * q && n * q <= lower - upper ==> got.y == cut_in(lower - n * q, d)
        }),
{
    let d = pow2(j);
    let got = place_on(m, dyadic(c, j), dyadic(t, j), dyadic(b, j), whole(n));
    let (left, right) = (m.x * d, (m.x + m.width) * d);
    let (upper, lower) = (m.y * d, (m.y + m.height) * d);
    let high = n * q;
    assert(0 <= high < 0x1_0000 * 0x1_0000_0000) by (nonlinear_arith)
        requires
            0 <= n < 0x1_0000,
            0 <= q < 0x1_0000_0000,
            high == n * q,
    ;
    popover_measures();
    dyadics_multiply(320, 0, q, j);
    dyadics_multiply(n, 0, q, j);
    dyadics_multiply(6, 0, q, j);
    dyadics_divide(160 * q as int, j, 2);
    let half = (m.y as int, m.height as nat);
    edges(m.x as int, j);
    edges(m.y as int, j);
    edges(m.x + m.width, j);
    edges(m.y + m.height, j);
    dyadics_add(m.x as int, m.width as int, 0);
    dyadics_add(m.y as int, m.height as int, 0);
    dyadics_add(c, 160 * q as int, j);
    dyadics_add(right, 320 * q as int, j);
    between(c - 160 * q, left, right - 320 * q, m.x as int, j);
    upper_half(m, b, j);
    dyadics_add(b, 6 * q as int, j);
    dyadics_add(t, 6 * q as int, j);
    dyadics_add(t - 6 * q, high as int, j);
    dyadics_add(lower, high as int, j);
    let want = if got.below {
        b + 6 * q
    } else {
        t - 6 * q - high
    };
    between(want, upper, lower - high, m.y as int, j);
}

/// The whole part of `n / d` as a pixel.
pub open spec fn cut_in(n: int, d: nat) -> int {
    held_in(cut_off(n, d), i32::MIN as int, i32::MAX as int)
}

proof fn between(n: int, low: int, high: int, edge: int, j: nat)
    requires
        short(n),
        short(low),
        short(high),
        j <= 16,
        low == edge * pow2(j),
        i32::MIN <= edge <= i32::MAX,
    ensures
        ({
            let kept = dyadic(n, j).clamped(
                dyadic(low, j),
                dyadic(high, j).larger(dyadic(low, j)),
            );
            let got = cut_to_range(kept, i32::MIN as int, i32::MAX as int);
            &&& low <= n <= high ==> got == cut_in(n, pow2(j))
            &&& n < low || high <= low ==> got == edge
            &&& high < n && low <= high ==> got == cut_in(high, pow2(j))
        }),
{
    let d = pow2(j);
    lemma_pow2_pos(j);
    clamped_wholes(high, low, low, j);
    let last = if high < low {
        low
    } else {
        high
    };
    clamped_wholes(n, low, last, j);
    dyadics_are_cut(held_in(n, low, last), j, i32::MIN as int, i32::MAX as int);
    if edge >= 0 {
        assert(edge * d >= 0) by (nonlinear_arith)
            requires
                edge >= 0,
                d >= 0,
        ;
        vstd::arithmetic::div_mod::lemma_div_multiples_vanish(edge, d as int);
        assert(edge * d == d * edge) by (nonlinear_arith);
    } else {
        assert(edge * d < 0) by (nonlinear_arith)
            requires
                edge < 0,
                d > 0,
        ;
        vstd::arithmetic::div_mod::lemma_div_multiples_vanish(-edge, d as int);
        assert(-(edge * d) == d * (-edge)) by (nonlinear_arith);
    }
}

proof fn upper_half(m: MonitorRect, b: int, j: nat)
    requires
        -0x1_0000_0000_0000 < b < 0x1_0000_0000_0000,
        1 <= j <= 16,
    ensures
        dyadic(b, j).below(
            sum(signed_whole(m.y as int), quotient(whole(m.height as nat), whole(2))),
        ) <==> 2 * b < (2 * m.y + m.height) * pow2(j),
{
    let d = pow2((j - 1) as nat);
    lemma2_to64();
    lemma_pow2_adds(1, (j - 1) as nat);
    dyadics_halve(m.height as nat, 0);
    finer_parts(m.y as int, 0, 1);
    dyadics_add(2 * m.y, m.height as int, 1);
    let middle = 2 * m.y + m.height;
    finer_parts(middle, 1, (j - 1) as nat);
    edges(middle, (j - 1) as nat);
    dyadics_order(b, middle * d, j);
    assert(middle * (2 * d) == 2 * (middle * d)) by (nonlinear_arith);
}

/// A popover whose icon is beyond its work area gets the least height.
pub proof fn without_room_popovers_are_least(
    window: WindowRect,
    below: bool,
    n: nat,
    e: nat,
    q: nat,
    k: nat,
    area: WorkArea,
    monitor: Option<MonitorRect>,
)
    requires
        n < 0x1_0000_0000,
        e <= 16,
        0 < q < 0x1_0000,
        k <= 16,
        window.scale == dyadic(q as int, k),
        pixels_left(window, below, area) < 0,
    ensures
        resize_on(window, below, dyadic(n as int, e), Some(area), monitor).applied == whole(300),
{
    popover_measures();
    let left = pixels_left(window, below, area);
    let f = room_left(window, below, area);
    dyadics_are_exact(left, 0);
    dyadics_are_exact(q as int, k);
    dyadics_are_exact(300, 0);
    edges(300, e);
    dyadics_are_exact(n as int, e);
    dyadics_order(n as int, 300 * pow2(e) as int, e);
    let (u, v) = (signed_whole(left).units(), window.scale.units());
    lemma_pow2_pos(1074);
    lemma_pow2_pos((1074 - k) as nat);
    assert(v > 0) by (nonlinear_arith)
        requires
            v == q * pow2((1074 - k) as nat),
            q > 0,
            pow2((1074 - k) as nat) > 0,
    ;
    crate::arithmetic::pattern_of_units(window.scale);
    crate::rounding::rounding_keeps_order(u * pow2(1074), v, u * pow2(1074), v);
    assert(f.place() <= 0);
    assert(0 < whole(300).place()) by {
        dyadics_order(0, 300, 0);
        dyadics_are_exact(0, 0);
    }
}

/// Without a work area a popover fits its monitor, by the monitor's height in
/// points: on one of `M / 2^e` points it leaves 80 free, from 300 to 900. With
/// no monitor either it is from 300 to 900 high.
pub proof fn heights_fit_where_the_area_is_unknown(
    window: WindowRect,
    below: bool,
    n: int,
    e: nat,
    m: MonitorRect,
    q: nat,
    k: nat,
    points: int,
)
    requires
        0 <= n < 0x1_0000_0000,
        0 <= points < 0x1_0000_0000,
        e <= 16,
        0 < q < 0x1_0000,
        k <= 16,
        m.scale == dyadic(q as int, k),
        m.height * pow2(k) * pow2(e) == points * q,
    ensures
        ({
            let d = pow2(e) as int;
            let h = if points <= 380 * d {
                300 * d
            } else if points < 980 * d {
                held_in(n, 300 * d, points - 80 * d)
            } else {
                held_in(n, 300 * d, 900 * d)
            };
            &&& resize_on(window, below, dyadic(n, e), None, Some(m)).applied == dyadic(h, e)
            &&& resize_on(window, below, dyadic(n, e), None, None).applied == dyadic(
                held_in(n, 300 * d, 900 * d),
                e,
            )
        }),
{
    heights_fit_their_monitor(n, points, e);
    edges(m.height as int, k);
    let pixels = (m.height * pow2(k)) as nat;
    parts_divide(pixels, q, k);
    quotients_are_bracketed(pixels, q, points as nat, e);
    dyadics_are_exact(points, e);
    same_from_both_sides(quotient(whole(m.height as nat), m.scale), dyadic(points, e));
}

} // verus!
