use hotaru::arithmetic::{add_figures, divide_figures, figure_to_i32, figure_to_u32, multiply_figures, round_figure, signed_whole_figure, subtract_figures, total_of, whole_figure};
use hotaru::decimal::{decimal, figure_decimal, signed_decimal};
use hotaru::figure::Figure;

fn fig(x: f64) -> Figure {
    Figure { bits: x.to_bits() }
}

fn val(f: Figure) -> f64 {
    f64::from_bits(f.bits)
}

fn same(got: Figure, want: f64) -> bool {
    val(got).is_nan() && want.is_nan() || got.bits == want.to_bits()
}

const SPECIAL: [f64; 34] = [
    0.0,
    -0.0,
    1.0,
    -1.0,
    0.5,
    1.5,
    2.5,
    -2.5,
    3.0,
    10.0,
    100.0,
    0.1,
    0.2,
    0.3,
    1e-300,
    -1e-300,
    1e300,
    1e308,
    -1e308,
    5e-324,
    -5e-324,
    2.2250738585072014e-308,
    2.225073858507201e-308,
    1.7976931348623157e308,
    4503599627370496.0,
    4503599627370495.5,
    9007199254740991.0,
    9007199254740992.0,
    9007199254740993.0,
    4294967295.9,
    -2147483648.5,
    f64::INFINITY,
    f64::NEG_INFINITY,
    f64::NAN,
];

/// A run of patterns that covers signs, exponents and mantissas.
fn patterns(count: usize) -> Vec<f64> {
    let mut state: u64 = 0x9E37_79B9_7F4A_7C15;
    let mut out = Vec::new();
    for i in 0..count {
        state = state.wrapping_mul(6364136223846793005).wrapping_add(1442695040888963407);
        let mixed = state ^ (state >> 29);
        let near = if i % 3 == 0 {
            // Exponents around 1.0, where sums cancel.
            (mixed & 0x800F_FFFF_FFFF_FFFF) | ((1000 + (mixed >> 52) % 60) << 52)
        } else {
            mixed
        };
        out.push(f64::from_bits(near));
    }
    out
}

fn all_values() -> Vec<f64> {
    let mut out = SPECIAL.to_vec();
    out.extend(patterns(150));
    out
}

#[test]
fn sums_match_the_machine() {
    let values = all_values();
    for &a in &values {
        for &b in &values {
            assert!(same(add_figures(fig(a), fig(b)), a + b), "{a:e} + {b:e}");
            assert!(same(subtract_figures(fig(a), fig(b)), a - b), "{a:e} - {b:e}");
        }
    }
}

#[test]
fn products_match_the_machine() {
    let values = all_values();
    for &a in &values {
        for &b in &values {
            assert!(same(multiply_figures(fig(a), fig(b)), a * b), "{a:e} * {b:e}");
        }
    }
}

#[test]
fn quotients_match_the_machine() {
    let values = all_values();
    for &a in &values {
        for &b in &values {
            assert!(same(divide_figures(fig(a), fig(b)), a / b), "{a:e} / {b:e}");
        }
    }
}

#[test]
fn whole_numbers_convert_like_the_machine() {
    for n in [0u64, 1, 2, 99, 1 << 52, (1 << 53) - 1, 1 << 53, (1 << 53) + 1, (1 << 53) + 3, u64::MAX, u64::MAX - 1024] {
        assert!(same(whole_figure(n), n as f64), "{n}");
    }
    for n in [0i64, 1, -1, -1200, i64::MIN, i64::MAX, -9007199254740993] {
        assert!(same(signed_whole_figure(n), n as f64), "{n}");
    }
}

#[test]
fn figures_are_cut_like_the_machine() {
    for x in all_values() {
        assert_eq!(figure_to_i32(fig(x)), x as i32, "{x:e}");
        assert_eq!(figure_to_u32(fig(x)), x as u32, "{x:e}");
    }
    for x in [1.9, -1.9, 2147483646.9, 2147483647.0, 2147483648.0, -2147483648.9, -2147483649.0, 4294967294.5, 4294967296.0] {
        assert_eq!(figure_to_i32(fig(x)), x as i32, "{x:e}");
        assert_eq!(figure_to_u32(fig(x)), x as u32, "{x:e}");
    }
}

#[test]
fn figures_round_like_the_machine() {
    for x in all_values() {
        assert!(same(round_figure(fig(x)), x.round()), "{x:e}");
    }
    for x in [0.49999999999999994, 0.5, 1.5, 2.5, -0.5, -0.4, 1e15 + 0.5, 4503599627370495.5, 4503599627370497.0] {
        assert!(same(round_figure(fig(x)), x.round()), "{x:e}");
    }
}

#[test]
fn comparisons_match_the_machine() {
    let values = all_values();
    for &a in &values {
        for &b in &values {
            assert_eq!(fig(a).lt(fig(b)), a < b, "{a:e} {b:e}");
            assert_eq!(fig(a).le(fig(b)), a <= b, "{a:e} {b:e}");
            if !(a == 0.0 && b == 0.0) {
                assert!(same(fig(a).min(fig(b)), a.min(b)), "{a:e} {b:e}");
                assert!(same(fig(a).max(fig(b)), a.max(b)), "{a:e} {b:e}");
            }
        }
        assert!(same(fig(a).clamp(fig(1.0), fig(100.0)), a.clamp(1.0, 100.0)), "{a:e}");
        assert_eq!(fig(a).is_nan(), a.is_nan());
    }
}

#[test]
fn decimals_match_the_machine() {
    for x in all_values() {
        assert_eq!(figure_decimal(fig(x), 0), format!("{x:.0}"), "{x:e}");
        assert_eq!(figure_decimal(fig(x), 1), format!("{x:.1}"), "{x:e}");
        assert_eq!(figure_decimal(fig(x), 2), format!("{x:.2}"), "{x:e}");
        assert_eq!(figure_decimal(fig(x), 3), format!("{x:.3}"), "{x:e}");
    }
    for x in [0.05, 0.15, 0.25, 0.35, 2.675, 1.005, 99.95, 99.949999, 0.5, 1.5, 2.5] {
        assert_eq!(figure_decimal(fig(x), 0), format!("{x:.0}"), "{x:e}");
        assert_eq!(figure_decimal(fig(x), 1), format!("{x:.1}"), "{x:e}");
        assert_eq!(figure_decimal(fig(x), 2), format!("{x:.2}"), "{x:e}");
    }
}

#[test]
fn whole_numbers_are_written_like_the_machine() {
    for n in [0u64, 7, 10, 99, 100, 18446744073709551615] {
        assert_eq!(decimal(n), n.to_string());
    }
    for n in [0i64, -1, 42, i64::MIN, i64::MAX] {
        assert_eq!(signed_decimal(n), n.to_string());
    }
}

#[test]
fn totals_run_from_the_left() {
    let list = vec![fig(0.1), fig(0.2), fig(0.3), fig(1e16), fig(-1e16)];
    let want = 0.0 + 0.1 + 0.2 + 0.3 + 1e16 + -1e16;
    assert!(same(total_of(&list), want));
    assert!(same(total_of(&Vec::new()), 0.0));
}

#[test]
fn rounding_keeps_what_it_promises() {
    for (a, b) in [(0.1, 0.2), (1e16, 1.0), (3.0, -7.5), (5e-324, 5e-324), (1.7e308, 1.7e308)] {
        let (a, b) = (fig(a), fig(b));
        assert_eq!(add_figures(a, b), add_figures(b, a));
        assert_eq!(multiply_figures(a, b), multiply_figures(b, a));
    }
    // Adding what is not negative never lowers a figure.
    assert!(fig(1e16).le(add_figures(fig(1e16), fig(1.0))));
    assert!(fig(0.1).le(add_figures(fig(0.1), fig(0.0))));
    // Whole numbers keep their order, also where they are rounded.
    let near = [0, 1, (1 << 53) - 1, 1 << 53, (1 << 53) + 1, u64::MAX - 1, u64::MAX];
    for pair in near.windows(2) {
        assert!(whole_figure(pair[0]).le(whole_figure(pair[1])));
        let share = divide_figures(whole_figure(pair[0]), whole_figure(pair[1]));
        assert!(fig(0.0).le(share) && share.le(fig(1.0)));
        assert!(multiply_figures(share, fig(100.0)).le(fig(100.0)));
    }
}
