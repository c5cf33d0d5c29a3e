//! Figures as people read them: rates, sizes and lengths of time.

use vstd::prelude::*;

use crate::arithmetic::{divide_figures, quotient, whole, whole_figure};
use crate::decimal::{decimal, digits, figure_decimal, figure_text};
use crate::figure::{figure_of, Figure, HUNDRED_BITS, ZERO_BITS};
use crate::text::joined;

verus! {

/// The pattern of `1024.0`.
pub const KB_BITS: u64 = 0x4090_0000_0000_0000;

/// The pattern of `1024.0 * 1024.0`.
pub const MB_BITS: u64 = 0x4130_0000_0000_0000;

/// The pattern of `1024.0 * 1024.0 * 1024.0`.
pub const GB_BITS: u64 = 0x41D0_0000_0000_0000;

/// The pattern of `1024.0 * 1024.0 * 1024.0 * 1024.0`.
pub const TB_BITS: u64 = 0x4270_0000_0000_0000;

/// A figure counted in a larger unit, with the unit behind it.
pub open spec fn in_unit(value: Figure, unit_bits: u64, places: nat, unit: Seq<char>) -> Seq<char> {
    figure_text(quotient(value, figure_of(unit_bits)), places) + unit
}

fn text_in_unit(value: Figure, unit_bits: u64, places: usize, unit: &str) -> (out: String)
    requires
        places <= 3,
    ensures
        out@ == in_unit(value, unit_bits, places as nat, unit@),
{
    let scaled = divide_figures(value, Figure { bits: unit_bits });
    joined(figure_decimal(scaled, places).as_str(), unit)
}

/// A rate in bytes a second, in the largest unit it reaches.
pub open spec fn rate_text(bps: Figure) -> Seq<char> {
    if bps.below(figure_of(ZERO_BITS)) {
        "0B/s"@
    } else if bps.below(figure_of(KB_BITS)) {
        figure_text(bps, 0) + "B/s"@
    } else if bps.below(figure_of(MB_BITS)) {
        in_unit(bps, KB_BITS, 1, "KB/s"@)
    } else if bps.below(figure_of(GB_BITS)) {
        in_unit(bps, MB_BITS, 2, "MB/s"@)
    } else {
        in_unit(bps, GB_BITS, 2, "GB/s"@)
    }
}

pub fn fmt_rate(bps: Figure) -> (out: String)
    ensures
        out@ == rate_text(bps),
{
    if bps.lt(Figure { bits: ZERO_BITS }) {
        "0B/s".to_owned()
    } else if bps.lt(Figure { bits: KB_BITS }) {
        joined(figure_decimal(bps, 0).as_str(), "B/s")
    } else if bps.lt(Figure { bits: MB_BITS }) {
        text_in_unit(bps, KB_BITS, 1, "KB/s")
    } else if bps.lt(Figure { bits: GB_BITS }) {
        text_in_unit(bps, MB_BITS, 2, "MB/s")
    } else {
        text_in_unit(bps, GB_BITS, 2, "GB/s")
    }
}

/// A number of bytes, in the largest unit it reaches.
pub open spec fn bytes_text(bytes: u64) -> Seq<char> {
    let b = whole(bytes as nat);
    if b.below(figure_of(KB_BITS)) {
        digits(bytes as nat) + "B"@
    } else if b.below(figure_of(MB_BITS)) {
        in_unit(b, KB_BITS, 1, "KB"@)
    } else if b.below(figure_of(GB_BITS)) {
        in_unit(b, MB_BITS, 2, "MB"@)
    } else if b.below(figure_of(TB_BITS)) {
        in_unit(b, GB_BITS, 2, "GB"@)
    } else {
        in_unit(b, TB_BITS, 2, "TB"@)
    }
}

pub fn fmt_bytes(bytes: u64) -> (out: String)
    ensures
        out@ == bytes_text(bytes),
{
    let b = whole_figure(bytes);
    if b.lt(Figure { bits: KB_BITS }) {
        joined(decimal(bytes).as_str(), "B")
    } else if b.lt(Figure { bits: MB_BITS }) {
        text_in_unit(b, KB_BITS, 1, "KB")
    } else if b.lt(Figure { bits: GB_BITS }) {
        text_in_unit(b, MB_BITS, 2, "MB")
    } else if b.lt(Figure { bits: TB_BITS }) {
        text_in_unit(b, GB_BITS, 2, "GB")
    } else {
        text_in_unit(b, TB_BITS, 2, "TB")
    }
}

/// A length of time in its two largest units: days and hours, hours and
/// minutes, or minutes alone.
pub open spec fn uptime_text(secs: u64) -> Seq<char> {
    let d = secs as nat / 86400;
    let h = (secs as nat % 86400) / 3600;
    let m = (secs as nat % 3600) / 60;
    if d > 0 {
        digits(d) + "天"@ + digits(h) + "小时"@
    } else if h > 0 {
        digits(h) + "小时"@ + digits(m) + "分"@
    } else {
        digits(m) + "分钟"@
    }
}

pub fn fmt_uptime(secs: u64) -> (out: String)
    ensures
        out@ == uptime_text(secs),
{
    let d: u64 = secs / 86400;
    let h: u64 = (secs % 86400) / 3600;
    let m: u64 = (secs % 3600) / 60;
    if d > 0 {
        let mut out = joined(decimal(d).as_str(), "天");
        out.append(decimal(h).as_str());
        out.append("小时");
        out
    } else if h > 0 {
        let mut out = joined(decimal(h).as_str(), "小时");
        out.append(decimal(m).as_str());
        out.append("分");
        out
    } else {
        joined(decimal(m).as_str(), "分钟")
    }
}

/// The menu bar's rates: a space before the unit, and a decimal only from
/// megabytes up and below a hundred of them.
pub open spec fn menu_bar_rate_text(bps: Figure) -> Seq<char> {
    if bps.below(figure_of(ZERO_BITS)) {
        "0 B/s"@
    } else if bps.below(figure_of(KB_BITS)) {
        figure_text(bps, 0) + " B/s"@
    } else if bps.below(figure_of(MB_BITS)) {
        in_unit(bps, KB_BITS, 0, " KB/s"@)
    } else if bps.below(figure_of(GB_BITS)) {
        decimal_below_hundred(quotient(bps, figure_of(MB_BITS)), "MB/s"@)
    } else {
        decimal_below_hundred(quotient(bps, figure_of(GB_BITS)), "GB/s"@)
    }
}

/// One decimal below a hundred, none from there on.
pub open spec fn decimal_below_hundred(value: Figure, unit: Seq<char>) -> Seq<char> {
    let places: nat = if value.below(figure_of(HUNDRED_BITS)) {
        1
    } else {
        0
    };
    figure_text(value, places) + " "@ + unit
}

/// The menu bar's own rate format: a space before the unit, and only as many
/// digits as the rung needs. [`fmt_rate`]'s decimals throughout are for the
/// tooltip and the popover, which have room for them.
///
/// B/s and KB/s are whole numbers: a single byte or kilobyte either way is
/// noise. A whole MB/s is a coarse step, though: 1.5 and 2.4 would both read
/// as 2, so that rung and the one above it keep a decimal, up to the point
/// where three digits already say everything (see [`with_decimal`]).
pub fn fmt_rate_menu_bar(bps: Figure) -> (out: String)
    ensures
        out@ == menu_bar_rate_text(bps),
{
    if bps.lt(Figure { bits: ZERO_BITS }) {
        "0 B/s".to_owned()
    } else if bps.lt(Figure { bits: KB_BITS }) {
        joined(figure_decimal(bps, 0).as_str(), " B/s")
    } else if bps.lt(Figure { bits: MB_BITS }) {
        text_in_unit(bps, KB_BITS, 0, " KB/s")
    } else if bps.lt(Figure { bits: GB_BITS }) {
        with_decimal(divide_figures(bps, Figure { bits: MB_BITS }), "MB/s")
    } else {
        with_decimal(divide_figures(bps, Figure { bits: GB_BITS }), "GB/s")
    }
}

/// A decimal below 100, none above it. Past 100 the tenths digit is worth a
/// fraction of a percent, and holding on to it would cost every reading a
/// permanently wider item.
pub fn with_decimal(value: Figure, unit: &str) -> (out: String)
    ensures
        out@ == decimal_below_hundred(value, unit@),
{
    let places: usize = if value.lt(Figure { bits: HUNDRED_BITS }) {
        1
    } else {
        0
    };
    let mut out = joined(figure_decimal(value, places).as_str(), " ");
    out.append(unit);
    out
}

} // verus!
