//! Dates of the Gregorian calendar, and times written as RFC 3339 texts.

use vstd::prelude::*;
use vstd::utf8::encode_utf8;

verus! {

/// Division that drops the fraction.
pub open spec fn cut_div(n: int, d: int) -> int {
    if n >= 0 {
        n / d
    } else {
        -((-n) / d)
    }
}

/// The year that a month belongs to when years begin in March.
pub open spec fn march_year(y: int, m: int) -> int {
    if m <= 2 {
        y - 1
    } else {
        y
    }
}

/// The month of such a year, from 0 for March.
pub open spec fn march_month(m: int) -> int {
    if m > 2 {
        m - 3
    } else {
        m + 9
    }
}

/// The days before a month of such a year.
pub open spec fn days_before_month(m: int) -> int {
    cut_div(153 * march_month(m) + 2, 5)
}

/// Days since 1970-01-01, counting years from March in eras of 400.
pub open spec fn civil_days(y: int, m: int, d: int) -> int {
    let year = march_year(y, m);
    let of_era = year % 400;
    (year / 400) * 146097 + of_era * 365 + of_era / 4 - of_era / 100 + days_before_month(m) + d - 1
        - 719468
}

pub open spec fn leap(y: int) -> bool {
    y % 4 == 0 && (y % 100 != 0 || y % 400 == 0)
}

/// The days of a month.
pub open spec fn month_length(y: int, m: int) -> int {
    if m == 2 {
        if leap(y) {
            29
        } else {
            28
        }
    } else if m == 4 || m == 6 || m == 9 || m == 11 {
        30
    } else {
        31
    }
}

proof fn era_free(y: int)
    ensures
        (y / 400) * 146097 + (y % 400) * 365 + (y % 400) / 4 - (y % 400) / 100 == 365 * y + y / 4
            - y / 100 + y / 400,
{
    let e = y / 400;
    let r = y % 400;
    assert(y == 400 * e + r);
    assert(y / 4 == 100 * e + r / 4);
    assert(y / 100 == 4 * e + r / 100);
}

/// The count is that of the calendar: 1970-01-01 is day 0, and each day's
/// successor is one day later, within a month, from month to month and from
/// year to year.
pub proof fn civil_days_follow_the_calendar(y: int, m: int, d: int)
    requires
        1 <= m <= 12,
    ensures
        civil_days(1970, 1, 1) == 0,
        civil_days(y, m, d + 1) == civil_days(y, m, d) + 1,
        m < 12 ==> civil_days(y, m + 1, 1) == civil_days(y, m, month_length(y, m)) + 1,
        civil_days(y + 1, 1, 1) == civil_days(y, 12, 31) + 1,
{
    era_free(y);
    era_free(y - 1);
    if m == 2 {
        assert(y / 4 - (y - 1) / 4 == if y % 4 == 0 { 1int } else { 0int });
        assert(y / 100 - (y - 1) / 100 == if y % 100 == 0 { 1int } else { 0int });
        assert(y / 400 - (y - 1) / 400 == if y % 400 == 0 { 1int } else { 0int });
        assert(y % 400 == 0 ==> y % 100 == 0);
        assert(y % 100 == 0 ==> y % 4 == 0);
    }
}

pub open spec fn year_length(y: int) -> int {
    if leap(y) {
        366
    } else {
        365
    }
}

/// The days from 1970 to a year, year by year.
pub open spec fn days_to_year(y: int) -> int
    decreases y,
{
    if y <= 1970 {
        0
    } else {
        days_to_year(y - 1) + year_length(y - 1)
    }
}

/// The days from the beginning of a year to a month of it, month by month.
pub open spec fn days_to_month(y: int, m: int) -> int
    decreases m,
{
    if m <= 1 {
        0
    } else {
        days_to_month(y, m - 1) + month_length(y, m - 1)
    }
}

/// From 1970 on, the days are those that years and months add up to.
pub proof fn civil_days_add_up(y: int, m: int, d: int)
    requires
        1970 <= y,
        1 <= m <= 12,
    ensures
        civil_days(y, m, d) == days_to_year(y) + days_to_month(y, m) + d - 1,
    decreases y, m,
{
    if m > 1 {
        civil_days_add_up(y, m - 1, 1);
        civil_days_follow_the_calendar(y, m - 1, 1);
        let last = month_length(y, m - 1);
        assert(civil_days(y, m - 1, last) == civil_days(y, m - 1, 1) + last - 1);
        assert(civil_days(y, m, d) == civil_days(y, m, 1) + d - 1);
    } else if y > 1970 {
        civil_days_add_up(y - 1, 12, 31);
        civil_days_follow_the_calendar(y - 1, 12, 31);
        months_of_a_year(y - 1);
        assert(civil_days(y, 1, d) == civil_days(y, 1, 1) + d - 1);
    } else {
        civil_days_follow_the_calendar(1970, 1, 1);
        assert(civil_days(1970, 1, d) == civil_days(1970, 1, 1) + d - 1);
    }
}

proof fn months_of_a_year(y: int)
    ensures
        days_to_month(y, 12) + 31 == year_length(y),
{
    reveal_with_fuel(days_to_month, 13);
}

/// Whether every step of the count fits.
pub open spec fn civil_fits(y: int, m: int, d: int) -> bool {
    let year = march_year(y, m);
    let of_era = year % 400;
    let inner = 153 * march_month(m) + 2;
    let day = days_before_month(m) + d;
    let of_era_days = of_era * 365 + of_era / 4 - of_era / 100 + day - 1;
    &&& i64::MIN <= year
    &&& i64::MIN <= inner <= i64::MAX
    &&& i64::MIN <= 153 * march_month(m) <= i64::MAX
    &&& i64::MIN < day <= i64::MAX
    &&& of_era_days <= i64::MAX
    &&& i64::MIN <= (year / 400) * 146097 <= i64::MAX
    &&& i64::MIN <= (year / 400) * 146097 + of_era_days <= i64::MAX
    &&& i64::MIN <= civil_days(y, m, d)
}

fn floor_400(n: i64) -> (res: i64)
    ensures
        res == n as int / 400,
{
    if n >= 0 {
        n / 400
    } else {
        let past: i64 = -(n + 1);
        -1 - past / 400
    }
}

/// Howard Hinnant's days_from_civil: days since 1970-01-01 for a civil date.
pub fn days_from_civil(y: i64, m: i64, d: i64) -> (res: i64)
    requires
        civil_fits(y as int, m as int, d as int),
    ensures
        res == civil_days(y as int, m as int, d as int),
{
    let year: i64 = if m <= 2 {
        y - 1
    } else {
        y
    };
    let era: i64 = floor_400(year);
    let of_era: i64 = year - era * 400;
    let month: i64 = if m > 2 {
        m - 3
    } else {
        m + 9
    };
    let inner: i64 = 153 * month + 2;
    let before: i64 = if inner >= 0 {
        inner / 5
    } else if inner == i64::MIN {
        -1844674407370955161
    } else {
        -((-inner) / 5)
    };
    let day: i64 = before + d - 1;
    let days: i64 = of_era * 365 + of_era / 4 - of_era / 100 + day;
    era * 146097 + days - 719468
}

// ---------------------------------------------------------------------------
// Times
// ---------------------------------------------------------------------------

pub open spec fn is_digit(b: u8) -> bool {
    0x30 <= b <= 0x39
}

/// The number that a run of digits spells.
pub open spec fn digits_value(bytes: Seq<u8>) -> int
    decreases bytes.len(),
{
    if bytes.len() == 0 {
        0
    } else {
        digits_value(bytes.drop_last()) * 10 + (bytes.last() - 0x30)
    }
}

/// Digits and nothing else.
pub open spec fn all_digits(bytes: Seq<u8>) -> bool {
    bytes.len() > 0 && forall|i: int| 0 <= i < bytes.len() ==> is_digit(#[trigger] bytes[i])
}

/// A whole number in decimal, with or without a sign.
pub open spec fn number_in(bytes: Seq<u8>) -> Option<int> {
    if bytes.len() > 0 && bytes[0] == 0x2D && all_digits(bytes.drop_first()) {
        Some(-digits_value(bytes.drop_first()))
    } else if bytes.len() > 0 && bytes[0] == 0x2B && all_digits(bytes.drop_first()) {
        Some(digits_value(bytes.drop_first()))
    } else if all_digits(bytes) {
        Some(digits_value(bytes))
    } else {
        None
    }
}

/// The number between two places of a text.
pub open spec fn field(bytes: Seq<u8>, from: int, to: int) -> Option<int> {
    number_in(bytes.subrange(from, to))
}

/// A whole number kept modulo `2^64`.
pub open spec fn wrapped(n: int) -> u64 {
    (n % 0x1_0000_0000_0000_0000) as u64
}

/// The milliseconds since the epoch of a text that begins with
/// `YYYY-MM-DD?HH:MM:SS`; what stands between and behind the numbers does not
/// matter. Nothing where the text is shorter or a number is missing.
pub open spec fn time_in(bytes: Seq<u8>) -> Option<u64> {
    if bytes.len() < 19 {
        None
    } else {
        match (
            field(bytes, 0, 4),
            field(bytes, 5, 7),
            field(bytes, 8, 10),
            field(bytes, 11, 13),
            field(bytes, 14, 16),
            field(bytes, 17, 19),
        ) {
            (Some(y), Some(mo), Some(d), Some(h), Some(mi), Some(sec)) => Some(
                wrapped(
                    (civil_days(y, mo, d) * 86400 + h * 3600 + mi * 60 + sec) * 1000,
                ),
            ),
            _ => None,
        }
    }
}

proof fn digits_value_is_small(bytes: Seq<u8>)
    requires
        bytes.len() <= 4,
        forall|i: int| 0 <= i < bytes.len() ==> is_digit(#[trigger] bytes[i]),
    ensures
        0 <= digits_value(bytes),
        bytes.len() == 1 ==> digits_value(bytes) <= 9,
        bytes.len() == 2 ==> digits_value(bytes) <= 99,
        bytes.len() <= 3 ==> digits_value(bytes) <= 999,
        digits_value(bytes) <= 9999,
    decreases bytes.len(),
{
    if bytes.len() > 0 {
        let front = bytes.drop_last();
        assert forall|i: int| 0 <= i < front.len() implies is_digit(#[trigger] front[i]) by {
            assert(front[i] == bytes[i]);
        }
        digits_value_is_small(front);
        assert(is_digit(bytes[bytes.len() - 1]));
    }
}

/// The number that the digits from one place to another spell.
fn spelled(bytes: &[u8], from: usize, to: usize) -> (res: Option<i64>)
    requires
        from <= to <= bytes@.len(),
        to - from <= 4,
    ensures
        match res {
            Some(n) => all_digits(bytes@.subrange(from as int, to as int)) && n == digits_value(
                bytes@.subrange(from as int, to as int),
            ) && 0 <= n <= 9999,
            None => !all_digits(bytes@.subrange(from as int, to as int)),
        },
{
    let ghost run = bytes@.subrange(from as int, to as int);
    if from == to {
        return None;
    }
    let mut n: i64 = 0;
    let mut i: usize = from;
    assert(bytes@.subrange(from as int, from as int) =~= Seq::<u8>::empty());
    while i < to
        invariant
            from <= i <= to <= bytes@.len(),
            to - from <= 4,
            run == bytes@.subrange(from as int, to as int),
            n == digits_value(bytes@.subrange(from as int, i as int)),
            forall|j: int| 0 <= j < i - from ==> is_digit(#[trigger] run[j]),
            0 <= n,
            i - from == 0 ==> n == 0,
            i - from == 1 ==> n <= 9,
            i - from == 2 ==> n <= 99,
            i - from == 3 ==> n <= 999,
            n <= 9999,
        decreases to - i,
    {
        let b: u8 = bytes[i];
        assert(run[i - from] == b);
        if b < 0x30 || b > 0x39 {
            return None;
        }
        proof {
            assert(bytes@.subrange(from as int, i + 1).drop_last() =~= bytes@.subrange(
                from as int,
                i as int,
            ));
            assert(bytes@.subrange(from as int, i + 1).last() == b);
        }
        n = n * 10 + (b - 0x30) as i64;
        i = i + 1;
    }
    Some(n)
}

/// The number between two places.
fn number_at(bytes: &[u8], from: usize, to: usize) -> (res: Option<i64>)
    requires
        from < to <= bytes@.len(),
        to - from <= 4,
    ensures
        match res {
            Some(n) => field(bytes@, from as int, to as int) == Some(n as int) && -999 <= n <= 9999
                && (to - from == 2 ==> -9 <= n <= 99),
            None => field(bytes@, from as int, to as int) is None,
        },
{
    let ghost run = bytes@.subrange(from as int, to as int);
    let first: u8 = bytes[from];
    proof {
        assert(run[0] == first);
        assert(run.drop_first() =~= bytes@.subrange(from + 1, to as int));
        if all_digits(run) {
            digits_value_is_small(run);
        }
        if all_digits(run.drop_first()) {
            digits_value_is_small(run.drop_first());
        }
    }
    if first == 0x2D {
        match spelled(bytes, from + 1, to) {
            Some(n) => Some(-n),
            None => {
                assert(!is_digit(run[0]));
                None
            },
        }
    } else if first == 0x2B {
        match spelled(bytes, from + 1, to) {
            Some(n) => Some(n),
            None => {
                assert(!is_digit(run[0]));
                None
            },
        }
    } else {
        spelled(bytes, from, to)
    }
}

fn wrap(n: i64) -> (res: u64)
    ensures
        res == wrapped(n as int),
{
    if n >= 0 {
        n as u64
    } else {
        let past: i128 = n as i128 + 0x1_0000_0000_0000_0000;
        past as u64
    }
}

/// Minimal RFC3339 UTC parser ("2026-08-29T16:50:00Z", fractional seconds
/// allowed but ignored).
pub fn parse_rfc3339_ms(s: &str) -> (res: Option<u64>)
    ensures
        res == time_in(encode_utf8(s@)),
{
    let bytes = s.as_bytes();
    if bytes.len() < 19 {
        return None;
    }
    match (
        number_at(bytes, 0, 4),
        number_at(bytes, 5, 7),
        number_at(bytes, 8, 10),
        number_at(bytes, 11, 13),
        number_at(bytes, 14, 16),
        number_at(bytes, 17, 19),
    ) {
        (Some(y), Some(mo), Some(d), Some(h), Some(mi), Some(sec)) => {
            let days: i64 = days_from_civil(y, mo, d);
            Some(wrap((days * 86400 + h * 3600 + mi * 60 + sec) * 1000))
        },
        _ => None,
    }
}

/// Nothing behind the seconds matters.
pub proof fn times_ignore_fractions(bytes: Seq<u8>)
    requires
        bytes.len() >= 19,
    ensures
        time_in(bytes) == time_in(bytes.take(19)),
{
    let head = bytes.take(19);
    assert(bytes.subrange(0, 4) =~= head.subrange(0, 4));
    assert(bytes.subrange(5, 7) =~= head.subrange(5, 7));
    assert(bytes.subrange(8, 10) =~= head.subrange(8, 10));
    assert(bytes.subrange(11, 13) =~= head.subrange(11, 13));
    assert(bytes.subrange(14, 16) =~= head.subrange(14, 16));
    assert(bytes.subrange(17, 19) =~= head.subrange(17, 19));
}

/// A text of fewer than nineteen bytes tells no time, whatever characters it
/// holds.
pub proof fn short_texts_have_no_time(text: Seq<char>)
    requires
        encode_utf8(text).len() < 19,
    ensures
        time_in(encode_utf8(text)) is None,
{
}

// ---------------------------------------------------------------------------
// Instants
// ---------------------------------------------------------------------------

/// A second of the calendar, in UTC.
pub struct Instant {
    pub year: int,
    pub month: int,
    pub day: int,
    pub hour: int,
    pub minute: int,
    pub second: int,
}

impl Instant {
    /// A second there was or will be, from 1970 to the end of the year 9999.
    pub open spec fn valid(self) -> bool {
        &&& 1970 <= self.year <= 9999
        &&& 1 <= self.month <= 12
        &&& 1 <= self.day <= month_length(self.year, self.month)
        &&& 0 <= self.hour < 24
        &&& 0 <= self.minute < 60
        &&& 0 <= self.second < 60
    }

    /// The whole days before it, since 1970 began.
    pub open spec fn days(self) -> int {
        days_to_year(self.year) + days_to_month(self.year, self.month) + self.day - 1
    }

    /// The seconds before it, since 1970 began.
    pub open spec fn seconds(self) -> int {
        self.days() * 86400 + self.hour * 3600 + self.minute * 60 + self.second
    }

    /// `YYYY-MM-DDTHH:MM:SS`.
    pub open spec fn written(self) -> Seq<u8> {
        four_digits(self.year) + seq![0x2Du8] + two_digits(self.month) + seq![0x2Du8] + two_digits(
            self.day,
        ) + seq![0x54u8] + two_digits(self.hour) + seq![0x3Au8] + two_digits(self.minute)
            + seq![0x3Au8] + two_digits(self.second)
    }
}

/// The instant that a number of seconds leads to.
pub open spec fn instant_at(seconds: int) -> Instant {
    choose|i: Instant| i.valid() && i.seconds() == seconds
}

pub open spec fn digit(n: int) -> u8 {
    (0x30 + n % 10) as u8
}

pub open spec fn two_digits(n: int) -> Seq<u8> {
    seq![digit(n / 10), digit(n)]
}

pub open spec fn four_digits(n: int) -> Seq<u8> {
    seq![digit(n / 1000), digit(n / 100), digit(n / 10), digit(n)]
}

proof fn two_digits_spell(n: int)
    requires
        0 <= n <= 99,
    ensures
        number_in(two_digits(n)) == Some(n),
{
    reveal_with_fuel(digits_value, 3);
    let s = two_digits(n);
    assert(s.drop_last() =~= seq![s[0]]);
    assert(s.drop_last().drop_last() =~= Seq::<u8>::empty());
}

proof fn four_digits_spell(n: int)
    requires
        0 <= n <= 9999,
    ensures
        number_in(four_digits(n)) == Some(n),
{
    reveal_with_fuel(digits_value, 5);
    let s = four_digits(n);
    assert(s.drop_last() =~= seq![s[0], s[1], s[2]]);
    assert(s.drop_last().drop_last() =~= seq![s[0], s[1]]);
    assert(s.drop_last().drop_last().drop_last() =~= seq![s[0]]);
    assert(s.drop_last().drop_last().drop_last().drop_last() =~= Seq::<u8>::empty());
}

proof fn years_grow(y: int, z: int)
    requires
        1970 <= y < z,
    ensures
        days_to_year(y) + year_length(y) <= days_to_year(z),
    decreases z,
{
    if y < z - 1 {
        years_grow(y, z - 1);
    }
}

proof fn months_grow(y: int, m: int, n: int)
    requires
        1 <= m < n,
    ensures
        days_to_month(y, m) + month_length(y, m) <= days_to_month(y, n),
    decreases n,
{
    if m < n - 1 {
        months_grow(y, m, n - 1);
    }
}

proof fn days_of_a_year(i: Instant)
    requires
        i.valid(),
    ensures
        0 <= days_to_month(i.year, i.month) + i.day - 1 < year_length(i.year),
{
    months_of_a_year(i.year);
    if i.month > 1 {
        months_grow(i.year, 1, i.month);
    }
    if i.month < 12 {
        months_grow(i.year, i.month, 12);
    }
}

proof fn years_are_bounded(y: int)
    requires
        1970 <= y,
    ensures
        0 <= days_to_year(y) <= 366 * (y - 1970),
    decreases y,
{
    if y > 1970 {
        years_are_bounded(y - 1);
    }
}

/// Two instants with the same seconds are the same.
pub proof fn seconds_tell_instants_apart(i: Instant, j: Instant)
    requires
        i.valid(),
        j.valid(),
        i.seconds() == j.seconds(),
    ensures
        i == j,
{
    days_of_a_year(i);
    days_of_a_year(j);
    assert(i.days() == j.days());
    if i.year < j.year {
        years_grow(i.year, j.year);
    } else if j.year < i.year {
        years_grow(j.year, i.year);
    }
    if i.month < j.month {
        months_grow(i.year, i.month, j.month);
    } else if j.month < i.month {
        months_grow(i.year, j.month, i.month);
    }
}

proof fn fields_of_a_text(i: Instant, rest: Seq<u8>)
    requires
        i.valid(),
    ensures
        (i.written() + rest).len() >= 19,
        (i.written() + rest).take(19) == i.written(),
        field(i.written() + rest, 0, 4) == Some(i.year),
        field(i.written() + rest, 5, 7) == Some(i.month),
        field(i.written() + rest, 8, 10) == Some(i.day),
        field(i.written() + rest, 11, 13) == Some(i.hour),
        field(i.written() + rest, 14, 16) == Some(i.minute),
        field(i.written() + rest, 17, 19) == Some(i.second),
{
    let bytes = i.written() + rest;
    assert(bytes.take(19) =~= i.written());
    assert(bytes.subrange(0, 4) =~= four_digits(i.year));
    assert(bytes.subrange(5, 7) =~= two_digits(i.month));
    assert(bytes.subrange(8, 10) =~= two_digits(i.day));
    assert(bytes.subrange(11, 13) =~= two_digits(i.hour));
    assert(bytes.subrange(14, 16) =~= two_digits(i.minute));
    assert(bytes.subrange(17, 19) =~= two_digits(i.second));
    two_digits_spell(i.month);
    two_digits_spell(i.day);
    two_digits_spell(i.hour);
    two_digits_spell(i.minute);
    two_digits_spell(i.second);
    four_digits_spell(i.year);
}

proof fn seconds_fit(i: Instant)
    requires
        i.valid(),
    ensures
        0 <= i.seconds() <= 1_000_000_000_000,
{
    days_of_a_year(i);
    years_are_bounded(i.year);
}

proof fn time_of_fields(bytes: Seq<u8>, i: Instant)
    requires
        i.valid(),
        bytes.len() >= 19,
        field(bytes, 0, 4) == Some(i.year),
        field(bytes, 5, 7) == Some(i.month),
        field(bytes, 8, 10) == Some(i.day),
        field(bytes, 11, 13) == Some(i.hour),
        field(bytes, 14, 16) == Some(i.minute),
        field(bytes, 17, 19) == Some(i.second),
    ensures
        time_in(bytes) == Some((1000 * i.seconds()) as u64),
{
    civil_days_add_up(i.year, i.month, i.day);
    seconds_fit(i);
}

/// The text of an instant, whatever follows its seconds (nothing, `Z`, or a
/// fraction and `Z`), gives a thousand times the seconds since 1970 began; and
/// that number gives the instant, and so its text, back.
pub proof fn times_give_their_instant_back(i: Instant, rest: Seq<u8>)
    requires
        i.valid(),
    ensures
        0 <= 1000 * i.seconds() <= u64::MAX,
        time_in(i.written() + rest) == Some((1000 * i.seconds()) as u64),
        instant_at(time_in(i.written() + rest).unwrap() as int / 1000) == i,
        instant_at(time_in(i.written() + rest).unwrap() as int / 1000).written() == (i.written()
            + rest).take(19),
{
    let bytes = i.written() + rest;
    fields_of_a_text(i, rest);
    time_of_fields(bytes, i);
    seconds_fit(i);
    let seconds = i.seconds();
    assert(1000 * seconds / 1000 == seconds);
    seconds_tell_instants_apart(instant_at(seconds), i);
}

} // verus!
