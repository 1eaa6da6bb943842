//! Moments, days and how they are written.
//!
//! A moment is a number of seconds since the Unix epoch with a fraction in nanoseconds; a day is
//! its number in the proleptic Gregorian calendar, with January 1 of year 1 as day 1. Arithmetic
//! and formatting are those of the `chrono` crate.
use chrono::Datelike;
use vstd::arithmetic::div_mod::*;
use vstd::prelude::*;

use crate::text;

verus! {

/// The first day that can be represented: January 1 of year -262143.
pub const FIRST_DAY: i32 = -95746129;

/// The last day that can be represented: December 31 of year 262142.
pub const LAST_DAY: i32 = 95745399;

/// The first second of `FIRST_DAY`, counted from the Unix epoch.
pub const FIRST_SECOND: i64 = -8334601228800;

/// The last second of `LAST_DAY`, counted from the Unix epoch.
pub const LAST_SECOND: i64 = 8210266876799;

/// The number of January 1, 1970.
pub const EPOCH_DAY: i32 = 719163;

/// The longest span, in seconds, that can be added to a moment.
pub const LONGEST_SPAN: i64 = 9223372036854775;

/// A moment. A fraction of a whole second or more marks a leap second, which only the last second
/// of a minute can be followed by.
#[derive(Debug, Clone, Copy, PartialEq, Eq, Structural)]
pub struct Moment {
    /// Seconds since the Unix epoch, without leap seconds.
    pub secs: i64,
    /// Nanoseconds into the second.
    pub nanos: u32,
}

impl Moment {
    /// Whether the moment can be represented.
    pub open spec fn valid(self) -> bool {
        &&& FIRST_SECOND <= self.secs <= LAST_SECOND
        &&& self.nanos < 2_000_000_000
        &&& self.nanos >= 1_000_000_000 ==> self.secs as int % 60 == 59
    }

    /// Whether the moment lies in a leap second.
    pub open spec fn leap(self) -> bool {
        self.nanos >= 1_000_000_000
    }

    /// Whether `self` comes after `other`.
    pub open spec fn after(self, other: Moment) -> bool {
        self.secs > other.secs || (self.secs == other.secs && self.nanos > other.nanos)
    }

    /// Whether the moment can be represented.
    pub fn is_valid(&self) -> (r: bool)
        ensures
            r == self.valid(),
    {
        if self.secs < FIRST_SECOND || self.secs > LAST_SECOND || self.nanos >= 2_000_000_000 {
            return false;
        }
        if self.nanos < 1_000_000_000 {
            return true;
        }
        (self.secs - FIRST_SECOND) % 60 == 59
    }

    /// Whether `self` comes after `other`.
    pub fn is_after(&self, other: &Moment) -> (r: bool)
        ensures
            r == self.after(*other),
    {
        self.secs > other.secs || (self.secs == other.secs && self.nanos > other.nanos)
    }
}

// ---------------------------------------------------------------------------
// Spans
// ---------------------------------------------------------------------------

/// The moment `span` seconds after `m`, as a pair of seconds and nanoseconds. Leaving a leap second
/// drops it: forward it counts as its minute's last second, backward as the next minute's first.
pub open spec fn shifted(m: Moment, span: int) -> (int, int) {
    if m.leap() && span > 0 {
        (m.secs + span, m.nanos - 1_000_000_000)
    } else if m.leap() && span < 0 {
        (m.secs + 1 + span, m.nanos - 1_000_000_000)
    } else {
        (m.secs + span, m.nanos as int)
    }
}

/// The moment `span` seconds after `m`, where it can be represented.
pub open spec fn shifted_moment(m: Moment, span: int) -> Moment {
    Moment { secs: shifted(m, span).0 as i64, nanos: shifted(m, span).1 as u32 }
}

/// Whether `span` seconds can be added to `m`.
pub open spec fn can_shift(m: Moment, span: int) -> bool {
    &&& -LONGEST_SPAN <= span <= LONGEST_SPAN
    &&& FIRST_SECOND <= shifted(m, span).0 <= LAST_SECOND
}

/// Whether `span` seconds can be added to `m`.
pub fn is_shiftable(m: Moment, span: i64) -> (r: bool)
    requires
        m.valid(),
    ensures
        r == can_shift(m, span as int),
{
    if span < -LONGEST_SPAN || span > LONGEST_SPAN {
        return false;
    }
    let leap: i64 = if m.nanos >= 1_000_000_000 && span < 0 {
        1
    } else {
        0
    };
    let end: i64 = m.secs + leap + span;
    FIRST_SECOND <= end && end <= LAST_SECOND
}

/// `chrono::DateTime::checked_add_signed` with a whole number of seconds: the moment that many
/// seconds later, if it can be represented.
#[verifier::external_body]
fn add_seconds(m: Moment, span: i64) -> (r: Option<Moment>)
    requires
        m.valid(),
    ensures
        r is Some <==> can_shift(m, span as int),
        r matches Some(x) ==> (x.secs as int, x.nanos as int) == shifted(m, span as int),
{
    let start = chrono::DateTime::from_timestamp(m.secs, m.nanos)?;
    let end = start.checked_add_signed(chrono::TimeDelta::try_seconds(span)?)?;
    Some(Moment { secs: end.timestamp(), nanos: end.timestamp_subsec_nanos() })
}

/// The moment `span` seconds after `m`.
pub fn shift(m: Moment, span: i64) -> (r: Moment)
    requires
        m.valid(),
        can_shift(m, span as int),
    ensures
        (r.secs as int, r.nanos as int) == shifted(m, span as int),
        r == shifted_moment(m, span as int),
        r.valid(),
{
    match add_seconds(m, span) {
        Some(x) => x,
        None => m,
    }
}

/// How many seconds of its day have passed at second `secs`.
pub open spec fn second_of_day(secs: int) -> int {
    secs % 86400
}

/// The nanoseconds from `from` to `to`. Seconds are counted as if none were a leap second, but
/// for a leap second in the earlier of two times of day.
pub open spec fn nanos_between(from: Moment, to: Moment) -> int {
    let extra: int = if second_of_day(to.secs as int) > second_of_day(from.secs as int)
        && from.leap() {
        1
    } else if second_of_day(to.secs as int) < second_of_day(from.secs as int) && to.leap() {
        -1
    } else {
        0
    };
    (to.secs - from.secs + extra) * 1_000_000_000 + to.nanos - from.nanos
}

/// A time to wait.
#[derive(Debug, Clone, Copy, PartialEq, Eq, Structural)]
pub struct Wait {
    pub secs: u64,
    pub nanos: u32,
}

impl Wait {
    /// The wait in nanoseconds.
    pub open spec fn total(self) -> int {
        self.secs * 1_000_000_000 + self.nanos
    }

    /// Whether the fraction is below a second.
    pub open spec fn valid(self) -> bool {
        self.nanos < 1_000_000_000
    }
}

/// `chrono::DateTime - chrono::DateTime`, then `chrono::TimeDelta::to_std`: the time from one
/// moment to the other, or nothing where it is negative.
#[verifier::external_body]
fn elapsed(from: Moment, to: Moment) -> (r: Option<Wait>)
    requires
        from.valid(),
        to.valid(),
    ensures
        r is Some <==> nanos_between(from, to) >= 0,
        r matches Some(w) ==> w.valid() && w.total() == nanos_between(from, to),
{
    let start = chrono::DateTime::from_timestamp(from.secs, from.nanos)?;
    let end = chrono::DateTime::from_timestamp(to.secs, to.nanos)?;
    let span = (end - start).to_std().ok()?;
    Some(Wait { secs: span.as_secs(), nanos: span.subsec_nanos() })
}

/// The nanoseconds from `from` to `to`, or none at all where `to` does not come later.
pub open spec fn nanos_until(from: Moment, to: Moment) -> int {
    if nanos_between(from, to) >= 0 {
        nanos_between(from, to)
    } else {
        0
    }
}

/// The time from `from` to `to`, or none at all where `to` does not come later.
pub fn wait_between(from: Moment, to: Moment) -> (r: Wait)
    requires
        from.valid(),
        to.valid(),
    ensures
        r.valid(),
        r.total() == nanos_until(from, to),
{
    match elapsed(from, to) {
        Some(w) => w,
        None => Wait { secs: 0, nanos: 0 },
    }
}

/// A span added to a moment is the time between the two. Out of a leap second that holds only where
/// a span forward ends at a later time of day, and one backward does not.
pub proof fn law_wait_undoes_shift(m: Moment, later: Moment, span: int)
    requires
        m.valid(),
        (later.secs as int, later.nanos as int) == shifted(m, span),
        m.leap() && span != 0 ==> (span > 0 <==> second_of_day(later.secs as int) > second_of_day(
            m.secs as int,
        )),
    ensures
        nanos_between(m, later) == span * 1_000_000_000,
{
}

// ---------------------------------------------------------------------------
// Days
// ---------------------------------------------------------------------------

/// The day on which second `secs` falls where clocks are `offset` seconds ahead of UTC.
pub open spec fn day_at(secs: int, offset: int) -> int {
    (secs + offset) / 86400 + EPOCH_DAY
}

/// A UTC offset: less than a day either way.
pub open spec fn valid_offset(offset: i32) -> bool {
    -86400 < offset < 86400
}

/// Whether the number of seconds is a UTC offset.
pub fn is_offset(offset: i32) -> (r: bool)
    ensures
        r == valid_offset(offset),
{
    -86400 < offset && offset < 86400
}

/// The day on which `m` falls where clocks are `offset` seconds ahead of UTC.
pub fn local_day(m: Moment, offset: i32) -> (r: i32)
    requires
        m.valid(),
        valid_offset(offset),
    ensures
        r == day_at(m.secs as int, offset as int),
        FIRST_DAY - 1 <= r <= LAST_DAY + 1,
{
    let days: i64 = (m.secs + offset as i64 - (FIRST_SECOND - 86400)) / 86400;
    (days + (FIRST_DAY - 1) as i64) as i32
}

/// How many days `day` comes after Monday.
pub open spec fn weekday(day: int) -> int {
    (day - 1) % 7
}

/// `chrono::Weekday::num_days_from_monday` of a day's weekday. Day 1 was a Monday.
#[verifier::external_body]
pub(crate) fn days_from_monday(day: i32) -> (r: i32)
    requires
        FIRST_DAY <= day <= LAST_DAY,
    ensures
        r == weekday(day as int),
{
    let date = chrono::NaiveDate::from_num_days_from_ce_opt(day).unwrap();
    date.weekday().num_days_from_monday() as i32
}

/// The short English name of the weekday `w` days after Monday.
pub open spec fn weekday_name(w: int) -> Seq<char> {
    if w == 0 {
        "Mon"@
    } else if w == 1 {
        "Tue"@
    } else if w == 2 {
        "Wed"@
    } else if w == 3 {
        "Thu"@
    } else if w == 4 {
        "Fri"@
    } else if w == 5 {
        "Sat"@
    } else {
        "Sun"@
    }
}

/// How `chrono::Weekday` is displayed: the weekday's short English name.
#[verifier::external_body]
pub(crate) fn weekday_text(day: i32) -> (r: String)
    requires
        FIRST_DAY <= day <= LAST_DAY,
    ensures
        r@ == weekday_name(weekday(day as int)),
{
    let date = chrono::NaiveDate::from_num_days_from_ce_opt(day).unwrap();
    date.weekday().to_string()
}

// ---------------------------------------------------------------------------
// The Gregorian calendar
// ---------------------------------------------------------------------------

/// Whether year `y` has a February 29.
pub open spec fn leap_year(y: int) -> bool {
    y % 4 == 0 && (y % 100 != 0 || y % 400 == 0)
}

/// The number of the last day before year `y`.
pub open spec fn days_before_year(y: int) -> int {
    365 * (y - 1) + (y - 1) / 4 - (y - 1) / 100 + (y - 1) / 400
}

/// How many days month `m` of year `y` has.
pub open spec fn month_length(y: int, m: int) -> int {
    if m == 2 {
        if leap_year(y) {
            29
        } else {
            28
        }
    } else if m == 4 || m == 6 || m == 9 || m == 11 {
        30
    } else {
        31
    }
}

/// How many days of year `y` come before month `m`.
pub open spec fn days_before_month(y: int, m: int) -> int
    decreases m,
{
    if m <= 1 {
        0
    } else {
        days_before_month(y, m - 1) + month_length(y, m - 1)
    }
}

/// A year, a month from 1 to 12 and a day of the month from 1.
pub struct Date {
    pub year: int,
    pub month: int,
    pub day: int,
}

impl Date {
    /// Whether the calendar has that date.
    pub open spec fn on_calendar(self) -> bool {
        1 <= self.month <= 12 && 1 <= self.day <= month_length(self.year, self.month)
    }

    /// The date's day number.
    pub open spec fn number(self) -> int {
        days_before_year(self.year) + days_before_month(self.year, self.month) + self.day
    }
}

/// The date of the day with number `n`.
pub open spec fn date_of(n: int) -> Date {
    choose|d: Date| d.on_calendar() && #[trigger] d.number() == n
}

/// Twelve months make a year of 365 or 366 days.
proof fn lemma_month_sum(y: int)
    ensures
        days_before_month(y, 12) + 31 == if leap_year(y) {
            366int
        } else {
            365
        },
{
    let feb = month_length(y, 2);
    assert(days_before_month(y, 1) == 0);
    assert(days_before_month(y, 2) == 31);
    assert(days_before_month(y, 3) == 31 + feb);
    assert(days_before_month(y, 4) == 62 + feb);
    assert(days_before_month(y, 5) == 92 + feb);
    assert(days_before_month(y, 6) == 123 + feb);
    assert(days_before_month(y, 7) == 153 + feb);
    assert(days_before_month(y, 8) == 184 + feb);
    assert(days_before_month(y, 9) == 215 + feb);
    assert(days_before_month(y, 10) == 245 + feb);
    assert(days_before_month(y, 11) == 276 + feb);
    assert(days_before_month(y, 12) == 306 + feb);
}

/// A quotient grows by one just at the multiples of its divisor.
proof fn lemma_quotient_step(y: int, d: int)
    requires
        d > 1,
    ensures
        y / d == (y - 1) / d + if y % d == 0 {
            1int
        } else {
            0
        },
{
    let q = y / d;
    let r = y % d;
    lemma_fundamental_div_mod(y, d);
    lemma_mod_bound(y, d);
    if r == 0 {
        assert((q - 1) * d == q * d - d) by (nonlinear_arith);
        assert(q * d == d * q) by (nonlinear_arith);
        lemma_fundamental_div_mod_converse(y - 1, d, q - 1, d - 1);
    } else {
        assert(q * d == d * q) by (nonlinear_arith);
        lemma_fundamental_div_mod_converse(y - 1, d, q, r - 1);
    }
}

/// A multiple of a product is a multiple of its factors.
proof fn lemma_multiple(y: int, product: int, a: int, b: int)
    requires
        a > 0,
        b > 0,
        product == a * b,
        y % product == 0,
    ensures
        y % a == 0,
{
    assert(product > 0) by (nonlinear_arith)
        requires
            a > 0,
            b > 0,
            product == a * b,
    ;
    lemma_fundamental_div_mod(y, product);
    let q = y / product;
    assert(product * q == (b * q) * a) by (nonlinear_arith)
        requires
            product == a * b,
    ;
    lemma_fundamental_div_mod_converse(y, a, b * q, 0);
}

/// A year's days are the difference to the next year's beginning.
proof fn lemma_year_length(y: int)
    ensures
        days_before_month(y, 12) + 31 == if leap_year(y) {
            366int
        } else {
            365
        },
        days_before_year(y + 1) == days_before_year(y) + days_before_month(y, 12) + 31,
{
    lemma_month_sum(y);
    lemma_quotient_step(y, 4);
    lemma_quotient_step(y, 100);
    lemma_quotient_step(y, 400);
    if y % 400 == 0 {
        lemma_multiple(y, 400, 100, 4);
    }
    if y % 100 == 0 {
        lemma_multiple(y, 100, 4, 25);
    }
}

/// Every day number has a date.
proof fn lemma_date_found(n: int)
    ensures
        exists|d: Date| d.on_calendar() && #[trigger] d.number() == n,
    decreases
            if n >= 1 {
                n
            } else {
                2 - n
            },
{
    if n == 1 {
        let d = Date { year: 1, month: 1, day: 1 };
        assert(d.on_calendar() && d.number() == 1);
    } else if n > 1 {
        lemma_date_found(n - 1);
        let p = choose|d: Date| d.on_calendar() && #[trigger] d.number() == n - 1;
        let d = if p.day < month_length(p.year, p.month) {
            Date { year: p.year, month: p.month, day: p.day + 1 }
        } else if p.month < 12 {
            Date { year: p.year, month: p.month + 1, day: 1 }
        } else {
            Date { year: p.year + 1, month: 1, day: 1 }
        };
        lemma_year_length(p.year);
        assert(d.on_calendar() && d.number() == n);
    } else {
        lemma_date_found(n + 1);
        let p = choose|d: Date| d.on_calendar() && #[trigger] d.number() == n + 1;
        let d = if p.day > 1 {
            Date { year: p.year, month: p.month, day: p.day - 1 }
        } else if p.month > 1 {
            Date {
                year: p.year,
                month: p.month - 1,
                day: month_length(p.year, p.month - 1),
            }
        } else {
            Date { year: p.year - 1, month: 12, day: 31 }
        };
        lemma_year_length(p.year - 1);
        assert(d.on_calendar() && d.number() == n);
    }
}

/// A month's days come after all earlier months of its year.
proof fn lemma_months_ordered(y: int, a: int, b: int)
    requires
        1 <= a < b <= 13,
    ensures
        days_before_month(y, a) + month_length(y, a) <= days_before_month(y, b),
        days_before_month(y, a) >= 0,
    decreases b,
{
    if a + 1 < b {
        lemma_months_ordered(y, a, b - 1);
    } else if a > 1 {
        lemma_months_ordered(y, a - 1, a);
    }
}

/// A year's days come after all earlier years.
proof fn lemma_years_ordered(a: int, b: int)
    requires
        a < b,
    ensures
        days_before_year(a) + (if leap_year(a) {
            366int
        } else {
            365
        }) <= days_before_year(b),
    decreases b - a,
{
    lemma_year_length(b - 1);
    if a + 1 < b {
        lemma_years_ordered(a, b - 1);
    }
}

/// Where a date's day lies in its year.
proof fn lemma_within_year(d: Date)
    requires
        d.on_calendar(),
    ensures
        days_before_year(d.year) < d.number() <= days_before_year(d.year) + (if leap_year(
            d.year,
        ) {
            366int
        } else {
            365
        }),
{
    lemma_year_length(d.year);
    if d.month < 12 {
        lemma_months_ordered(d.year, d.month, 12);
    } else {
        lemma_months_ordered(d.year, 1, 12);
    }
}

/// Each day has one date, and each date one day.
pub proof fn law_dates(n: int, d: Date)
    ensures
        date_of(n).on_calendar(),
        date_of(n).number() == n,
        d.on_calendar() && d.number() == n ==> d == date_of(n),
{
    lemma_date_found(n);
    let c = date_of(n);
    if d.on_calendar() && d.number() == n && d != c {
        lemma_within_year(c);
        lemma_within_year(d);
        if c.year < d.year {
            lemma_years_ordered(c.year, d.year);
        } else if d.year < c.year {
            lemma_years_ordered(d.year, c.year);
        } else if c.month < d.month {
            lemma_months_ordered(c.year, c.month, d.month);
        } else if d.month < c.month {
            lemma_months_ordered(c.year, d.month, c.month);
        }
    }
}

// ---------------------------------------------------------------------------
// Written dates and times
// ---------------------------------------------------------------------------

/// A year as it is written: four digits, or a sign and at least four digits outside 0 to 9999.
pub open spec fn year_text(y: int) -> Seq<char> {
    if 0 <= y <= 9999 {
        text::last_digits(y, 4)
    } else {
        let sign = if y < 0 {
            '-'
        } else {
            '+'
        };
        let size = if y < 0 {
            -y
        } else {
            y
        };
        seq![sign] + if size <= 9999 {
            text::last_digits(size, 4)
        } else {
            text::decimal(size as nat)
        }
    }
}

/// A date as `day.month.year`.
pub open spec fn dotted_date(n: int) -> Seq<char> {
    let d = date_of(n);
    text::last_digits(d.day, 2).push('.') + text::last_digits(d.month, 2).push('.') + year_text(
        d.year,
    )
}

/// `chrono::NaiveDate::format` with `%d.%m.%Y`: the date's day and month in two digits each and
/// its year, with dots between them.
#[verifier::external_body]
pub(crate) fn date_text(day: i32) -> (r: String)
    requires
        FIRST_DAY <= day <= LAST_DAY,
    ensures
        r@ == dotted_date(day as int),
{
    chrono::NaiveDate::from_num_days_from_ce_opt(day).unwrap().format("%d.%m.%Y").to_string()
}

/// Hour and minute of a time of day.
pub open spec fn clock(second: int) -> Seq<char> {
    text::last_digits(second / 3600, 2).push(':') + text::last_digits(second / 60 % 60, 2)
}

/// `chrono::DateTime::format` with `%H:%M`: the hour and the minute, in two digits each, where
/// clocks are `offset` seconds ahead of UTC.
#[verifier::external_body]
pub(crate) fn clock_text(m: Moment, offset: i32) -> (r: String)
    requires
        m.valid(),
        valid_offset(offset),
    ensures
        r@ == clock(second_of_day(m.secs + offset)),
{
    let zone = chrono::FixedOffset::east_opt(offset).unwrap();
    let time = chrono::DateTime::from_timestamp(m.secs, m.nanos).unwrap();
    time.with_timezone(&zone).format("%H:%M").to_string()
}

/// A local time as `year-month-dayThour:minute:second.milliseconds`; a leap second is second 60.
pub open spec fn stamp(m: Moment, offset: int) -> Seq<char> {
    let d = date_of(day_at(m.secs as int, offset));
    let t = second_of_day(m.secs + offset);
    let second = t % 60 + if m.leap() {
        1int
    } else {
        0
    };
    year_text(d.year).push('-') + text::last_digits(d.month, 2).push('-') + text::last_digits(
        d.day,
        2,
    ).push('T') + clock(t).push(':') + text::last_digits(second, 2).push('.') + text::last_digits(
        m.nanos as int / 1_000_000,
        3,
    )
}

/// `chrono::DateTime::format` with `%Y-%m-%dT%H:%M:%S%.3f`: the local time down to the
/// millisecond where clocks are `offset` seconds ahead of UTC.
#[verifier::external_body]
pub(crate) fn stamp_text(m: Moment, offset: i32) -> (r: String)
    requires
        m.valid(),
        valid_offset(offset),
    ensures
        r@ == stamp(m, offset as int),
{
    let zone = chrono::FixedOffset::east_opt(offset).unwrap();
    let time = chrono::DateTime::from_timestamp(m.secs, m.nanos).unwrap();
    time.with_timezone(&zone).format("%Y-%m-%dT%H:%M:%S%.3f").to_string()
}

// ---------------------------------------------------------------------------
// Laws
// ---------------------------------------------------------------------------

/// A moment falls on the day whose 86400 seconds, counted from its midnight by local clocks, it
/// lies in. Day 719163 began at second 0 by UTC.
pub proof fn law_local_day(secs: int, offset: int)
    ensures
        86400 * (day_at(secs, offset) - 719163) <= secs + offset < 86400 * (day_at(secs, offset)
            - 719163) + 86400,
{
}

/// Outside leap seconds, later means more nanoseconds, and the wait from one moment to another is
/// the difference, or nothing where the other does not come later. Shifting adds the span.
pub proof fn law_plain_moments(a: Moment, b: Moment, span: int)
    requires
        a.nanos < 1_000_000_000,
        b.nanos < 1_000_000_000,
    ensures
        b.after(a) <==> b.secs * 1_000_000_000 + b.nanos > a.secs * 1_000_000_000 + a.nanos,
        b.after(a) ==> nanos_until(a, b) == (b.secs - a.secs) * 1_000_000_000 + b.nanos - a.nanos,
        !b.after(a) ==> nanos_until(a, b) == 0,
        shifted(a, span) == (a.secs + span, a.nanos as int),
{
}

/// Of two different moments exactly one comes after the other, and order carries over.
pub proof fn law_moments_ordered(a: Moment, b: Moment, c: Moment)
    ensures
        !a.after(a),
        a == b || (a.after(b) <==> !b.after(a)),
        a.after(b) && b.after(c) ==> a.after(c),
{
}

/// Every second from the first to the last, with any fraction below a whole one, is a moment.
pub proof fn law_moments_valid(m: Moment)
    requires
        -8334601228800 <= m.secs <= 8210266876799,
        m.nanos < 1_000_000_000,
    ensures
        m.valid(),
{
}

/// Weekdays go round: Monday is the day with number 1, and every seventh from it.
pub proof fn law_weekday(day: int)
    ensures
        0 <= weekday(day) < 7,
        weekday(1) == 0,
        weekday(day + 1) == (weekday(day) + 1) % 7,
{
}

} // verus!
