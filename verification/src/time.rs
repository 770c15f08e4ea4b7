//! Points in time.

use vstd::prelude::*;

verus! {

/// Nanoseconds in a second.
pub const NANOS_PER_SEC: i128 = 1_000_000_000;

/// The last second that the calendar reaches.
pub const MAX_UTC_SECS: i64 = 8_210_266_876_799;

/// The first second that the calendar reaches.
pub const MIN_UTC_SECS: i64 = -8_334_601_228_800;

/// A point in time: whole seconds since 1970-01-01 00:00:00 UTC, and the
/// nanoseconds behind them.
#[derive(Debug, Clone, Copy, PartialEq, Eq, Structural)]
pub struct Timestamp {
    pub secs: i64,
    pub nanos: u32,
}

impl Timestamp {
    /// Nanoseconds since 1970-01-01 00:00:00 UTC.
    pub open spec fn ticks(self) -> int {
        self.secs * 1_000_000_000 + self.nanos
    }

    /// The start of a second.
    pub fn at_second(secs: i64) -> (r: Self)
        ensures
            r == (Timestamp { secs, nanos: 0 }),
    {
        Timestamp { secs, nanos: 0 }
    }

    /// Nanoseconds since 1970-01-01 00:00:00 UTC.
    fn to_ticks(&self) -> (r: i128)
        ensures
            r == self.ticks(),
    {
        (self.secs as i128) * NANOS_PER_SEC + (self.nanos as i128)
    }

    /// Whether this point is later than `other`.
    pub fn is_after(&self, other: &Timestamp) -> (r: bool)
        ensures
            r == (self.ticks() > other.ticks()),
    {
        self.to_ticks() > other.to_ticks()
    }

    /// Whether more than `limit` seconds lie between `earlier` and this point.
    pub fn exceeds(&self, earlier: &Timestamp, limit: u64) -> (r: bool)
        ensures
            r == (self.ticks() - earlier.ticks() > limit * 1_000_000_000),
    {
        self.to_ticks() - earlier.to_ticks() > (limit as i128) * NANOS_PER_SEC
    }

    /// Whether `limit` seconds or more lie between `earlier` and this point.
    pub fn reaches(&self, earlier: &Timestamp, limit: u64) -> (r: bool)
        ensures
            r == (self.ticks() - earlier.ticks() >= limit * 1_000_000_000),
    {
        self.to_ticks() - earlier.to_ticks() >= (limit as i128) * NANOS_PER_SEC
    }

    /// The whole seconds between `earlier` and this point, without the rest;
    /// negative where this point is the earlier one.
    pub open spec fn whole_seconds_since(self, earlier: Timestamp) -> int {
        let d = self.ticks() - earlier.ticks();
        if d >= 0 {
            d / 1_000_000_000
        } else {
            -((-d) / 1_000_000_000)
        }
    }

    /// Whether more than `limit` whole seconds lie between `earlier` and this
    /// point.
    pub fn whole_seconds_exceed(&self, earlier: &Timestamp, limit: i64) -> (r: bool)
        ensures
            r == (self.whole_seconds_since(*earlier) > limit),
    {
        let d: i128 = self.to_ticks() - earlier.to_ticks();
        if d >= 0 {
            d / NANOS_PER_SEC > limit as i128
        } else {
            -((-d) / NANOS_PER_SEC) > limit as i128
        }
    }

    /// Whole seconds from `earlier` to this point, without the fraction; 0
    /// where `earlier` is later.
    pub fn seconds_since(&self, earlier: &Timestamp) -> (r: u64)
        ensures
            r == elapsed_seconds(*earlier, *self),
    {
        let d: i128 = self.to_ticks() - earlier.to_ticks();
        if d <= 0 {
            return 0;
        }
        let whole: i128 = d / NANOS_PER_SEC;
        if whole > u64::MAX as i128 {
            u64::MAX
        } else {
            whole as u64
        }
    }

    /// This point `secs` seconds later.
    pub fn plus_seconds(&self, secs: i64) -> (r: Self)
        requires
            i64::MIN <= self.secs + secs <= i64::MAX,
        ensures
            r.secs == self.secs + secs,
            r.nanos == self.nanos,
            r.ticks() == self.ticks() + secs * 1_000_000_000,
    {
        Timestamp { secs: self.secs + secs, nanos: self.nanos }
    }
}

/// Whole seconds between two points, without the fraction; 0 where the
/// second is not the later one, and never more than a `u64` holds.
pub open spec fn elapsed_seconds(from: Timestamp, to: Timestamp) -> nat {
    let whole = (to.ticks() - from.ticks()) / 1_000_000_000;
    if to.ticks() <= from.ticks() {
        0
    } else if whole > u64::MAX {
        u64::MAX as nat
    } else {
        whole as nat
    }
}

// ── The calendar ──
/// The days of the Gregorian calendar before a year that begins in March,
/// counted from the first such year.
pub open spec fn days_before_year(year: int) -> int {
    365 * year + year / 4 - year / 100 + year / 400
}

/// The year of a day, both counted as in `days_before_year`. The calendar
/// repeats itself after 400 years.
pub open spec fn year_of(since: int) -> int {
    let d = since % 146097;
    400 * (since / 146097) + (d - d / 1460 + d / 36524 - d / 146096) / 365
}

/// The date of a day of a year that begins in March.
pub open spec fn date_in_year(year: int, in_year: int) -> (int, int, int) {
    let month = (5 * in_year + 2) / 153;
    let in_month = in_year - (153 * month + 2) / 5;
    if month < 10 {
        (year, month + 3, in_month + 1)
    } else {
        (year + 1, month - 9, in_month + 1)
    }
}

/// The date of a day, counted from 1970-01-01: year, month and day. Years are
/// counted from March, so that a leap day ends its year.
pub open spec fn civil_date(day: int) -> (int, int, int) {
    let since = day + 719468;
    let year = year_of(since);
    date_in_year(year, since - days_before_year(year))
}

/// Whether a year has a leap day.
pub open spec fn is_leap(year: int) -> bool {
    year % 4 == 0 && (year % 100 != 0 || year % 400 == 0)
}

/// The days of a month.
pub open spec fn month_days(year: int, month: int) -> int {
    if month == 2 {
        if is_leap(year) {
            29
        } else {
            28
        }
    } else if month == 4 || month == 6 || month == 9 || month == 11 {
        30
    } else {
        31
    }
}

/// The day after a date.
pub open spec fn next_date(date: (int, int, int)) -> (int, int, int) {
    let (year, month, day) = date;
    if day < month_days(year, month) {
        (year, month, day + 1)
    } else if month < 12 {
        (year, month + 1, 1)
    } else {
        (year + 1, 1, 1)
    }
}

proof fn lemma_year_in_cycle(d: int)
    requires
        0 <= d < 146097,
    ensures
        ({
            let y = (d - d / 1460 + d / 36524 - d / 146096) / 365;
            0 <= y < 400 && days_before_year(y) <= d < days_before_year(y + 1)
        }),
{
}

proof fn lemma_cycle(c: int, y: int)
    ensures
        days_before_year(400 * c + y) == 146097 * c + days_before_year(y),
{
    assert((400 * c + y) / 4 == 100 * c + y / 4);
    assert((400 * c + y) / 100 == 4 * c + y / 100);
    assert((400 * c + y) / 400 == c + y / 400);
}

/// A day falls into its year.
proof fn lemma_year_of(since: int)
    ensures
        days_before_year(year_of(since)) <= since < days_before_year(year_of(since) + 1),
{
    let c = since / 146097;
    let d = since % 146097;
    let y = year_of(d);
    assert(since == 146097 * c + d);
    assert(d / 146097 == 0 && d % 146097 == d);
    lemma_year_in_cycle(d);
    lemma_cycle(c, y);
    lemma_cycle(c, y + 1);
    assert(year_of(since) == 400 * c + y);
}

proof fn lemma_next_quotient(y: int, k: int)
    requires
        k > 1,
    ensures
        (y + 1) / k == y / k + (if (y + 1) % k == 0 {
            1int
        } else {
            0int
        }),
{
    let q = y / k;
    let r = y % k;
    vstd::arithmetic::div_mod::lemma_fundamental_div_mod(y, k);
    if r + 1 < k {
        assert(y + 1 == q * k + (r + 1)) by (nonlinear_arith)
            requires
                y == k * q + r,
        ;
        vstd::arithmetic::div_mod::lemma_fundamental_div_mod_converse(y + 1, k, q, r + 1);
    } else {
        assert(y + 1 == (q + 1) * k + 0) by (nonlinear_arith)
            requires
                y == k * q + r,
                r + 1 == k,
        ;
        vstd::arithmetic::div_mod::lemma_fundamental_div_mod_converse(y + 1, k, q + 1, 0);
    }
}

/// A year that begins in March is a day longer before a leap year's February
/// ends.
proof fn lemma_year_days(y: int)
    ensures
        days_before_year(y + 1) - days_before_year(y) == if is_leap(y + 1) {
            366int
        } else {
            365int
        },
{
    lemma_next_quotient(y, 4);
    lemma_next_quotient(y, 100);
    lemma_next_quotient(y, 400);
    let z = y + 1;
    assert(z % 100 == 0 ==> z % 4 == 0);
    assert(z % 400 == 0 ==> z % 100 == 0);
}

proof fn lemma_years_grow(a: int, b: int)
    requires
        a <= b,
    ensures
        days_before_year(a) <= days_before_year(b),
    decreases b - a,
{
    if a < b {
        lemma_years_grow(a, b - 1);
        lemma_year_days(b - 1);
    }
}

/// The year that a day falls into is the only one.
proof fn lemma_year_is(since: int, y: int)
    requires
        days_before_year(y) <= since < days_before_year(y + 1),
    ensures
        year_of(since) == y,
{
    lemma_year_of(since);
    let z = year_of(since);
    if z < y {
        lemma_years_grow(z + 1, y);
    } else if z > y {
        lemma_years_grow(y + 1, z);
    }
}

proof fn lemma_next_in_year(year: int, in_year: int)
    requires
        0 <= in_year,
        in_year < 365 || is_leap(year + 1),
        in_year < 366,
    ensures
        next_date(date_in_year(year, in_year)) == if in_year == 365 || (in_year == 364 && !is_leap(
            year + 1,
        )) {
            date_in_year(year + 1, 0)
        } else {
            date_in_year(year, in_year + 1)
        },
{
    let month = (5 * in_year + 2) / 153;
    assert(0 <= month <= 11);
}

/// The calendar begins at 1970-01-01 and goes on day by day.
pub proof fn law_calendar(day: int)
    ensures
        civil_date(0) == (1970int, 1int, 1int),
        civil_date(day + 1) == next_date(civil_date(day)),
{
    lemma_year_is(719468, 1969);
    let since = day + 719468;
    let y = year_of(since);
    lemma_year_of(since);
    lemma_year_days(y);
    lemma_year_days(y + 1);
    lemma_next_in_year(y, since - days_before_year(y));
    if since + 1 < days_before_year(y + 1) {
        lemma_year_is(since + 1, y);
    } else {
        lemma_year_is(since + 1, y + 1);
    }
}

} // verus!
