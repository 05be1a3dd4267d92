//! Moments in time, and the civil calendar in UTC.

use vstd::prelude::*;

verus! {

/// Nanoseconds in a second.
pub const NANOS_PER_SEC: u32 = 1_000_000_000;

/// Seconds in a day.
pub const SECS_PER_DAY: u64 = 86_400;

/// A moment: `secs` whole seconds after 1970-01-01T00:00:00Z, negative before it,
/// and `nanos` nanoseconds more.
#[derive(Debug, Clone, Copy, PartialEq, Eq, Structural)]
pub struct Timestamp {
    pub secs: i64,
    pub nanos: u32,
}

impl Timestamp {
    /// The nanoseconds are a proper fraction of a second.
    pub open spec fn wf(self) -> bool {
        self.nanos < NANOS_PER_SEC
    }

    /// Nanoseconds since the epoch.
    pub open spec fn since_epoch(self) -> int {
        self.secs * NANOS_PER_SEC + self.nanos
    }

    /// `self` is `other` or a later moment.
    pub open spec fn at_or_after(self, other: Timestamp) -> bool {
        self.secs > other.secs || (self.secs == other.secs && self.nanos >= other.nanos)
    }

    /// The moment `secs` seconds and `nanos` nanoseconds after `self`, if it can be
    /// told by 64-bit seconds.
    pub open spec fn plus(self, secs: int, nanos: int) -> Option<Timestamp> {
        let total = self.since_epoch() + secs * NANOS_PER_SEC + nanos;
        if total / (NANOS_PER_SEC as int) <= i64::MAX {
            Some(
                Timestamp {
                    secs: (total / (NANOS_PER_SEC as int)) as i64,
                    nanos: (total % (NANOS_PER_SEC as int)) as u32,
                },
            )
        } else {
            None
        }
    }

    /// The epoch, 1970-01-01T00:00:00Z.
    pub open spec fn epoch() -> Timestamp {
        Timestamp { secs: 0, nanos: 0 }
    }

    /// The moment `secs` seconds and `nanos` nanoseconds after `self`; `None` where
    /// 64-bit seconds do not reach it.
    pub fn checked_add(self, secs: u64, nanos: u32) -> (r: Option<Timestamp>)
        requires
            self.wf(),
            nanos < NANOS_PER_SEC,
        ensures
            r == self.plus(secs as int, nanos as int),
            r matches Some(t) ==> t.wf() && t.since_epoch() == self.since_epoch() + secs
                * NANOS_PER_SEC + nanos,
    {
        let mut n: u32 = self.nanos + nanos;
        let mut s: i128 = self.secs as i128 + secs as i128;
        let ghost total = self.since_epoch() + secs * NANOS_PER_SEC + nanos;
        assert(total == s * 1_000_000_000 + n);
        if n >= NANOS_PER_SEC {
            n = n - NANOS_PER_SEC;
            s = s + 1;
        }
        assert(total == s * 1_000_000_000 + n);
        assert(total / 1_000_000_000 == s);
        assert(total % 1_000_000_000 == n);
        if s <= 0x7fff_ffff_ffff_ffff {
            Some(Timestamp { secs: s as i64, nanos: n })
        } else {
            None
        }
    }

    /// The moment `secs` seconds after the epoch; `None` where 64-bit seconds do not
    /// reach it.
    pub fn from_unix(secs: u64) -> (r: Option<Timestamp>)
        ensures
            r == Timestamp::epoch().plus(secs as int, 0),
            r == (if secs <= i64::MAX {
                Some(Timestamp { secs: secs as i64, nanos: 0 })
            } else {
                None
            }),
    {
        Timestamp { secs: 0, nanos: 0 }.checked_add(secs, 0)
    }

    /// The moment `secs` seconds and `nanos` nanoseconds before the epoch; `None` where
    /// 64-bit seconds do not reach it.
    pub fn before_epoch(secs: u64, nanos: u32) -> (r: Option<Timestamp>)
        requires
            nanos < NANOS_PER_SEC,
        ensures
            r is Some <==> -(secs * NANOS_PER_SEC + nanos) >= i64::MIN * NANOS_PER_SEC,
            r matches Some(t) ==> t.wf() && t.since_epoch() == -(secs * NANOS_PER_SEC + nanos),
    {
        let whole: i128 = -(secs as i128);
        if nanos == 0 {
            if whole >= -0x8000_0000_0000_0000 {
                Some(Timestamp { secs: whole as i64, nanos: 0 })
            } else {
                None
            }
        } else if whole > -0x8000_0000_0000_0000 {
            Some(Timestamp { secs: (whole - 1) as i64, nanos: NANOS_PER_SEC - nanos })
        } else {
            None
        }
    }

    /// Whether `self` is `other` or a later moment.
    pub fn is_at_or_after(self, other: Timestamp) -> (r: bool)
        ensures
            r == self.at_or_after(other),
    {
        self.secs > other.secs || (self.secs == other.secs && self.nanos >= other.nanos)
    }
}

// ---------------------------------------------------------------------------
// The civil calendar
// ---------------------------------------------------------------------------

/// `y` is a leap year of the Gregorian calendar.
pub open spec fn is_leap(y: int) -> bool {
    y % 4 == 0 && (y % 100 != 0 || y % 400 == 0)
}

/// Days in year `y`.
pub open spec fn year_days(y: int) -> int {
    if is_leap(y) {
        366
    } else {
        365
    }
}

/// Days in month `m` of year `y`.
pub open spec fn month_days(y: int, m: int) -> int {
    if m == 2 {
        if is_leap(y) {
            29
        } else {
            28
        }
    } else if m == 4 || m == 6 || m == 9 || m == 11 {
        30
    } else {
        31
    }
}

/// Days from 1970-01-01 to the start of year `y`.
pub open spec fn days_before_year(y: int) -> int
    decreases y - 1970,
{
    if y <= 1970 {
        0
    } else {
        days_before_year(y - 1) + year_days(y - 1)
    }
}

/// Days from the start of year `y` to the start of its month `m`.
pub open spec fn days_before_month(y: int, m: int) -> int
    decreases m,
{
    if m <= 1 {
        0
    } else {
        days_before_month(y, m - 1) + month_days(y, m - 1)
    }
}

/// Days from 1970-01-01 to the given date.
pub open spec fn civil_days(y: int, m: int, d: int) -> int {
    days_before_year(y) + days_before_month(y, m) + d - 1
}

/// Seconds from 1970-01-01T00:00:00Z to the given date and time of day.
pub open spec fn civil_seconds(y: int, m: int, d: int, h: int, min: int, s: int) -> int {
    civil_days(y, m, d) * 86_400 + h * 3_600 + min * 60 + s
}

/// How many leap years there are up to year `n`.
spec fn leaps(n: int) -> int {
    n / 4 - n / 100 + n / 400
}

proof fn lemma_leap_step(y: int)
    ensures
        leaps(y) == leaps(y - 1) + (if is_leap(y) {
            1int
        } else {
            0int
        }),
{
    assert(y / 4 == (y - 1) / 4 + (if y % 4 == 0 {
        1int
    } else {
        0int
    }));
    assert(y / 100 == (y - 1) / 100 + (if y % 100 == 0 {
        1int
    } else {
        0int
    }));
    assert(y / 400 == (y - 1) / 400 + (if y % 400 == 0 {
        1int
    } else {
        0int
    }));
}

proof fn lemma_days_before_year(y: int)
    requires
        1970 <= y,
    ensures
        days_before_year(y) == 365 * (y - 1970) + leaps(y - 1) - 477,
    decreases y,
{
    if y > 1970 {
        lemma_days_before_year(y - 1);
        lemma_leap_step(y - 1);
    } else {
        assert(leaps(1969) == 477);
    }
}

proof fn lemma_days_before_month(y: int, m: int)
    requires
        0 <= m <= 12,
    ensures
        days_before_month(y, m) == (if m <= 1 {
            0int
        } else if m == 2 {
            31
        } else {
            (if m == 3 { 59int } else if m == 4 { 90 } else if m == 5 { 120 } else if m == 6 { 151
            } else if m == 7 { 181 } else if m == 8 { 212 } else if m == 9 { 243 } else if m
                == 10 { 273 } else if m == 11 { 304 } else { 334 }) + (if is_leap(y) {
                1int
            } else {
                0int
            })
        }),
    decreases m,
{
    if m > 1 {
        lemma_days_before_month(y, m - 1);
    }
}

/// Convert a UTC civil datetime to a Unix timestamp (seconds since 1970-01-01).
///
/// `None` before 1970 and for a month past December. The parts are not held to the
/// calendar otherwise: month 0 counts as January, and a day, hour, minute or second
/// past its end runs on into what follows. The day before 1970-01-01 has no number.
pub fn civil_to_unix(year: u64, month: u64, day: u64, h: u64, m: u64, s: u64) -> (r: Option<u64>)
    requires
        1970 <= year && month <= 12 ==> {
            &&& 0 <= civil_days(year as int, month as int, day as int)
            &&& civil_seconds(
                year as int,
                month as int,
                day as int,
                h as int,
                m as int,
                s as int,
            ) <= u64::MAX
        },
    ensures
        r is Some <==> 1970 <= year && month <= 12,
        r matches Some(t) ==> t == civil_seconds(
            year as int,
            month as int,
            day as int,
            h as int,
            m as int,
            s as int,
        ),
{
    if year < 1970 || month > 12 {
        return None;
    }
    let table: [u64; 13] = [0, 0, 31, 59, 90, 120, 151, 181, 212, 243, 273, 304, 334];
    let leap: bool = year % 4 == 0 && (year % 100 != 0 || year % 400 == 0);
    let leap_day: u64 = if leap && month > 2 {
        1
    } else {
        0
    };
    proof {
        lemma_days_before_year(year as int);
        lemma_days_before_month(year as int, month as int);
        assert(table@ =~= seq![0u64, 0, 31, 59, 90, 120, 151, 181, 212, 243, 273, 304, 334]);
    }
    let before_year: u64 = (year - 1970) * 365 + ((year - 1) / 4 - (year - 1) / 100 + (year - 1)
        / 400) - 477;
    let before_month: u64 = table[month as usize] + leap_day;
    let days: u64 = before_year + before_month + day - 1;
    Some(days * SECS_PER_DAY + h * 3_600 + m * 60 + s)
}

// ---------------------------------------------------------------------------
// Laws
// ---------------------------------------------------------------------------

/// A date of the civil calendar with a time of day.
pub open spec fn is_civil(y: int, m: int, d: int, h: int, min: int, s: int) -> bool {
    &&& 1970 <= y
    &&& 1 <= m <= 12
    &&& 1 <= d <= month_days(y, m)
    &&& 0 <= h < 24
    &&& 0 <= min < 60
    &&& 0 <= s < 60
}

proof fn lemma_months_fill_year(y: int)
    ensures
        days_before_month(y, 12) + month_days(y, 12) == year_days(y),
{
    lemma_days_before_month(y, 12);
}

/// One day follows the other without a gap: within a month, from the last day of a
/// month to the first of the next, and from the last day of a year to the first of
/// the next.
pub proof fn law_days_are_consecutive(y: int, m: int, d: int)
    requires
        1970 <= y,
        1 <= m <= 12,
        1 <= d <= month_days(y, m),
    ensures
        civil_days(y, m, d + 1) == civil_days(y, m, d) + 1,
        m < 12 ==> civil_days(y, m + 1, 1) == civil_days(y, m, month_days(y, m)) + 1,
        civil_days(y + 1, 1, 1) == civil_days(y, 12, month_days(y, 12)) + 1,
{
    lemma_months_fill_year(y);
}

proof fn lemma_months_grow(y: int, m: int, n: int)
    requires
        1 <= m < n,
    ensures
        days_before_month(y, m) + month_days(y, m) <= days_before_month(y, n),
    decreases n,
{
    if m < n - 1 {
        lemma_months_grow(y, m, n - 1);
    }
}

proof fn lemma_years_grow(y: int, z: int)
    requires
        1970 <= y < z,
    ensures
        days_before_year(y) + year_days(y) <= days_before_year(z),
    decreases z,
{
    if y < z - 1 {
        lemma_years_grow(y, z - 1);
    }
}

proof fn lemma_date_order(y1: int, m1: int, d1: int, y2: int, m2: int, d2: int)
    requires
        1970 <= y1,
        1 <= m1 <= 12,
        1 <= d1 <= month_days(y1, m1),
        1 <= m2 <= 12,
        1 <= d2,
        y1 < y2 || (y1 == y2 && (m1 < m2 || (m1 == m2 && d1 < d2))),
    ensures
        civil_days(y1, m1, d1) < civil_days(y2, m2, d2),
{
    lemma_days_before_month(y1, m1);
    lemma_days_before_month(y2, m2);
    if y1 < y2 {
        lemma_years_grow(y1, y2);
        lemma_months_fill_year(y1);
        if m1 < 12 {
            lemma_months_grow(y1, m1, 12);
        }
    } else if m1 < m2 {
        lemma_months_grow(y1, m1, m2);
    }
}

/// Moments are ordered as the nanoseconds since the epoch are.
pub proof fn law_moments_keep_order(t: Timestamp, u: Timestamp)
    requires
        t.wf(),
        u.wf(),
    ensures
        t.at_or_after(u) <==> t.since_epoch() >= u.since_epoch(),
        t.at_or_after(u) && u.at_or_after(t) ==> t == u,
{
}

/// The later of two civil datetimes has the larger timestamp.
pub proof fn law_timestamps_keep_order(
    y1: int,
    m1: int,
    d1: int,
    h1: int,
    min1: int,
    s1: int,
    y2: int,
    m2: int,
    d2: int,
    h2: int,
    min2: int,
    s2: int,
)
    requires
        is_civil(y1, m1, d1, h1, min1, s1),
        is_civil(y2, m2, d2, h2, min2, s2),
        y1 < y2 || (y1 == y2 && (m1 < m2 || (m1 == m2 && (d1 < d2 || (d1 == d2 && (h1 < h2 || (h1
            == h2 && (min1 < min2 || (min1 == min2 && s1 < s2))))))))),
    ensures
        civil_seconds(y1, m1, d1, h1, min1, s1) < civil_seconds(y2, m2, d2, h2, min2, s2),
{
    if !(y1 == y2 && m1 == m2 && d1 == d2) {
        lemma_date_order(y1, m1, d1, y2, m2, d2);
    }
}

/// Moments are compared by their seconds and then by their nanoseconds.
pub proof fn law_later_second_is_later(t: Timestamp, u: Timestamp)
    ensures
        t.secs > u.secs ==> t.at_or_after(u) && !u.at_or_after(t),
        t.secs == u.secs ==> (t.at_or_after(u) <==> t.nanos >= u.nanos),
        t.wf() <==> t.nanos < 1_000_000_000,
        t.since_epoch() == t.secs * 1_000_000_000 + t.nanos,
{
}

/// Adding to a moment adds to its nanoseconds since the epoch, and gives a proper moment
/// wherever 64-bit seconds reach it.
pub proof fn law_adding_moves_a_moment(t: Timestamp, secs: int, nanos: int)
    requires
        t.nanos < 1_000_000_000,
        0 <= secs,
        0 <= nanos,
    ensures
        t.plus(secs, nanos) matches Some(u) ==> u.nanos < 1_000_000_000 && u.secs * 1_000_000_000
            + u.nanos == t.secs * 1_000_000_000 + t.nanos + secs * 1_000_000_000 + nanos,
        t.plus(secs, nanos) is Some <==> t.secs * 1_000_000_000 + t.nanos + secs * 1_000_000_000
            + nanos < (i64::MAX + 1) * 1_000_000_000,
        Timestamp::epoch().secs == 0 && Timestamp::epoch().nanos == 0,
{
    let total = t.secs * 1_000_000_000 + t.nanos + secs * 1_000_000_000 + nanos;
    assert(total == t.since_epoch() + secs * NANOS_PER_SEC + nanos);
    assert(total >= i64::MIN * 1_000_000_000);
    assert(total == (total / 1_000_000_000) * 1_000_000_000 + total % 1_000_000_000);
}

/// The calendar: the epoch is day zero, the days of a month follow each other, January,
/// March, May, July, August, October and December have 31 days, April, June, September
/// and November 30, and February 28, or 29 in a year that four divides, those that a
/// hundred divides and four hundred does not left out. Month zero counts as January. A
/// day has 86400 seconds, an hour 3600, and a minute 60.
pub proof fn law_calendar(y: int, m: int, d: int, h: int, min: int, s: int)
    requires
        1970 <= y,
        1 <= m <= 12,
    ensures
        civil_days(1970, 1, 1) == 0,
        civil_days(y, 0, d) == civil_days(y, 1, d),
        civil_days(y, m, d + 1) == civil_days(y, m, d) + 1,
        m == 1 || m == 3 || m == 5 || m == 7 || m == 8 || m == 10 ==> civil_days(y, m + 1, d)
            == civil_days(y, m, d) + 31,
        m == 4 || m == 6 || m == 9 || m == 11 ==> civil_days(y, m + 1, d) == civil_days(y, m, d)
            + 30,
        m == 2 && y % 4 == 0 && (y % 100 != 0 || y % 400 == 0) ==> civil_days(y, 3, d)
            == civil_days(y, 2, d) + 29,
        m == 2 && !(y % 4 == 0 && (y % 100 != 0 || y % 400 == 0)) ==> civil_days(y, 3, d)
            == civil_days(y, 2, d) + 28,
        civil_days(y + 1, 1, d) == civil_days(y, 12, d) + 31,
        civil_seconds(y, m, d, h, min, s) == civil_days(y, m, d) * 86_400 + h * 3_600 + min * 60
            + s,
{
    lemma_months_fill_year(y);
}

} // verus!
