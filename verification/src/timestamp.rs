//! UTC instants with millisecond precision, and the proleptic Gregorian
//! calendar arithmetic that converts between civil fields and epoch seconds.
use vstd::arithmetic::div_mod::{
    lemma_fundamental_div_mod, lemma_fundamental_div_mod_converse_div,
    lemma_fundamental_div_mod_converse_mod, lemma_mod_multiples_basic,
};
use vstd::prelude::*;

verus! {

/// Days from 0001-01-01 to 1970-01-01 in the proleptic Gregorian calendar.
pub const EPOCH_RATA_DIE: u64 = 719162;

/// Seconds at 0001-01-01T00:00:00Z, relative to the Unix epoch.
pub const MIN_CIVIL_SECS: i64 = -62135596800;

/// Seconds at 10000-01-01T00:00:00Z, relative to the Unix epoch.
pub const END_CIVIL_SECS: i64 = 253402300800;

/// A UTC instant: seconds since the Unix epoch plus a millisecond remainder.
#[derive(Clone, Copy, Debug, PartialEq, Eq, Structural)]
pub struct Timestamp {
    pub secs: i64,
    pub millis: u32,
}

/// Civil (calendar) fields of an instant, always read as UTC.
#[derive(Clone, Copy, Debug, PartialEq, Eq, Structural)]
pub struct CivilTime {
    pub year: u32,
    pub month: u32,
    pub day: u32,
    pub hour: u32,
    pub minute: u32,
    pub second: u32,
}

impl Timestamp {
    /// A representable instant: its seconds lie between year 1 and year 9999
    /// inclusive and the millisecond remainder is below one second.
    pub open spec fn wf(self) -> bool {
        &&& in_civil_range(self.secs as int)
        &&& self.millis < 1000
    }

    /// `self` is no later than `other` (seconds, then milliseconds).
    pub open spec fn spec_le(self, other: Timestamp) -> bool {
        self.secs < other.secs || (self.secs == other.secs && self.millis <= other.millis)
    }

    pub fn le(self, other: Timestamp) -> (r: bool)
        ensures
            r == self.spec_le(other),
    {
        self.secs < other.secs || (self.secs == other.secs && self.millis <= other.millis)
    }
}

/// Seconds representable as civil fields of years 1 through 9999.
pub open spec fn in_civil_range(secs: int) -> bool {
    MIN_CIVIL_SECS <= secs < END_CIVIL_SECS
}

/// Whether `y` is a leap year in the proleptic Gregorian calendar.
pub open spec fn spec_is_leap_year(y: int) -> bool {
    y % 4 == 0 && (y % 100 != 0 || y % 400 == 0)
}

pub fn is_leap_year(y: u64) -> (r: bool)
    ensures
        r == spec_is_leap_year(y as int),
{
    y % 4 == 0 && (y % 100 != 0 || y % 400 == 0)
}

/// Days from 0001-01-01 up to the first day of year `y` (for `y >= 1`).
pub open spec fn spec_days_before_year(y: int) -> int {
    365 * (y - 1) + (y - 1) / 4 - (y - 1) / 100 + (y - 1) / 400
}

pub fn days_before_year(y: u64) -> (r: u64)
    requires
        1 <= y <= 10000,
    ensures
        r == spec_days_before_year(y as int),
        r <= 3652059,
{
    let yy = y - 1;
    assert(yy / 4 <= yy && yy / 100 <= yy && yy / 400 <= yy) by (nonlinear_arith)
        requires
            yy >= 0,
    ;
    365 * yy + yy / 4 - yy / 100 + yy / 400
}

/// Days in month `m` of a year with leap status `leap`.
pub open spec fn spec_days_in_month(leap: bool, m: int) -> int {
    if m == 2 {
        if leap {
            29
        } else {
            28
        }
    } else if m == 4 || m == 6 || m == 9 || m == 11 {
        30
    } else {
        31
    }
}

pub fn days_in_month(leap: bool, m: u64) -> (r: u64)
    requires
        1 <= m <= 12,
    ensures
        r == spec_days_in_month(leap, m as int),
{
    if m == 2 {
        if leap {
            29
        } else {
            28
        }
    } else if m == 4 || m == 6 || m == 9 || m == 11 {
        30
    } else {
        31
    }
}

/// Days from January 1 up to the first day of month `m`; `m == 13` gives the
/// length of the whole year.
pub open spec fn spec_days_before_month(leap: bool, m: int) -> int {
    let l: int = if leap {
        1
    } else {
        0
    };
    if m == 1 {
        0
    } else if m == 2 {
        31
    } else if m == 3 {
        59 + l
    } else if m == 4 {
        90 + l
    } else if m == 5 {
        120 + l
    } else if m == 6 {
        151 + l
    } else if m == 7 {
        181 + l
    } else if m == 8 {
        212 + l
    } else if m == 9 {
        243 + l
    } else if m == 10 {
        273 + l
    } else if m == 11 {
        304 + l
    } else if m == 12 {
        334 + l
    } else {
        365 + l
    }
}

pub fn days_before_month(leap: bool, m: u64) -> (r: u64)
    requires
        1 <= m <= 13,
    ensures
        r == spec_days_before_month(leap, m as int),
{
    let l: u64 = if leap {
        1
    } else {
        0
    };
    if m == 1 {
        0
    } else if m == 2 {
        31
    } else if m == 3 {
        59 + l
    } else if m == 4 {
        90 + l
    } else if m == 5 {
        120 + l
    } else if m == 6 {
        151 + l
    } else if m == 7 {
        181 + l
    } else if m == 8 {
        212 + l
    } else if m == 9 {
        243 + l
    } else if m == 10 {
        273 + l
    } else if m == 11 {
        304 + l
    } else if m == 12 {
        334 + l
    } else {
        365 + l
    }
}

/// Whether the civil fields name a real calendar date and time of day,
/// within years 1 through 9999.
pub open spec fn valid_civil(c: CivilTime) -> bool {
    &&& 1 <= c.year <= 9999
    &&& 1 <= c.month <= 12
    &&& 1 <= c.day <= spec_days_in_month(spec_is_leap_year(c.year as int), c.month as int)
    &&& c.hour < 24
    &&& c.minute < 60
    &&& c.second < 60
}

pub fn is_valid_civil(c: CivilTime) -> (r: bool)
    ensures
        r == valid_civil(c),
{
    1 <= c.year && c.year <= 9999 && 1 <= c.month && c.month <= 12 && 1 <= c.day && c.day as u64
        <= days_in_month(is_leap_year(c.year as u64), c.month as u64) && c.hour < 24 && c.minute
        < 60 && c.second < 60
}

/// Days from 0001-01-01 to the civil date of `c`.
pub open spec fn spec_rata_die(c: CivilTime) -> int {
    spec_days_before_year(c.year as int) + spec_days_before_month(
        spec_is_leap_year(c.year as int),
        c.month as int,
    ) + c.day - 1
}

/// The Unix-epoch second count of the civil fields `c`, read as UTC.
pub open spec fn spec_civil_secs(c: CivilTime) -> int {
    (spec_rata_die(c) - EPOCH_RATA_DIE) * 86400 + c.hour * 3600 + c.minute * 60 + c.second
}

/// `x/k` drops by exactly one as `x` steps down past a multiple of `k`.
proof fn lemma_div_step(y: int, k: int)
    requires
        y >= 1,
        k >= 1,
    ensures
        y / k - (y - 1) / k == if y % k == 0 {
            1int
        } else {
            0int
        },
{
    let q = y / k;
    let r = y % k;
    lemma_fundamental_div_mod(y, k);
    if r == 0 {
        assert(y - 1 == (q - 1) * k + (k - 1)) by (nonlinear_arith)
            requires
                y == k * q,
        ;
        lemma_fundamental_div_mod_converse_div(y - 1, k, q - 1, k - 1);
    } else {
        assert(y - 1 == q * k + (r - 1)) by (nonlinear_arith)
            requires
                y == k * q + r,
        ;
        lemma_fundamental_div_mod_converse_div(y - 1, k, q, r - 1);
    }
}

/// Divisibility by 400 implies divisibility by 100, which implies
/// divisibility by 4.
proof fn lemma_div_chain(y: int)
    requires
        y >= 1,
    ensures
        y % 400 == 0 ==> y % 100 == 0,
        y % 100 == 0 ==> y % 4 == 0,
{
    if y % 400 == 0 {
        lemma_fundamental_div_mod(y, 400);
        let q = y / 400;
        assert(y == (4 * q) * 100);
        lemma_mod_multiples_basic(4 * q, 100);
    }
    if y % 100 == 0 {
        lemma_fundamental_div_mod(y, 100);
        let q = y / 100;
        assert(y == (25 * q) * 4);
        lemma_mod_multiples_basic(25 * q, 4);
    }
}

/// The year-prefix day count grows by the length of the year stepped over.
proof fn lemma_days_before_year_step(y: int)
    requires
        y >= 1,
    ensures
        spec_days_before_year(y + 1) == spec_days_before_year(y) + if spec_is_leap_year(y) {
            366int
        } else {
            365int
        },
{
    lemma_div_step(y, 4);
    lemma_div_step(y, 100);
    lemma_div_step(y, 400);
    lemma_div_chain(y);
}

/// The year-prefix day count is strictly monotone in the year.
proof fn lemma_days_before_year_mono(a: int, b: int)
    requires
        1 <= a <= b,
    ensures
        spec_days_before_year(a) + 365 * (b - a) <= spec_days_before_year(b),
    decreases b - a,
{
    if a < b {
        lemma_days_before_year_mono(a, b - 1);
        lemma_days_before_year_step(b - 1);
    }
}

/// The month-prefix day count grows by the length of the month stepped over.
proof fn lemma_days_before_month_step(leap: bool, m: int)
    requires
        1 <= m <= 12,
    ensures
        spec_days_before_month(leap, m + 1) == spec_days_before_month(leap, m)
            + spec_days_in_month(leap, m),
{
}

/// A valid date's offset within its year is below the year's length.
proof fn lemma_day_of_year_bound(c: CivilTime)
    requires
        valid_civil(c),
    ensures
        0 <= spec_days_before_month(spec_is_leap_year(c.year as int), c.month as int) + c.day - 1
            < spec_days_before_month(spec_is_leap_year(c.year as int), 13),
{
    let leap = spec_is_leap_year(c.year as int);
    let m = c.month as int;
    assert(spec_days_before_month(leap, m) + spec_days_in_month(leap, m) <= spec_days_before_month(
        leap,
        13,
    ));
}

/// Valid civil fields are pinned down by their second count.
pub proof fn lemma_civil_unique(a: CivilTime, b: CivilTime)
    requires
        valid_civil(a),
        valid_civil(b),
        spec_civil_secs(a) == spec_civil_secs(b),
    ensures
        a == b,
{
    let ra = spec_rata_die(a);
    let rb = spec_rata_die(b);
    let ta = a.hour * 3600 + a.minute * 60 + a.second;
    let tb = b.hour * 3600 + b.minute * 60 + b.second;
    let x = spec_civil_secs(a);
    lemma_fundamental_div_mod_converse_div(x, 86400, ra - EPOCH_RATA_DIE, ta);
    lemma_fundamental_div_mod_converse_div(x, 86400, rb - EPOCH_RATA_DIE, tb);
    assert(ra == rb && ta == tb);
    lemma_fundamental_div_mod_converse_div(ta, 3600, a.hour as int, a.minute * 60 + a.second);
    lemma_fundamental_div_mod_converse_div(ta, 3600, b.hour as int, b.minute * 60 + b.second);
    assert(a.hour == b.hour);
    lemma_fundamental_div_mod_converse_div(
        a.minute * 60 + a.second,
        60,
        a.minute as int,
        a.second as int,
    );
    lemma_fundamental_div_mod_converse_div(
        a.minute * 60 + a.second,
        60,
        b.minute as int,
        b.second as int,
    );
    assert(a.minute == b.minute && a.second == b.second);
    // Years agree: each year's days form a disjoint interval of rata dies.
    lemma_day_of_year_bound(a);
    lemma_day_of_year_bound(b);
    lemma_days_before_year_step(a.year as int);
    lemma_days_before_year_step(b.year as int);
    if a.year < b.year {
        lemma_days_before_year_mono(a.year as int + 1, b.year as int);
        assert(false);
    }
    if b.year < a.year {
        lemma_days_before_year_mono(b.year as int + 1, a.year as int);
        assert(false);
    }
    // Months agree: each month's days form a disjoint interval within the year.
    let leap = spec_is_leap_year(a.year as int);
    lemma_days_before_month_step(leap, a.month as int);
    lemma_days_before_month_step(leap, b.month as int);
    if a.month != b.month {
        assert(forall|m1: int, m2: int|
            1 <= m1 < m2 <= 12 ==> spec_days_before_month(leap, m1) + spec_days_in_month(leap, m1)
                <= spec_days_before_month(leap, m2));
        assert(false);
    }
}

/// The epoch second count of valid civil fields, read as UTC.
pub fn civil_to_secs(c: CivilTime) -> (r: i64)
    requires
        valid_civil(c),
    ensures
        r == spec_civil_secs(c),
        in_civil_range(r as int),
{
    let leap = is_leap_year(c.year as u64);
    let rata: u64 = days_before_year(c.year as u64) + days_before_month(leap, c.month as u64) + (
    c.day as u64 - 1);
    proof {
        lemma_day_of_year_bound(c);
        lemma_days_before_year_step(c.year as int);
        lemma_days_before_year_mono(c.year as int + 1, 10000);
    }
    let tod: u64 = c.hour as u64 * 3600 + c.minute as u64 * 60 + c.second as u64;
    (rata as i64 - EPOCH_RATA_DIE as i64) * 86400 + tod as i64
}

/// The civil fields of an in-range epoch second count.
pub fn secs_to_civil(secs: i64) -> (c: CivilTime)
    requires
        in_civil_range(secs as int),
    ensures
        valid_civil(c),
        spec_civil_secs(c) == secs as int,
{
    let total: u64 = (secs - MIN_CIVIL_SECS) as u64;
    let day: u64 = total / 86400;
    let tod: u64 = total % 86400;
    proof {
        lemma_fundamental_div_mod(total as int, 86400);
    }
    let mut y: u64 = 1;
    while days_before_year(y + 1) <= day
        invariant
            1 <= y <= 9999,
            spec_days_before_year(y as int) <= day as int,
            day < 3652059,
        decreases 10000 - y,
    {
        y = y + 1;
        assert(y <= 9999) by {
            if y == 10000 {
                assert(spec_days_before_year(10000) == 3652059);
            }
        }
    }
    proof {
        lemma_days_before_year_step(y as int);
    }
    let leap = is_leap_year(y);
    let doy: u64 = day - days_before_year(y);
    let mut m: u64 = 1;
    while days_before_month(leap, m + 1) <= doy
        invariant
            1 <= m <= 12,
            leap == spec_is_leap_year(y as int),
            doy < spec_days_before_month(leap, 13),
            spec_days_before_month(leap, m as int) <= doy as int,
        decreases 13 - m,
    {
        m = m + 1;
        assert(m <= 12) by {
            if m == 13 {
                assert(spec_days_before_month(leap, 13) <= doy);
            }
        }
    }
    proof {
        lemma_days_before_month_step(leap, m as int);
    }
    let d: u64 = doy - days_before_month(leap, m) + 1;
    let hour: u64 = tod / 3600;
    let rem: u64 = tod % 3600;
    let minute: u64 = rem / 60;
    let second: u64 = rem % 60;
    proof {
        lemma_fundamental_div_mod(tod as int, 3600);
        lemma_fundamental_div_mod(rem as int, 60);
    }
    let c = CivilTime {
        year: y as u32,
        month: m as u32,
        day: d as u32,
        hour: hour as u32,
        minute: minute as u32,
        second: second as u32,
    };
    assert(spec_rata_die(c) == day as int);
    assert(spec_civil_secs(c) == secs as int);
    c
}

/// The year whose day interval holds `day`, searched upward from `y`.
proof fn find_year(day: int, y: int) -> (ry: int)
    requires
        1 <= y <= 9999,
        spec_days_before_year(y) <= day < 3652059,
    ensures
        1 <= ry <= 9999,
        spec_days_before_year(ry) <= day < spec_days_before_year(ry + 1),
    decreases 10000 - y,
{
    if spec_days_before_year(y + 1) <= day {
        assert(y < 9999) by {
            if y == 9999 {
                assert(spec_days_before_year(10000) == 3652059);
            }
        }
        find_year(day, y + 1)
    } else {
        y
    }
}

/// The month whose day interval holds `doy`, searched upward from `m`.
proof fn find_month(leap: bool, doy: int, m: int) -> (rm: int)
    requires
        1 <= m <= 12,
        spec_days_before_month(leap, m) <= doy < spec_days_before_month(leap, 13),
    ensures
        1 <= rm <= 12,
        spec_days_before_month(leap, rm) <= doy < spec_days_before_month(leap, rm + 1),
    decreases 13 - m,
{
    if m < 12 && spec_days_before_month(leap, m + 1) <= doy {
        find_month(leap, doy, m + 1)
    } else {
        m
    }
}

/// Every in-range second count decomposes into valid civil fields.
pub proof fn lemma_civil_exists(secs: int)
    requires
        in_civil_range(secs),
    ensures
        exists|c: CivilTime| valid_civil(c) && spec_civil_secs(c) == secs,
{
    let total = secs - MIN_CIVIL_SECS;
    let day = total / 86400;
    let tod = total % 86400;
    lemma_fundamental_div_mod(total, 86400);
    vstd::arithmetic::div_mod::lemma_mod_bound(total, 86400);
    vstd::arithmetic::div_mod::lemma_div_pos_is_pos(total, 86400);
    assert(0 <= day < 3652059);
    let y = find_year(day, 1);
    lemma_days_before_year_step(y);
    let leap = spec_is_leap_year(y);
    let doy = day - spec_days_before_year(y);
    let m = find_month(leap, doy, 1);
    lemma_days_before_month_step(leap, m);
    let d = doy - spec_days_before_month(leap, m) + 1;
    let hour = tod / 3600;
    let rem = tod % 3600;
    let minute = rem / 60;
    let second = rem % 60;
    lemma_fundamental_div_mod(tod, 3600);
    vstd::arithmetic::div_mod::lemma_mod_bound(tod, 3600);
    vstd::arithmetic::div_mod::lemma_div_pos_is_pos(tod, 3600);
    lemma_fundamental_div_mod(rem, 60);
    vstd::arithmetic::div_mod::lemma_mod_bound(rem, 60);
    vstd::arithmetic::div_mod::lemma_div_pos_is_pos(rem, 60);
    let c = CivilTime {
        year: y as u32,
        month: m as u32,
        day: d as u32,
        hour: hour as u32,
        minute: minute as u32,
        second: second as u32,
    };
    assert(valid_civil(c));
    assert(spec_rata_die(c) == day);
    assert(spec_civil_secs(c) == secs);
}

/// The civil decomposition of an in-range second count.
pub open spec fn civil_of_secs(secs: int) -> CivilTime {
    choose|c: CivilTime| valid_civil(c) && spec_civil_secs(c) == secs
}

/// The civil decomposition is valid and denotes the second count it came
/// from.
pub proof fn lemma_civil_of_secs(secs: int)
    requires
        in_civil_range(secs),
    ensures
        valid_civil(civil_of_secs(secs)),
        spec_civil_secs(civil_of_secs(secs)) == secs,
{
    lemma_civil_exists(secs);
}

/// Builds the instant named by civil fields and a millisecond remainder;
/// `None` exactly when a field is out of range.
pub fn timestamp_from_civil(c: CivilTime, millis: u32) -> (r: Option<Timestamp>)
    ensures
        r is Some <==> valid_civil(c) && millis < 1000,
        r matches Some(ts) ==> ts.secs == spec_civil_secs(c) && ts.millis == millis && ts.wf(),
{
    if is_valid_civil(c) && millis < 1000 {
        Some(Timestamp { secs: civil_to_secs(c), millis })
    } else {
        None
    }
}

} // verus!
