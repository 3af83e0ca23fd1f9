//! Proleptic Gregorian calendar arithmetic on day numbers.
//!
//! A point in time is an `i64` count of seconds since the Unix epoch, and a
//! calendar date is the `i64` count of whole days since 1970-01-01 (negative
//! for earlier dates).  This module defines, as specification functions, the
//! standard civil-calendar conversions between day numbers and
//! (year, month, day) triples, and the ISO-8601 week numbering built on them
//! (weeks start on Monday; a week belongs to the year that contains its
//! Thursday).  The executable functions are verified to compute exactly
//! those specifications.

use vstd::prelude::*;
use vstd::arithmetic::div_mod::{
    lemma_div_is_ordered, lemma_div_nonincreasing, lemma_div_pos_is_pos,
    lemma_fundamental_div_mod, lemma_mod_bound,
};

verus! {

/// Seconds in a calendar day.
pub const SECONDS_PER_DAY: i64 = 86400;

/// Largest timestamp magnitude the calendar functions accept; about
/// 265,000 years away from the epoch, beyond any date the record store
/// can represent.
pub const MAX_TIMESTAMP: i64 = 8_380_800_000_000;

/// A timestamp close enough to the epoch for calendar arithmetic.
pub open spec fn valid_timestamp(ts: i64) -> bool {
    -MAX_TIMESTAMP <= ts <= MAX_TIMESTAMP
}

/// The calendar date of a timestamp: whole days since the epoch,
/// rounding toward minus infinity.
pub open spec fn day_of(ts: int) -> int {
    ts / 86400
}

/// Day number of the civil date `y`-`m`-`d` (proleptic Gregorian).
#[verifier::opaque]
pub open spec fn days_from_civil(y: int, m: int, d: int) -> int {
    let yy = if m <= 2 { y - 1 } else { y };
    let era = yy / 400;
    let yoe = yy - era * 400;
    let mp = if m > 2 { m - 3 } else { m + 9 };
    let doy = (153 * mp + 2) / 5 + d - 1;
    let doe = yoe * 365 + yoe / 4 - yoe / 100 + doy;
    era * 146097 + doe - 719468
}

/// Civil date (year, month, day) of a day number.
#[verifier::opaque]
pub open spec fn civil_from_days(day: int) -> (int, int, int) {
    let z = day + 719468;
    let era = z / 146097;
    let doe = z % 146097;
    let yoe = (doe - doe / 1460 + doe / 36524 - doe / 146096) / 365;
    let y = yoe + era * 400;
    let doy = doe - (365 * yoe + yoe / 4 - yoe / 100);
    let mp = (5 * doy + 2) / 153;
    let d = doy - (153 * mp + 2) / 5 + 1;
    let m = if mp < 10 { mp + 3 } else { mp - 9 };
    (if m <= 2 { y + 1 } else { y }, m, d)
}

/// The civil year a day number falls in.
pub open spec fn civil_year(day: int) -> int {
    civil_from_days(day).0
}

/// ISO weekday of a day number: Monday = 1 through Sunday = 7.
/// Day 0, 1970-01-01, was a Thursday.
pub open spec fn iso_weekday(day: int) -> int {
    (day + 3) % 7 + 1
}

/// The day number of the Thursday in the ISO week containing `day`.
pub open spec fn week_thursday(day: int) -> int {
    day + 4 - iso_weekday(day)
}

/// ISO week-numbering year of a day: the civil year of its week's Thursday.
pub open spec fn iso_year(day: int) -> int {
    civil_year(week_thursday(day))
}

/// ISO week number of a day within its ISO year.
pub open spec fn iso_week(day: int) -> int {
    (week_thursday(day) - days_from_civil(iso_year(day), 1, 1)) / 7 + 1
}

/// The (ISO year, ISO week) pair of a day number.
pub open spec fn iso_pair(day: int) -> (int, int) {
    (iso_year(day), iso_week(day))
}

/// The number of the last ISO week of ISO year `y`: the week of December 28,
/// which always lies in the last week of its year.
pub open spec fn last_iso_week(y: int) -> int {
    iso_week(days_from_civil(y, 12, 28))
}

/// The (year, week) pair one ISO week before `p`, rolling to the last week
/// of the previous ISO year when stepping back from week 1.
pub open spec fn prev_iso_pair(p: (int, int)) -> (int, int) {
    if p.1 > 1 {
        (p.0, p.1 - 1)
    } else {
        (p.0 - 1, last_iso_week(p.0 - 1))
    }
}

/// A floor quotient lies between the dividend and zero.
proof fn lemma_floor_div_range(a: int, b: int)
    requires
        b >= 1,
    ensures
        a >= 0 ==> 0 <= a / b <= a,
        a < 0 ==> a <= a / b <= 0,
{
    lemma_fundamental_div_mod(a, b);
    lemma_mod_bound(a, b);
    let q = a / b;
    let r = a % b;
    assert(a >= 0 ==> 0 <= q <= a) by (nonlinear_arith)
        requires
            a == b * q + r,
            0 <= r < b,
            b >= 1,
    ;
    assert(a < 0 ==> a <= q <= 0) by (nonlinear_arith)
        requires
            a == b * q + r,
            0 <= r < b,
            b >= 1,
    ;
}

/// Floor division of `a` by the positive divisor `b`.
fn div_floor(a: i64, b: i64) -> (q: i64)
    requires
        b >= 1,
    ensures
        q == a as int / b as int,
{
    proof {
        lemma_floor_div_range(a as int, b as int);
    }
    a.checked_div_euclid(b).unwrap()
}

/// Remainder of floor division of `a` by the positive divisor `b`,
/// always in `[0, b)`.
fn mod_floor(a: i64, b: i64) -> (r: i64)
    requires
        b >= 1,
    ensures
        r == a as int % b as int,
        0 <= r < b,
{
    proof {
        lemma_mod_bound(a as int, b as int);
    }
    a.checked_rem_euclid(b).unwrap()
}

/// The calendar date of a timestamp, as whole days since the epoch.
pub fn day_of_timestamp(ts: i64) -> (day: i64)
    ensures
        day == day_of(ts as int),
        valid_timestamp(ts) ==> -97_000_000 <= day <= 97_000_000,
{
    proof {
        if valid_timestamp(ts) {
            lemma_div_is_ordered(ts as int, MAX_TIMESTAMP as int, 86400);
            lemma_div_is_ordered(-MAX_TIMESTAMP as int, ts as int, 86400);
        }
    }
    div_floor(ts, SECONDS_PER_DAY)
}

/// Civil date of a day number, as a (year, month, day) triple.
pub fn civil_date(day: i64) -> (r: (i64, i64, i64))
    requires
        -102_100_000 <= day <= 102_100_000,
    ensures
        (r.0 as int, r.1 as int, r.2 as int) == civil_from_days(day as int),
        -290_000 <= r.0 <= 290_000,
        -97_000_008 <= day <= 97_000_008 ==> -268_000 <= r.0 <= 268_000,
{
    proof {
        reveal(civil_from_days);
    }
    let z = day + 719468;
    let era = div_floor(z, 146097);
    let doe = mod_floor(z, 146097);
    proof {
        lemma_div_is_ordered(z as int, 102_819_468, 146097);
        lemma_div_is_ordered(-101_380_532, z as int, 146097);
        if -97_000_008 <= day <= 97_000_008 {
            lemma_div_is_ordered(z as int, 97_719_476, 146097);
            lemma_div_is_ordered(-96_280_540, z as int, 146097);
        }
    }
    let da = div_floor(doe, 1460);
    let db = div_floor(doe, 36524);
    let dc = div_floor(doe, 146096);
    proof {
        lemma_div_nonincreasing(doe as int, 1460);
        lemma_div_pos_is_pos(doe as int, 1460);
        lemma_div_pos_is_pos(doe as int, 36524);
        lemma_div_is_ordered(doe as int, 146096, 36524);
        lemma_div_pos_is_pos(doe as int, 146096);
        lemma_div_is_ordered(doe as int, 146096, 146096);
    }
    let num = doe - da + db - dc;
    let yoe = div_floor(num, 365);
    proof {
        lemma_div_is_ordered(num as int, 146101, 365);
        lemma_div_is_ordered(-1, num as int, 365);
    }
    let y = yoe + era * 400;
    let doy = doe - (365 * yoe + div_floor(yoe, 4) - div_floor(yoe, 100));
    proof {
        lemma_floor_div_range(yoe as int, 4);
        lemma_floor_div_range(yoe as int, 100);
    }
    let mp = div_floor(5 * doy + 2, 153);
    proof {
        lemma_floor_div_range(5 * doy as int + 2, 153);
    }
    let d = doy - div_floor(153 * mp + 2, 5) + 1;
    proof {
        lemma_floor_div_range(153 * mp as int + 2, 5);
    }
    let m = if mp < 10 {
        mp + 3
    } else {
        mp - 9
    };
    (if m <= 2 { y + 1 } else { y }, m, d)
}

/// Day number of the civil date `y`-`m`-`d`.
pub fn civil_day_number(y: i64, m: i64, d: i64) -> (r: i64)
    requires
        -291_000 <= y <= 291_000,
        1 <= m <= 12,
        1 <= d <= 31,
    ensures
        r == days_from_civil(y as int, m as int, d as int),
        -107_500_000 <= r <= 107_500_000,
        -269_001 <= y <= 269_001 ==> -99_500_000 <= r <= 99_500_000,
{
    proof {
        reveal(days_from_civil);
    }
    let yy = if m <= 2 {
        y - 1
    } else {
        y
    };
    let era = div_floor(yy, 400);
    proof {
        lemma_div_is_ordered(yy as int, 291_000, 400);
        lemma_div_is_ordered(-291_001, yy as int, 400);
        if -269_001 <= y <= 269_001 {
            lemma_div_is_ordered(yy as int, 269_001, 400);
            lemma_div_is_ordered(-269_002, yy as int, 400);
        }
        lemma_fundamental_div_mod(yy as int, 400);
        lemma_mod_bound(yy as int, 400);
    }
    let yoe = yy - era * 400;
    let mp = if m > 2 {
        m - 3
    } else {
        m + 9
    };
    let doy = div_floor(153 * mp + 2, 5) + d - 1;
    proof {
        lemma_floor_div_range(153 * mp as int + 2, 5);
    }
    let doe = yoe * 365 + div_floor(yoe, 4) - div_floor(yoe, 100) + doy;
    proof {
        lemma_div_nonincreasing(yoe as int, 4);
        lemma_div_pos_is_pos(yoe as int, 4);
        lemma_div_nonincreasing(yoe as int, 100);
        lemma_div_pos_is_pos(yoe as int, 100);
    }
    era * 146097 + doe - 719468
}

/// The (ISO year, ISO week) pair of a day number.
pub fn iso_week_pair(day: i64) -> (p: (i64, i64))
    requires
        -102_000_000 <= day <= 102_000_000,
    ensures
        (p.0 as int, p.1 as int) == iso_pair(day as int),
        -97_000_004 <= day <= 97_000_004 ==> -268_000 <= p.0 <= 268_000,
{
    let dow = mod_floor(day + 3, 7) + 1;
    let th = day + 4 - dow;
    let c = civil_date(th);
    let y = c.0;
    let jan1 = civil_day_number(y, 1, 1);
    let w = div_floor(th - jan1, 7) + 1;
    (y, w)
}

/// The number of the last ISO week of ISO year `y`.
pub fn last_iso_week_number(y: i64) -> (w: i64)
    requires
        -269_000 <= y <= 269_000,
    ensures
        w == last_iso_week(y as int),
{
    let d28 = civil_day_number(y, 12, 28);
    let p = iso_week_pair(d28);
    p.1
}

} // verus!
