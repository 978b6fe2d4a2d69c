//! The year, for license headers.

use vstd::prelude::*;

verus! {

/// Years, counted from March, begin this many days after 1 March of year zero
/// of the Gregorian calendar.
pub open spec fn march_first(y: int) -> int {
    365 * y + y / 4 - y / 100 + y / 400
}

/// Days from 1 January 1970 to 1 January of a year of the Gregorian calendar:
/// 365 for each year, and one more for each leap year.
pub open spec fn new_year(y: int) -> int {
    365 * (y - 1970) + ((y - 1) / 4 - (y - 1) / 100 + (y - 1) / 400) - (1969int / 4 - 1969int / 100
        + 1969int / 400)
}

/// The day, counted from 1 January 1970, is in the year.
pub open spec fn is_year_of_day(y: int, day: int) -> bool {
    new_year(y) <= day < new_year(y + 1)
}

proof fn lemma_year_of_era(doe: int, yoe: int)
    requires
        0 <= doe < 146_097,
        yoe == (doe - doe / 1460 + doe / 36524 - doe / 146_096) / 365,
    ensures
        0 <= yoe < 400,
        365 * yoe + yoe / 4 - yoe / 100 <= doe,
        doe < 365 * (yoe + 1) + (yoe + 1) / 4 - (yoe + 1) / 100 + (yoe + 1) / 400,
{
    let c = doe / 36524;
    assert(0 <= c <= 4);
    if c == 0 {
    } else if c == 1 {
    } else if c == 2 {
    } else if c == 3 {
    } else {
    }
}

proof fn lemma_march_first(y: int)
    ensures
        new_year(y + 1) == march_first(y) + 306 - 719_468,
        march_first(y) < march_first(y + 1),
{
    assert((y + 1 - 1) / 4 == y / 4);
}

proof fn lemma_march_era(era: int, yoe: int)
    requires
        0 <= yoe <= 400,
    ensures
        march_first(400 * era + yoe) == 146_097 * era + 365 * yoe + yoe / 4 - yoe / 100 + yoe / 400,
{
    assert((400 * era + yoe) / 4 == 100 * era + yoe / 4);
    assert((400 * era + yoe) / 100 == 4 * era + yoe / 100);
    assert((400 * era + yoe) / 400 == era + yoe / 400);
}

/// The year of the Gregorian calendar (UTC) that a number of seconds since
/// 1 January 1970 falls into.
pub fn year_of(secs: u64) -> (r: u64)
    ensures
        is_year_of_day(r as int, secs as int / 86_400),
        1970 <= r,
{
    let days: u64 = secs / 86_400;
    let z: u64 = days + 719_468;
    let era: u64 = z / 146_097;
    let doe: u64 = z % 146_097;
    let yoe: u64 = (doe - doe / 1460 + doe / 36524 - doe / 146_096) / 365;
    proof {
        lemma_year_of_era(doe as int, yoe as int);
        lemma_march_era(era as int, yoe as int);
        lemma_march_era(era as int, yoe + 1);
    }
    let y: u64 = yoe + era * 400;
    let doy: u64 = doe - (365 * yoe + yoe / 4 - yoe / 100);
    let mp: u64 = (5 * doy + 2) / 153;
    let year: u64 = if mp >= 10 {
        y + 1
    } else {
        y
    };
    proof {
        lemma_march_first(y as int);
        lemma_march_first(y - 1);
        lemma_march_first(y + 1);
        assert(z == 146_097 * era + doe);
        assert((mp >= 10) == (doy >= 306));
        if year < 1970 {
            lemma_new_year_monotone(year + 1, 1970);
        }
    }
    year
}

proof fn lemma_new_year_monotone(a: int, b: int)
    requires
        a <= b,
    ensures
        new_year(a) <= new_year(b),
    decreases b - a,
{
    if a < b {
        lemma_new_year_monotone(a, b - 1);
    }
}

/// No day is in two years.
pub proof fn day_has_one_year(y: int, z: int, day: int)
    requires
        is_year_of_day(y, day),
        is_year_of_day(z, day),
    ensures
        y == z,
{
    if y < z {
        lemma_new_year_monotone(y + 1, z);
    } else if z < y {
        lemma_new_year_monotone(z + 1, y);
    }
}

/// The year as it goes into a license header, given the seconds since
/// 1 January 1970.
pub fn current_year(secs: u64) -> (r: u32)
    ensures
        exists|y: u64| #[trigger] is_year_of_day(y as int, secs as int / 86_400) && r == y as u32,
{
    let y = year_of(secs);
    y as u32
}

/// Day zero is 1 January 1970, and a year has 366 days where it is a leap year:
/// one that four divides, but of those that a hundred divides only one that
/// four hundred divides. All others have 365.
pub proof fn years_have_their_length(y: int)
    ensures
        new_year(1970) == 0,
        new_year(y + 1) - new_year(y) == if y % 4 == 0 && (y % 100 != 0 || y % 400 == 0) {
            366int
        } else {
            365int
        },
{
    assert(y / 4 - (y - 1) / 4 == if y % 4 == 0 {
        1int
    } else {
        0int
    });
    assert(y / 100 - (y - 1) / 100 == if y % 100 == 0 {
        1int
    } else {
        0int
    });
    assert(y / 400 - (y - 1) / 400 == if y % 400 == 0 {
        1int
    } else {
        0int
    });
    assert(y % 100 == 0 ==> y % 4 == 0);
    assert(y % 400 == 0 ==> y % 100 == 0);
}

} // verus!
