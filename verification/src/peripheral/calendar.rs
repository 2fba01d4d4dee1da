//! The Gregorian calendar, by day numbers counted from 1970-01-01.
use vstd::prelude::*;

verus! {

pub open spec fn is_leap(y: int) -> bool {
    y % 4 == 0 && (y % 100 != 0 || y % 400 == 0)
}

/// The days of the years before `y`, counted from the start of year 1.
pub open spec fn days_before_year(y: int) -> int {
    365 * (y - 1) + (y - 1) / 4 - (y - 1) / 100 + (y - 1) / 400
}

/// The days of the months before `m` in a year that is not a leap year.
pub open spec fn common_days_before_month(m: int) -> int {
    if m == 1 {
        0
    } else if m == 2 {
        31
    } else if m == 3 {
        59
    } else if m == 4 {
        90
    } else if m == 5 {
        120
    } else if m == 6 {
        151
    } else if m == 7 {
        181
    } else if m == 8 {
        212
    } else if m == 9 {
        243
    } else if m == 10 {
        273
    } else if m == 11 {
        304
    } else if m == 12 {
        334
    } else {
        365
    }
}

pub open spec fn days_before_month(y: int, m: int) -> int {
    common_days_before_month(m) + (if m > 2 && is_leap(y) {
        1int
    } else {
        0
    })
}

pub open spec fn days_in_month(y: int, m: int) -> int {
    days_before_month(y, m + 1) - days_before_month(y, m)
}

/// The number of a day, with 1970-01-01 as day 0. Days past the end of a month run into the
/// following ones, day 0 is the day before the first.
pub open spec fn day_number(y: int, m: int, d: int) -> int {
    days_before_year(y) + days_before_month(y, m) + d - 1 - 719162
}

/// Is this a date of the calendar?
pub open spec fn is_date(y: int, m: int, d: int) -> bool {
    1 <= m <= 12 && 1 <= d <= days_in_month(y, m)
}

/// The date with the number `z`.
pub open spec fn civil_of(z: int) -> (int, int, int) {
    choose|t: (int, int, int)| #[trigger] is_date(t.0, t.1, t.2) && day_number(t.0, t.1, t.2) == z
}

/// Every date is the date of its number.
pub proof fn law_civil_roundtrip(y: int, m: int, d: int)
    requires
        is_date(y, m, d),
    ensures
        civil_of(day_number(y, m, d)) == (y, m, d),
{
    let t = (y, m, d);
    assert(is_date(t.0, t.1, t.2));
    let u = civil_of(day_number(y, m, d));
    law_day_number_is_injective(u.0, u.1, u.2, y, m, d);
}

proof fn lemma_years_grow(a: int, b: int)
    requires
        a < b,
    ensures
        days_before_year(a) + 365 <= days_before_year(b),
        days_before_year(a + 1) == days_before_year(a) + (if is_leap(a) {
            366int
        } else {
            365
        }),
        days_before_year(a + 1) <= days_before_year(b),
{
    let (p, q) = (a - 1, b - 1);
    assert(q / 4 - p / 4 >= 0 && q / 400 - p / 400 >= 0);
    assert(100 * (q / 100 - p / 100) <= (q - p) + 99);
    assert(100 * (q / 100 - (p + 1) / 100) <= (q - p - 1) + 99);
}

/// Two dates with one number are the same date.
pub proof fn law_day_number_is_injective(y1: int, m1: int, d1: int, y2: int, m2: int, d2: int)
    requires
        is_date(y1, m1, d1),
        is_date(y2, m2, d2),
        day_number(y1, m1, d1) == day_number(y2, m2, d2),
    ensures
        y1 == y2,
        m1 == m2,
        d1 == d2,
{
    if y1 < y2 {
        lemma_years_grow(y1, y2);
    }
    if y2 < y1 {
        lemma_years_grow(y2, y1);
    }
}

/// The closed form that counts years from March on.
proof fn lemma_march_years(y: int, m: int, d: int)
    requires
        1 <= m <= 12,
    ensures
        ({
            let y2 = if m <= 2 {
                y - 1
            } else {
                y
            };
            let mp = if m > 2 {
                m - 3
            } else {
                m + 9
            };
            day_number(y, m, d) == 365 * y2 + y2 / 4 - y2 / 100 + y2 / 400 + (153 * mp + 2) / 5 + d
                - 1 - 719468
        }),
{
}

/// A year of an era of 400 years splits the same way as the year itself.
proof fn lemma_era(y2: int, era: int, yoe: int)
    requires
        y2 == 400 * era + yoe,
        0 <= yoe < 400,
    ensures
        365 * y2 + y2 / 4 - y2 / 100 + y2 / 400 == era * 146097 + yoe * 365 + yoe / 4 - yoe / 100,
{
    assert(y2 / 400 == era);
    assert(y2 / 4 == 100 * era + yoe / 4);
    assert(y2 / 100 == 4 * era + yoe / 100);
}

/// The number of the day (y, m, d). The day may lie outside the month.
pub fn days_from_civil(y: i64, m: u64, d: u64) -> (r: i64)
    requires
        -0x100_0000_0000 <= y <= 0x100_0000_0000,
        1 <= m <= 12,
        d <= 0x100_0000_0000,
        !(m == 3 && d == 0),
    ensures
        r == day_number(y as int, m as int, d as int),
{
    let y2: i64 = if m <= 2 {
        y - 1
    } else {
        y
    };
    let era: i64 = if y2 >= 0 {
        y2 / 400
    } else {
        -((399 - y2) / 400)
    };
    let yoe: i64 = y2 - era * 400;
    let mp: u64 = if m > 2 {
        m - 3
    } else {
        m + 9
    };
    let doy: u64 = (153 * mp + 2) / 5 + d - 1;
    let doe: i64 = yoe * 365 + yoe / 4 - yoe / 100 + doy as i64;
    proof {
        lemma_march_years(y as int, m as int, d as int);
        lemma_era(y2 as int, era as int, yoe as int);
    }
    era * 146097 + doe - 719468
}

/// The year of an era that a day of the era falls into.
proof fn lemma_year_of_era(doe: int)
    requires
        0 <= doe < 146097,
    ensures
        ({
            let yoe = (doe - doe / 1460 + doe / 36524 - doe / 146096) / 365;
            &&& 0 <= yoe < 400
            &&& 365 * yoe + yoe / 4 - yoe / 100 <= doe
            &&& doe - (365 * yoe + yoe / 4 - yoe / 100) <= 365
            &&& doe - (365 * yoe + yoe / 4 - yoe / 100) == 365 ==> (yoe + 1) % 4 == 0 && ((yoe + 1)
                % 100 != 0 || (yoe + 1) % 400 == 0)
        }),
{
    let c = doe / 36524;
    let q = doe / 1460;
    let yoe = (doe - q + c - doe / 146096) / 365;
    assert(0 <= c <= 4);
}

/// The month of a year that starts in March, and the day of the month.
proof fn lemma_month_of_year(doy: int)
    requires
        0 <= doy <= 365,
    ensures
        ({
            let mp = (5 * doy + 2) / 153;
            let d = doy - (153 * mp + 2) / 5 + 1;
            let m = if mp < 10 {
                mp + 3
            } else {
                mp - 9
            };
            &&& 0 <= mp <= 11
            &&& 1 <= d
            &&& m != 2 ==> d <= common_days_before_month(m + 1) - common_days_before_month(m)
            &&& m == 2 ==> d <= 29
            &&& m == 2 && d == 29 ==> doy == 365
        }),
{
}

/// Putting era, year of era, month and day together gives a date with the right number.
proof fn lemma_assemble(era: int, yoe: int, doy: int, mp: int, d: int)
    requires
        0 <= yoe < 400,
        0 <= doy <= 365,
        mp == (5 * doy + 2) / 153,
        d == doy - (153 * mp + 2) / 5 + 1,
        doy == 365 ==> (yoe + 1) % 4 == 0 && ((yoe + 1) % 100 != 0 || (yoe + 1) % 400 == 0),
    ensures
        ({
            let m = if mp < 10 {
                mp + 3
            } else {
                mp - 9
            };
            let y = yoe + era * 400;
            let year = if m <= 2 {
                y + 1
            } else {
                y
            };
            &&& is_date(year, m, d)
            &&& day_number(year, m, d) == era * 146097 + 365 * yoe + yoe / 4 - yoe / 100 + doy
                - 719468
        }),
{
    let m = if mp < 10 {
        mp + 3
    } else {
        mp - 9
    };
    let y = yoe + era * 400;
    let year = if m <= 2 {
        y + 1
    } else {
        y
    };
    lemma_month_of_year(doy);
    lemma_era(y, era, yoe);
    lemma_march_years(year, m, d);
    if m == 2 && d == 29 {
        assert(is_leap(year)) by {
            assert(year == 400 * era + (yoe + 1));
            assert(year % 4 == (yoe + 1) % 4);
            assert(year % 100 == (yoe + 1) % 100);
            assert(year % 400 == (yoe + 1) % 400);
        }
    }
}

/// Every number has a date.
pub proof fn law_every_day_has_a_date(z: int)
    ensures
        ({
            let (y, m, d) = civil_of(z);
            is_date(y, m, d) && day_number(y, m, d) == z
        }),
{
    let era = (z + 719468) / 146097;
    let doe = (z + 719468) % 146097;
    lemma_year_of_era(doe);
    let yoe = (doe - doe / 1460 + doe / 36524 - doe / 146096) / 365;
    let doy = doe - (365 * yoe + yoe / 4 - yoe / 100);
    let mp = (5 * doy + 2) / 153;
    let d = doy - (153 * mp + 2) / 5 + 1;
    let m = if mp < 10 {
        mp + 3
    } else {
        mp - 9
    };
    lemma_assemble(era, yoe, doy, mp, d);
    let t = (
        if m <= 2 {
            yoe + era * 400 + 1
        } else {
            yoe + era * 400
        },
        m,
        d,
    );
    assert(is_date(t.0, t.1, t.2));
}

fn year_of_era(doe: i64) -> (yoe: i64)
    requires
        0 <= doe < 146097,
    ensures
        0 <= yoe < 400,
        0 <= doe - (365 * yoe + yoe as int / 4 - yoe as int / 100) <= 365,
        doe - (365 * yoe + yoe as int / 4 - yoe as int / 100) == 365 ==> (yoe + 1) % 4 == 0 && ((yoe
            + 1) % 100 != 0 || (yoe + 1) % 400 == 0),
{
    proof {
        lemma_year_of_era(doe as int);
    }
    (doe - doe / 1460 + doe / 36524 - doe / 146096) / 365
}

/// The date with the number `z`.
pub fn civil_from_days(z: i64) -> (r: (i64, u64, u64))
    requires
        -0x4000_0000_0000_0000 <= z <= 0x4000_0000_0000_0000,
    ensures
        is_date(r.0 as int, r.1 as int, r.2 as int),
        day_number(r.0 as int, r.1 as int, r.2 as int) == z,
        civil_of(z as int) == (r.0 as int, r.1 as int, r.2 as int),
{
    let z: i64 = z + 719468;
    let era: i64 = if z >= 0 {
        z / 146097
    } else {
        -((146096 - z) / 146097)
    };
    let doe: i64 = z - era * 146097;
    assert(0 <= doe < 146097);
    let yoe: i64 = year_of_era(doe);
    let y: i64 = yoe + era * 400;
    let doy: i64 = doe - (365 * yoe + yoe / 4 - yoe / 100);
    let mp: i64 = (5 * doy + 2) / 153;
    let d: i64 = doy - (153 * mp + 2) / 5 + 1;
    let m: i64 = if mp < 10 {
        mp + 3
    } else {
        mp - 9
    };
    proof {
        lemma_month_of_year(doy as int);
        lemma_assemble(era as int, yoe as int, doy as int, mp as int, d as int);
        law_civil_roundtrip(
            if m <= 2 {
                y + 1
            } else {
                y as int
            },
            m as int,
            d as int,
        );
    }
    if m <= 2 {
        (y + 1, m as u64, d as u64)
    } else {
        (y, m as u64, d as u64)
    }
}

/// The lengths of the months; February has a day more in a leap year, which is every fourth but
/// three in four hundred.
pub proof fn law_months(y: int, m: int)
    ensures
        m == 1 || m == 3 || m == 5 || m == 7 || m == 8 || m == 10 || m == 12 ==> days_in_month(y, m)
            == 31,
        m == 4 || m == 6 || m == 9 || m == 11 ==> days_in_month(y, m) == 30,
        m == 2 && (y % 4 != 0 || (y % 100 == 0 && y % 400 != 0)) ==> days_in_month(y, m) == 28,
        m == 2 && y % 4 == 0 && (y % 100 != 0 || y % 400 == 0) ==> days_in_month(y, m) == 29,
{
}

/// Day 0 is the first of January 1970, and the number of a day is one more than that of the day
/// before it: within a month, at the end of a month and at the end of a year.
pub proof fn law_next_day(y: int, m: int, d: int)
    requires
        is_date(y, m, d),
    ensures
        day_number(1970, 1, 1) == 0,
        d < days_in_month(y, m) ==> is_date(y, m, d + 1) && day_number(y, m, d + 1) == day_number(
            y,
            m,
            d,
        ) + 1,
        d == days_in_month(y, m) && m < 12 ==> is_date(y, m + 1, 1) && day_number(y, m + 1, 1)
            == day_number(y, m, d) + 1,
        d == days_in_month(y, m) && m == 12 ==> is_date(y + 1, 1, 1) && day_number(y + 1, 1, 1)
            == day_number(y, m, d) + 1,
{
    lemma_years_grow(y, y + 1);
}

} // verus!
