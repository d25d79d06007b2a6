//! UTC calendar dates.

use vstd::prelude::*;

use crate::fixed::UnixNanos;

verus! {

/// Nanoseconds in a day.
pub const NANOS_PER_DAY: u64 = 86_400_000_000_000;

/// A date of the Gregorian calendar.
#[derive(Clone, Copy, Debug, PartialEq, Eq, Structural)]
pub struct CivilDate {
    /// The year.
    pub year: i16,
    /// The month, from one to twelve.
    pub month: i8,
    /// The day of the month, from one.
    pub day: i8,
}

/// Whether a year has a twenty-ninth of February.
pub open spec fn is_leap(year: int) -> bool {
    year % 4 == 0 && (year % 100 != 0 || year % 400 == 0)
}

/// How many days a month has.
pub open spec fn days_in_month(year: int, month: int) -> int {
    if month == 2 {
        if is_leap(year) {
            29
        } else {
            28
        }
    } else if month == 4 || month == 6 || month == 9 || month == 11 {
        30
    } else {
        31
    }
}

/// How many days of a year come before a month.
pub open spec fn days_before_month(year: int, month: int) -> int
    decreases month,
{
    if month <= 1 {
        0
    } else {
        days_before_month(year, month - 1) + days_in_month(year, month - 1)
    }
}

/// How many days come before a year, from the first of January of year one.
pub open spec fn days_before_year(year: int) -> int {
    365 * (year - 1) + (year - 1) / 4 - (year - 1) / 100 + (year - 1) / 400
}

impl CivilDate {
    /// Whether the date is on the calendar.
    pub open spec fn on_calendar(self) -> bool {
        &&& 1 <= self.month <= 12
        &&& 1 <= self.day <= days_in_month(self.year as int, self.month as int)
    }

    /// How many days the date is after the first of January 1970.
    pub open spec fn day_number(self) -> int {
        days_before_year(self.year as int) + days_before_month(
            self.year as int,
            self.month as int,
        ) + self.day - 1 - days_before_year(1970)
    }
}

/// The UTC date at an instant: the one that lies as many days after the epoch as whole days have
/// passed.
pub open spec fn date_at(instant: UnixNanos) -> CivilDate {
    choose|date: CivilDate| #[trigger]
        date.on_calendar() && date.day_number() == instant.nanos / NANOS_PER_DAY
}

/// A quotient grows by one at every multiple of the divisor.
proof fn lemma_quotient_step(n: int, divisor: int)
    requires
        divisor > 1,
    ensures
        n / divisor - (n - 1) / divisor == if n % divisor == 0 {
            1
        } else {
            0int
        },
{
    let q = n / divisor;
    let r = n % divisor;
    vstd::arithmetic::div_mod::lemma_fundamental_div_mod(n, divisor);
    if r == 0 {
        assert(n - 1 == divisor * (q - 1) + (divisor - 1)) by (nonlinear_arith)
            requires
                n == divisor * q + r,
                r == 0,
        ;
        vstd::arithmetic::div_mod::lemma_fundamental_div_mod_converse(
            n - 1,
            divisor,
            q - 1,
            divisor - 1,
        );
    } else {
        vstd::arithmetic::div_mod::lemma_fundamental_div_mod_converse(n - 1, divisor, q, r - 1);
    }
}

/// A century is a multiple of four years, and four centuries are centuries.
proof fn lemma_multiples(year: int)
    ensures
        year % 100 == 0 ==> year % 4 == 0,
        year % 400 == 0 ==> year % 100 == 0,
{
}

/// A leap year adds a day to what comes before the next year.
proof fn lemma_year_step(year: int)
    ensures
        days_before_year(year + 1) == days_before_year(year) + if is_leap(year) {
            366
        } else {
            365int
        },
{
    lemma_quotient_step(year, 4);
    lemma_quotient_step(year, 100);
    lemma_quotient_step(year, 400);
    lemma_multiples(year);
    let by4 = if year % 4 == 0 {
        1int
    } else {
        0
    };
    let by100 = if year % 100 == 0 {
        1int
    } else {
        0
    };
    let by400 = if year % 400 == 0 {
        1int
    } else {
        0
    };
    assert(days_before_year(year + 1) - days_before_year(year) == 365 + by4 - by100 + by400);
}

/// A year is as long as its months.
proof fn lemma_year_length(year: int)
    ensures
        days_before_month(year, 13) == if is_leap(year) {
            366
        } else {
            365int
        },
        days_before_year(year + 1) == days_before_year(year) + days_before_month(year, 13),
{
    lemma_year_step(year);
    assert(days_before_month(year, 13) == days_before_month(year, 3) + 306) by {
        reveal_with_fuel(days_before_month, 11);
    }
    assert(days_before_month(year, 3) == 31 + days_in_month(year, 2)) by {
        reveal_with_fuel(days_before_month, 3);
    }
}

/// Days before a month are at most the days of the year.
proof fn lemma_month_within_year(year: int, month: int, day: int)
    requires
        1 <= month <= 12,
        1 <= day <= days_in_month(year, month),
    ensures
        0 <= days_before_month(year, month) + day - 1 < days_before_month(year, 13),
{
    reveal_with_fuel(days_before_month, 14);
}

/// Years begin in their order.
proof fn lemma_years_in_order(first: int, second: int)
    requires
        first <= second,
    ensures
        days_before_year(first) <= days_before_year(second),
    decreases second - first,
{
    if first < second {
        lemma_year_length(second - 1);
        lemma_years_in_order(first, second - 1);
    }
}

/// Two dates with the same day number are the same date.
pub proof fn law_one_date_per_day(first: CivilDate, second: CivilDate)
    requires
        first.on_calendar(),
        second.on_calendar(),
        first.day_number() == second.day_number(),
    ensures
        first == second,
{
    let y1 = first.year as int;
    let y2 = second.year as int;
    lemma_month_within_year(y1, first.month as int, first.day as int);
    lemma_month_within_year(y2, second.month as int, second.day as int);
    lemma_year_length(y1);
    lemma_year_length(y2);
    if y1 < y2 {
        lemma_years_in_order(y1 + 1, y2);
    } else if y2 < y1 {
        lemma_years_in_order(y2 + 1, y1);
    }
    reveal_with_fuel(days_before_month, 13);
}

/// Every day up to the end of the sixty-four bit clock has a date.
proof fn lemma_every_day_has_a_date(number: int) -> (date: CivilDate)
    requires
        0 <= number <= u64::MAX / NANOS_PER_DAY,
    ensures
        date.on_calendar(),
        date.day_number() == number,
        1970 <= date.year <= 1970 + number,
        number >= 365 * (date.year - 1970),
    decreases number,
{
    if number == 0 {
        CivilDate { year: 1970, month: 1, day: 1 }
    } else {
        let before = lemma_every_day_has_a_date(number - 1);
        let year = before.year as int;
        if before.day < days_in_month(year, before.month as int) {
            CivilDate { day: (before.day + 1) as i8, ..before }
        } else if before.month < 12 {
            CivilDate { month: (before.month + 1) as i8, day: 1, ..before }
        } else {
            lemma_year_length(year);
            assert(days_before_month(year, 13) == days_before_month(year, 12) + 31);
            lemma_years_in_order(1970, year + 1);
            CivilDate { year: (year + 1) as i16, month: 1, day: 1 }
        }
    }
}

/// Two instants have the same date exactly when they lie in the same day since the epoch.
pub proof fn law_same_date_means_same_day(first: UnixNanos, second: UnixNanos)
    ensures
        date_at(first) == date_at(second) <==> first.nanos / NANOS_PER_DAY == second.nanos
            / NANOS_PER_DAY,
        date_at(first).on_calendar(),
        date_at(first).day_number() == first.nanos / NANOS_PER_DAY,
{
    let a = lemma_every_day_has_a_date((first.nanos / NANOS_PER_DAY) as int);
    let b = lemma_every_day_has_a_date((second.nanos / NANOS_PER_DAY) as int);
    assert(a.on_calendar() && b.on_calendar());
}

/// The first day of the epoch is the first of January 1970.
pub proof fn law_epoch_date(instant: UnixNanos)
    requires
        instant.nanos < 86_400_000_000_000,
    ensures
        date_at(instant) == (CivilDate { year: 1970, month: 1, day: 1 }),
{
    let first = CivilDate { year: 1970, month: 1, day: 1 };
    law_same_date_means_same_day(instant, instant);
    assert(first.on_calendar());
    assert(first.day_number() == 0);
    law_one_date_per_day(date_at(instant), first);
}

/// A day later it is the next day of the month, or behind the last one the first of the next month.
/// Months have thirty-one days, but thirty in April, June, September and November, and in February
/// twenty-eight, or twenty-nine in every fourth year but those of the centuries that four does not
/// divide.
pub proof fn law_next_day(instant: UnixNanos, later: UnixNanos)
    requires
        later.nanos == instant.nanos + 86_400_000_000_000,
    ensures
        ({
            let date = date_at(instant);
            let next = date_at(later);
            let year = date.year as int;
            let length: int = if date.month == 2 {
                if year % 400 == 0 || (year % 4 == 0 && year % 100 != 0) {
                    29
                } else {
                    28
                }
            } else if date.month == 4 || date.month == 6 || date.month == 9 || date.month == 11 {
                30
            } else {
                31
            };
            if date.day < length {
                next.year == year && next.month == date.month && next.day == date.day + 1
            } else if date.month < 12 {
                next.year == year && next.month == date.month + 1 && next.day == 1
            } else {
                next.year == year + 1 && next.month == 1 && next.day == 1
            }
        }),
{
    law_same_date_means_same_day(instant, later);
    law_same_date_means_same_day(later, instant);
    let date = date_at(instant);
    let year = date.year as int;
    let dated = lemma_every_day_has_a_date((instant.nanos / NANOS_PER_DAY) as int);
    law_one_date_per_day(date, dated);
    lemma_multiples(year);
    let next = if date.day < days_in_month(year, date.month as int) {
        CivilDate { day: (date.day + 1) as i8, ..date }
    } else if date.month < 12 {
        CivilDate { month: (date.month + 1) as i8, day: 1, ..date }
    } else {
        lemma_year_length(year);
        assert(days_before_month(year, 13) == days_before_month(year, 12) + 31);
        CivilDate { year: (year + 1) as i16, month: 1, day: 1 }
    };
    assert(later.nanos / NANOS_PER_DAY == instant.nanos / NANOS_PER_DAY + 1);
    assert(next.on_calendar());
    assert(next.day_number() == date.day_number() + 1);
    law_one_date_per_day(next, date_at(later));
}

/// Calls `jiff`: the UTC date of a timestamp, by `Timestamp::from_nanosecond`,
/// `Offset::to_datetime` and `DateTime::date`.
///
/// Believed: every count of nanoseconds in sixty-four bits is a timestamp, and its date is on the
/// Gregorian calendar, as many days after the first of January 1970 as whole days have passed.
#[verifier::external_body]
fn civil_date_of(instant: UnixNanos) -> (date: CivilDate)
    ensures
        date.on_calendar(),
        date.day_number() == instant.nanos / NANOS_PER_DAY,
{
    let timestamp = jiff::Timestamp::from_nanosecond(instant.nanos as i128).unwrap();
    let date = jiff::tz::Offset::UTC.to_datetime(timestamp).date();
    CivilDate { year: date.year(), month: date.month(), day: date.day() }
}

/// The UTC date at an instant.
pub fn utc_date(instant: UnixNanos) -> (date: CivilDate)
    ensures
        date == date_at(instant),
        date.on_calendar(),
        date.day_number() == instant.nanos / NANOS_PER_DAY,
{
    let date = civil_date_of(instant);
    proof {
        law_one_date_per_day(date, date_at(instant));
    }
    date
}

} // verus!
