use chrono::Datelike;
use vstd::prelude::*;

verus! {

/// Earliest year that a calendar date can carry.
pub const MIN_YEAR: i32 = -262143;

/// Latest year that a calendar date can carry.
pub const MAX_YEAR: i32 = 262142;

/// A concrete day of the proleptic Gregorian calendar.
#[derive(Clone, Copy, Debug, PartialEq, Eq, Structural)]
pub struct Date {
    pub year: i32,
    pub month: u32,
    pub day: u32,
}

/// Days of the week, starting on Monday.
#[derive(Clone, Copy, Debug, PartialEq, Eq, Structural)]
pub enum Weekday {
    Mon,
    Tue,
    Wed,
    Thu,
    Fri,
    Sat,
    Sun,
}

impl Weekday {
    /// Position in the week, Monday being 0.
    pub open spec fn index(self) -> int {
        match self {
            Weekday::Mon => 0,
            Weekday::Tue => 1,
            Weekday::Wed => 2,
            Weekday::Thu => 3,
            Weekday::Fri => 4,
            Weekday::Sat => 5,
            Weekday::Sun => 6,
        }
    }
}

pub open spec fn is_leap_year(y: int) -> bool {
    (y % 4 == 0 && y % 100 != 0) || y % 400 == 0
}

pub open spec fn days_in_month(y: int, m: int) -> int {
    if m == 2 {
        if is_leap_year(y) { 29 } else { 28 }
    } else if m == 4 || m == 6 || m == 9 || m == 11 {
        30
    } else {
        31
    }
}

/// Whether `(y, m, d)` names an existing day in the supported range of years.
pub open spec fn valid_date(y: int, m: int, d: int) -> bool {
    &&& MIN_YEAR <= y <= MAX_YEAR
    &&& 1 <= m <= 12
    &&& 1 <= d <= days_in_month(y, m)
}

pub open spec fn days_before_month(y: int, m: int) -> int
    decreases m,
{
    if m <= 1 {
        0
    } else {
        days_before_month(y, m - 1) + days_in_month(y, m - 1)
    }
}

/// Days elapsed since 0001-01-01, which was a Monday.
pub open spec fn day_number(y: int, m: int, d: int) -> int {
    365 * (y - 1) + (y - 1) / 4 - (y - 1) / 100 + (y - 1) / 400 + days_before_month(y, m) + d - 1
}

/// Day of the week of a date, Monday being 0.
pub open spec fn weekday_index(y: int, m: int, d: int) -> int {
    day_number(y, m, d) % 7
}

/// Day of the month of the `n`-th occurrence of weekday `w` in month `m` of year `y`.
pub open spec fn nth_weekday(y: int, m: int, w: Weekday, n: int) -> Option<u32> {
    if n < 1 || !valid_date(y, m, 1) {
        None
    } else {
        let offset = (7 + w.index() - weekday_index(y, m, 1)) % 7;
        let day = (n - 1) * 7 + offset + 1;
        if valid_date(y, m, day) {
            Some(day as u32)
        } else {
            None
        }
    }
}

/// Days of the month on which weekday `w` falls, taking occurrences `n` to 5 in order.
pub open spec fn occurrences_from(y: int, m: int, w: Weekday, n: int) -> Seq<u32>
    decreases 6 - n,
{
    if n > 5 {
        Seq::empty()
    } else {
        match nth_weekday(y, m, w, n) {
            Some(d) => seq![d] + occurrences_from(y, m, w, n + 1),
            None => occurrences_from(y, m, w, n + 1),
        }
    }
}

/// Every day of month `m` of year `y` that falls on weekday `w`, ascending.
pub open spec fn weekday_days(y: int, m: int, w: Weekday) -> Seq<u32> {
    occurrences_from(y, m, w, 1)
}

/// Relies on chrono's `NaiveDate::from_ymd_opt`: a date exists exactly when the year is
/// in chrono's range, the month in 1..=12 and the day within that month.
#[verifier::external_body]
pub(crate) fn checked_date(year: i32, month: u32, day: u32) -> (r: Option<Date>)
    ensures
        r == (if valid_date(year as int, month as int, day as int) {
            Some(Date { year, month, day })
        } else {
            None
        }),
{
    chrono::NaiveDate::from_ymd_opt(year, month, day).map(
        |d| Date { year: d.year(), month: d.month(), day: d.day() },
    )
}

/// Relies on chrono's `NaiveDate::from_weekday_of_month_opt`: counts occurrences of the
/// weekday from the first of the month; `None` when that occurrence does not exist.
#[verifier::external_body]
pub(crate) fn nth_weekday_of_month(year: i32, month: u32, w: Weekday, n: u8) -> (r: Option<u32>)
    ensures
        r == nth_weekday(year as int, month as int, w, n as int),
{
    let cw = match w {
        Weekday::Mon => chrono::Weekday::Mon,
        Weekday::Tue => chrono::Weekday::Tue,
        Weekday::Wed => chrono::Weekday::Wed,
        Weekday::Thu => chrono::Weekday::Thu,
        Weekday::Fri => chrono::Weekday::Fri,
        Weekday::Sat => chrono::Weekday::Sat,
        Weekday::Sun => chrono::Weekday::Sun,
    };
    chrono::NaiveDate::from_weekday_of_month_opt(year, month, cw, n).map(|d| d.day())
}

/// Every day of the month that falls on the given weekday, in ascending order.
pub fn weekdays_in_month(year: i32, month: u32, w: Weekday) -> (r: Vec<u32>)
    ensures
        r@ == weekday_days(year as int, month as int, w),
{
    let mut days: Vec<u32> = Vec::new();
    let mut n: u8 = 1;
    while n <= 5
        invariant
            1 <= n <= 6,
            weekday_days(year as int, month as int, w) == days@ + occurrences_from(
                year as int,
                month as int,
                w,
                n as int,
            ),
        decreases 6 - n,
    {
        let ghost prev = days@;
        match nth_weekday_of_month(year, month, w, n) {
            Some(d) => {
                days.push(d);
                assert(prev + occurrences_from(year as int, month as int, w, n as int) =~= days@
                    + occurrences_from(year as int, month as int, w, n + 1));
            },
            None => {},
        }
        n = n + 1;
    }
    assert(occurrences_from(year as int, month as int, w, 6) =~= Seq::<u32>::empty());
    assert(days@ + Seq::<u32>::empty() =~= days@);
    days
}

} // verus!
