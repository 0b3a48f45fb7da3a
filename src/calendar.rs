//! The shift calendar: which hours of a date count as regular work.
//!
//! A date is a day number in the proleptic Gregorian calendar, with
//! 0001-01-01 as day 1, over the range of dates that chrono can represent.

use vstd::arithmetic::div_mod::lemma_mod_multiples_vanish;
use chrono::Datelike;
use vstd::prelude::*;

verus! {

/// Day number of the first representable date (-262143-01-01).
pub const MIN_ORDINAL: i32 = -95746129;

/// Day number of the last representable date (262142-12-31).
pub const MAX_ORDINAL: i32 = 95745399;

/// First year that chrono represents.
pub const MIN_YEAR: i32 = -262143;

/// Last year that chrono represents.
pub const MAX_YEAR: i32 = 262142;

/// Seconds in a civil day.
pub const SECONDS_PER_DAY: u32 = 86400;

/// Monday 2025-07-28: the first day of the first afternoon period.
pub const AFTERNOON_ANCHOR: i32 = 739460;

/// Number of consecutive days (Monday to Saturday) that an afternoon period lasts.
pub const AFTERNOON_SPAN_DAYS: u32 = 6;

/// Afternoon periods recur with this period, in days.
pub const CYCLE_LENGTH_DAYS: u32 = 21;

/// Regular hours on a regular day, as seconds of the day: [06:00, 15:00).
pub const REGULAR_START: u32 = 21600;
pub const REGULAR_END: u32 = 54000;

/// Regular hours on a weekday of an afternoon period: [15:00, 21:00).
pub const AFTERNOON_START: u32 = 54000;
pub const AFTERNOON_END: u32 = 75600;

/// Regular hours on a Saturday of an afternoon period: [08:00, 14:00).
pub const SATURDAY_START: u32 = 28800;
pub const SATURDAY_END: u32 = 50400;

/// A calendar date, held as its day number.
#[derive(Clone, Copy, Debug, PartialEq, Eq, Structural)]
pub struct CalDate {
    pub ordinal: i32,
}

/// Gregorian leap years.
pub open spec fn is_leap_year(y: int) -> bool {
    (y % 4 == 0 && y % 100 != 0) || y % 400 == 0
}

pub open spec fn days_in_month(y: int, m: int) -> int {
    if m == 2 {
        if is_leap_year(y) { 29 } else { 28 }
    } else if m == 4 || m == 6 || m == 9 || m == 11 {
        30
    } else {
        31
    }
}

/// A year, month and day that name a representable date.
pub open spec fn valid_ymd(y: int, m: int, d: int) -> bool {
    &&& MIN_YEAR <= y <= MAX_YEAR
    &&& 1 <= m <= 12
    &&& 1 <= d <= days_in_month(y, m)
}

/// Days in the months of year `y` before month `m`.
pub open spec fn days_before_month(y: int, m: int) -> int
    decreases m,
{
    if m <= 1 {
        0
    } else {
        days_before_month(y, m - 1) + days_in_month(y, m - 1)
    }
}

/// The day number of a date: the days of the years before it (negative
/// before year 1), of the months before it, and its day of the month.
pub open spec fn ordinal_of_ymd(y: int, m: int, d: int) -> int {
    365 * (y - 1) + (y - 1) / 4 - (y - 1) / 100 + (y - 1) / 400 + days_before_month(y, m) + d
}

/// The year, month and day of a representable day number, as chrono gives them.
pub uninterp spec fn ymd_of_ordinal(n: int) -> (int, int, int);

/// Relies on chrono's `NaiveDate::from_ymd_opt`, which returns `None` exactly
/// on an out-of-range year, an invalid month or an invalid day, and on
/// `Datelike::num_days_from_ce`, which counts 0001-01-01 as day 1.
#[verifier::external_body]
fn chrono_ordinal(year: i32, month: u32, day: u32) -> (r: Option<i32>)
    ensures
        r is Some <==> valid_ymd(year as int, month as int, day as int),
        r matches Some(n) ==> n == ordinal_of_ymd(year as int, month as int, day as int)
            && MIN_ORDINAL <= n <= MAX_ORDINAL,
{
    chrono::NaiveDate::from_ymd_opt(year, month, day).map(|d| d.num_days_from_ce())
}

/// Relies on chrono's `NaiveDate::from_num_days_from_ce_opt`, which accepts every
/// day number of a representable date, and on its `year`, `month` and `day`:
/// the date whose day number is `n`.
#[verifier::external_body]
fn chrono_ymd(n: i32) -> (r: (i32, u32, u32))
    requires
        MIN_ORDINAL <= n <= MAX_ORDINAL,
    ensures
        (r.0 as int, r.1 as int, r.2 as int) == ymd_of_ordinal(n as int),
        valid_ymd(r.0 as int, r.1 as int, r.2 as int),
        ordinal_of_ymd(r.0 as int, r.1 as int, r.2 as int) == n,
{
    let d = chrono::NaiveDate::from_num_days_from_ce_opt(n).unwrap();
    (d.year(), d.month(), d.day())
}

impl CalDate {
    /// The date lies in the representable range.
    pub open spec fn wf(self) -> bool {
        MIN_ORDINAL <= self.ordinal <= MAX_ORDINAL
    }

    /// The date of a year, month and day; `None` when they name no date.
    pub fn from_ymd(year: i32, month: u32, day: u32) -> (r: Option<CalDate>)
        ensures
            r is Some <==> valid_ymd(year as int, month as int, day as int),
            r matches Some(d) ==> d.wf() && d.ordinal == ordinal_of_ymd(
                year as int,
                month as int,
                day as int,
            ),
    {
        match chrono_ordinal(year, month, day) {
            Some(n) => Some(CalDate { ordinal: n }),
            None => None,
        }
    }

    /// Year, month and day of the date.
    pub fn ymd(&self) -> (r: (i32, u32, u32))
        requires
            self.wf(),
        ensures
            (r.0 as int, r.1 as int, r.2 as int) == ymd_of_ordinal(self.ordinal as int),
            valid_ymd(r.0 as int, r.1 as int, r.2 as int),
            ordinal_of_ymd(r.0 as int, r.1 as int, r.2 as int) == self.ordinal,
    {
        chrono_ymd(self.ordinal)
    }
}

/// Day of the week, Monday = 0 through Sunday = 6 (day 1 was a Monday).
pub open spec fn weekday_of(n: int) -> int {
    (n - 1) % 7
}

pub open spec fn is_weekend_day(n: int) -> bool {
    weekday_of(n) >= 5
}

pub open spec fn is_saturday_day(n: int) -> bool {
    weekday_of(n) == 5
}

/// The date lies in one of the afternoon periods: the first six days of each
/// 21-day cycle counted from the anchor. No date before the anchor does.
pub open spec fn in_afternoon_period(n: int) -> bool {
    n >= AFTERNOON_ANCHOR && (n - AFTERNOON_ANCHOR) % (CYCLE_LENGTH_DAYS as int) < AFTERNOON_SPAN_DAYS
}

/// Kind of shift worked on a date.
#[derive(Clone, Copy, Debug, PartialEq, Eq, Structural)]
pub enum ShiftType {
    Regular,
    Afternoon,
    Weekend,
    SaturdayAfternoon,
}

pub open spec fn shift_of(n: int) -> ShiftType {
    if is_weekend_day(n) {
        if is_saturday_day(n) && in_afternoon_period(n) {
            ShiftType::SaturdayAfternoon
        } else {
            ShiftType::Weekend
        }
    } else if in_afternoon_period(n) {
        ShiftType::Afternoon
    } else {
        ShiftType::Regular
    }
}

/// Regular hours of a day, as seconds of the day: `[start, end)`.
#[derive(Clone, Copy, Debug, PartialEq, Eq, Structural)]
pub struct WorkWindow {
    pub start: u32,
    pub end: u32,
}

pub open spec fn window_of(s: ShiftType) -> Option<WorkWindow> {
    match s {
        ShiftType::Regular => Some(WorkWindow { start: REGULAR_START, end: REGULAR_END }),
        ShiftType::Afternoon => Some(WorkWindow { start: AFTERNOON_START, end: AFTERNOON_END }),
        ShiftType::SaturdayAfternoon => Some(
            WorkWindow { start: SATURDAY_START, end: SATURDAY_END },
        ),
        ShiftType::Weekend => None,
    }
}

/// An instant of a date, given as seconds of the day, is overtime.
pub open spec fn overtime_instant(n: int, secs: int) -> bool {
    match window_of(shift_of(n)) {
        Some(w) => secs < w.start || secs >= w.end,
        None => true,
    }
}

fn weekday(date: CalDate) -> (r: u32)
    requires
        date.wf(),
    ensures
        r == weekday_of(date.ordinal as int),
        r < 7,
{
    let shifted: u32 = (date.ordinal as i64 - MIN_ORDINAL as i64) as u32;
    proof {
        let x = shifted as int;
        // MIN_ORDINAL - 4 is a multiple of seven.
        lemma_mod_multiples_vanish(-13678019, x + 3, 7);
        assert(7 * -13678019 + (x + 3) == date.ordinal as int - 1);
    }
    (shifted + 3) % 7
}

pub fn is_afternoon_shift_period(date: CalDate) -> (r: bool)
    ensures
        r == in_afternoon_period(date.ordinal as int),
{
    if date.ordinal >= AFTERNOON_ANCHOR {
        let days_since_first: u32 = (date.ordinal - AFTERNOON_ANCHOR) as u32;
        days_since_first % CYCLE_LENGTH_DAYS < AFTERNOON_SPAN_DAYS
    } else {
        false
    }
}

pub fn is_weekend(date: CalDate) -> (r: bool)
    requires
        date.wf(),
    ensures
        r == is_weekend_day(date.ordinal as int),
{
    weekday(date) >= 5
}

pub fn is_saturday(date: CalDate) -> (r: bool)
    requires
        date.wf(),
    ensures
        r == is_saturday_day(date.ordinal as int),
{
    weekday(date) == 5
}

pub fn is_saturday_regular_hours(date: CalDate) -> (r: bool)
    requires
        date.wf(),
    ensures
        r == (is_saturday_day(date.ordinal as int) && in_afternoon_period(date.ordinal as int)),
{
    is_saturday(date) && is_afternoon_shift_period(date)
}

pub fn get_shift_type(date: CalDate) -> (r: ShiftType)
    requires
        date.wf(),
    ensures
        r == shift_of(date.ordinal as int),
{
    if is_weekend(date) {
        if is_saturday_regular_hours(date) {
            ShiftType::SaturdayAfternoon
        } else {
            ShiftType::Weekend
        }
    } else if is_afternoon_shift_period(date) {
        ShiftType::Afternoon
    } else {
        ShiftType::Regular
    }
}

/// The regular hours of a kind of shift; none on a weekend.
pub fn shift_window(shift: ShiftType) -> (r: Option<WorkWindow>)
    ensures
        r == window_of(shift),
{
    match shift {
        ShiftType::Regular => Some(WorkWindow { start: REGULAR_START, end: REGULAR_END }),
        ShiftType::Afternoon => Some(WorkWindow { start: AFTERNOON_START, end: AFTERNOON_END }),
        ShiftType::SaturdayAfternoon => Some(
            WorkWindow { start: SATURDAY_START, end: SATURDAY_END },
        ),
        ShiftType::Weekend => None,
    }
}

pub fn get_regular_work_window(date: CalDate) -> (r: Option<WorkWindow>)
    requires
        date.wf(),
    ensures
        r == window_of(shift_of(date.ordinal as int)),
{
    shift_window(get_shift_type(date))
}

/// Whether a local instant, given as its date and its seconds since midnight,
/// lies outside the regular hours of that date.
pub fn is_overtime_hour(date: CalDate, seconds_of_day: u32) -> (r: bool)
    requires
        date.wf(),
    ensures
        r == overtime_instant(date.ordinal as int, seconds_of_day as int),
{
    match get_regular_work_window(date) {
        Some(window) => seconds_of_day < window.start || seconds_of_day >= window.end,
        None => true,
    }
}

/// The name under which a kind of shift is recorded in the ledger.
pub fn shift_name(shift_type: ShiftType) -> (r: &'static str)
    ensures
        r@ == shift_name_text(shift_type),
{
    match shift_type {
        ShiftType::Regular => "regular",
        ShiftType::Afternoon => "afternoon",
        ShiftType::Weekend => "weekend",
        ShiftType::SaturdayAfternoon => "saturday_afternoon",
    }
}

pub open spec fn shift_name_text(s: ShiftType) -> Seq<char> {
    match s {
        ShiftType::Regular => "regular"@,
        ShiftType::Afternoon => "afternoon"@,
        ShiftType::Weekend => "weekend"@,
        ShiftType::SaturdayAfternoon => "saturday_afternoon"@,
    }
}

/// The anchor is the day number of Monday 2025-07-28.
pub proof fn lemma_anchor_is_monday_2025_07_28()
    ensures
        AFTERNOON_ANCHOR == ordinal_of_ymd(2025, 7, 28),
        weekday_of(AFTERNOON_ANCHOR as int) == 0,
{
    reveal_with_fuel(days_before_month, 7);
}

/// Afternoon periods never reach back before the anchor: every earlier date
/// is a regular day or a weekend day.
pub proof fn lemma_no_afternoon_before_anchor(n: int)
    requires
        n < AFTERNOON_ANCHOR,
    ensures
        shift_of(n) == ShiftType::Regular || shift_of(n) == ShiftType::Weekend,
{
}

/// The calendar repeats every cycle: from the anchor on, a date and the date
/// 21 days later have the same kind of shift.
pub proof fn lemma_shift_cycle(n: int)
    requires
        n >= AFTERNOON_ANCHOR,
    ensures
        shift_of(n + CYCLE_LENGTH_DAYS as int) == shift_of(n),
{
    lemma_mod_multiples_vanish(3, n - 1, 7);
    assert(7 * 3 + (n - 1) == (n + 21) - 1);
    lemma_mod_multiples_vanish(1, n - AFTERNOON_ANCHOR, 21);
    assert(21 * 1 + (n - AFTERNOON_ANCHOR) == (n + 21) - AFTERNOON_ANCHOR);
}

} // verus!
