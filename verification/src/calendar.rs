//! Calendar dates and instants in the proleptic Gregorian calendar.
//!
//! The ledger reads a date as a year, a month and a day, and measures spans in whole
//! days. Day arithmetic itself is done by `chrono`; this module states what it relies
//! on over `epoch_day`, the number of days from 1970-01-01 to a date.

use vstd::prelude::*;

verus! {

/// First year a ledger date may lie in.
pub const MIN_YEAR: i32 = -9999;

/// Last year a ledger date may lie in.
pub const MAX_YEAR: i32 = 9999;

/// Seconds in one day.
pub const SECONDS_PER_DAY: i64 = 86_400;

/// First year `chrono` can represent.
pub const CHRONO_MIN_YEAR: i32 = -262_143;

/// Last year `chrono` can represent.
pub const CHRONO_MAX_YEAR: i32 = 262_142;

pub open spec fn is_leap_year(year: int) -> bool {
    year % 4 == 0 && (year % 100 != 0 || year % 400 == 0)
}

/// Number of days in month `month` (1 to 12) of `year`.
pub open spec fn days_in_month(year: int, month: int) -> int {
    if month == 2 {
        if is_leap_year(year) {
            29
        } else {
            28
        }
    } else if month == 4 || month == 6 || month == 9 || month == 11 {
        30
    } else {
        31
    }
}

/// Whether `year`-`month`-`day` names a day of the calendar.
pub open spec fn is_calendar_date(year: int, month: int, day: int) -> bool {
    1 <= month <= 12 && 1 <= day <= days_in_month(year, month)
}

/// Days from 0001-01-01 to the first day of `year`.
pub open spec fn days_before_year(year: int) -> int {
    let p = year - 1;
    365 * p + p / 4 - p / 100 + p / 400
}

/// Days from the first day of `year` to the first day of its month `month`.
pub open spec fn days_before_month(year: int, month: int) -> int
    decreases month,
{
    if month <= 1 {
        0
    } else {
        days_before_month(year, month - 1) + days_in_month(year, month - 1)
    }
}

/// Days from 1970-01-01 to `year`-`month`-`day`; negative before 1970.
pub open spec fn epoch_day(year: int, month: int, day: int) -> int {
    days_before_year(year) + days_before_month(year, month) + day - 1 - 719_162
}

/// Position of a month on the line of all months: twelve per year, January first.
pub open spec fn month_index(year: int, month: int) -> int {
    year * 12 + (month - 1)
}

/// Year in which the month at `index` lies.
pub open spec fn year_of_index(index: int) -> int {
    index / 12
}

/// Number (1 to 12) of the month at `index`.
pub open spec fn month_of_index(index: int) -> int {
    index % 12 + 1
}

/// Epoch day of the first day of the month at `index`.
pub open spec fn month_start_day(index: int) -> int {
    epoch_day(year_of_index(index), month_of_index(index), 1)
}

/// A month starts where the month before it ends: consecutive month starts are
/// exactly the length of the earlier month apart.
pub proof fn lemma_month_step(index: int)
    ensures
        month_start_day(index + 1) - month_start_day(index) == days_in_month(
            year_of_index(index),
            month_of_index(index),
        ),
        28 <= month_start_day(index + 1) - month_start_day(index) <= 31,
{
    let y = year_of_index(index);
    let m = month_of_index(index);
    reveal_with_fuel(days_before_month, 14);
    if m == 12 {
        assert(year_of_index(index + 1) == y + 1);
        assert(month_of_index(index + 1) == 1);
        assert(days_before_month(y, 12) + 31 == if is_leap_year(y) {
            366int
        } else {
            365int
        });
        assert(days_before_year(y + 1) - days_before_year(y) == if is_leap_year(y) {
            366int
        } else {
            365int
        });
    } else {
        assert(year_of_index(index + 1) == y);
        assert(month_of_index(index + 1) == m + 1);
    }
}

/// Month starts grow with the month index.
pub proof fn lemma_month_start_increases(a: int, b: int)
    requires
        a <= b,
    ensures
        month_start_day(b) - month_start_day(a) >= 28 * (b - a),
    decreases b - a,
{
    if a < b {
        lemma_month_start_increases(a, b - 1);
        lemma_month_step(b - 1);
    }
}

/// A calendar date lies in its own month: on or after the month's first day and
/// before the first day of the next month.
pub proof fn lemma_date_within_month(year: int, month: int, day: int)
    requires
        is_calendar_date(year, month, day),
    ensures
        month_index(year, month) / 12 == year,
        month_index(year, month) % 12 + 1 == month,
        month_start_day(month_index(year, month)) <= epoch_day(year, month, day),
        epoch_day(year, month, day) < month_start_day(month_index(year, month) + 1),
        epoch_day(year, month, day) == month_start_day(month_index(year, month)) + day - 1,
{
    lemma_month_step(month_index(year, month));
}

/// Epoch day of the first day the ledger accepts, -9999-01-01.
pub const MIN_EPOCH_DAY: i64 = -4_371_587;

/// Epoch day of the last day the ledger accepts, 9999-12-31.
pub const MAX_EPOCH_DAY: i64 = 2_932_896;

/// The longest span between two instants of the ledger, in seconds.
pub const MAX_SPAN_SECONDS: i64 = 631_107_417_599;

/// Every day of the ledger's years lies between its first and its last day.
pub proof fn lemma_day_number_bounds(date: Date)
    requires
        date.wf(),
    ensures
        MIN_EPOCH_DAY <= date.day_number() <= MAX_EPOCH_DAY,
{
    let y = date.year as int;
    let m = date.month as int;
    lemma_date_within_month(y, m, date.day as int);
    lemma_month_start_increases(month_index(MIN_YEAR as int, 1), month_index(y, m));
    lemma_month_start_increases(month_index(y, m) + 1, month_index(MAX_YEAR as int, 12) + 1);
    reveal_with_fuel(days_before_month, 14);
    assert(month_start_day(month_index(MIN_YEAR as int, 1)) == MIN_EPOCH_DAY);
    assert(month_start_day(month_index(MAX_YEAR as int, 12) + 1) == MAX_EPOCH_DAY + 1);
}

/// A Gregorian calendar date.
#[derive(Clone, Copy, Debug, PartialEq, Eq, Structural)]
pub struct Date {
    pub year: i32,
    pub month: u32,
    pub day: u32,
}

impl Date {
    /// The date names a day of the calendar, in a year the ledger accepts.
    pub open spec fn wf(&self) -> bool {
        &&& MIN_YEAR <= self.year <= MAX_YEAR
        &&& is_calendar_date(self.year as int, self.month as int, self.day as int)
    }

    /// Days from 1970-01-01 to this date.
    pub open spec fn day_number(&self) -> int {
        epoch_day(self.year as int, self.month as int, self.day as int)
    }

    /// Index of the month this date lies in.
    pub open spec fn month_number(&self) -> int {
        month_index(self.year as int, self.month as int)
    }
}

/// An instant: a date and the seconds elapsed since its midnight, in UTC.
#[derive(Clone, Copy, Debug, PartialEq, Eq, Structural)]
pub struct Timestamp {
    pub date: Date,
    pub second_of_day: u32,
}

impl Timestamp {
    pub open spec fn wf(&self) -> bool {
        &&& self.date.wf()
        &&& self.second_of_day < 86_400
    }

    /// Seconds from 1970-01-01T00:00:00 to this instant.
    pub open spec fn epoch_second(&self) -> int {
        self.date.day_number() * 86_400 + self.second_of_day as int
    }
}

/// What `chrono` reads out of a text in the form year-month-day: the year, month and
/// day it found, or `None` where it rejects the text.
pub uninterp spec fn chrono_ymd_text(text: Seq<char>) -> Option<(i32, u32, u32)>;

/// `chrono::NaiveDate::from_ymd_opt`, asked only whether it accepts the triple. It
/// accepts exactly the days of the calendar in the years `chrono` can represent.
#[verifier::external_body]
pub(crate) fn chrono_accepts_ymd(year: i32, month: u32, day: u32) -> (accepted: bool)
    ensures
        accepted == (CHRONO_MIN_YEAR <= year <= CHRONO_MAX_YEAR && is_calendar_date(
            year as int,
            month as int,
            day as int,
        )),
{
    chrono::NaiveDate::from_ymd_opt(year, month, day).is_some()
}

/// `chrono::NaiveDate::signed_duration_since` followed by `TimeDelta::num_days`: the
/// whole days from `earlier` to `later`, negative where `later` comes first. Both
/// dates are first rebuilt as `NaiveDate` values.
#[verifier::external_body]
pub(crate) fn chrono_days_between(later: Date, earlier: Date) -> (days: i64)
    requires
        CHRONO_MIN_YEAR <= later.year <= CHRONO_MAX_YEAR,
        CHRONO_MIN_YEAR <= earlier.year <= CHRONO_MAX_YEAR,
        is_calendar_date(later.year as int, later.month as int, later.day as int),
        is_calendar_date(earlier.year as int, earlier.month as int, earlier.day as int),
    ensures
        days == later.day_number() - earlier.day_number(),
{
    let a = chrono::NaiveDate::from_ymd_opt(later.year, later.month, later.day).unwrap();
    let b = chrono::NaiveDate::from_ymd_opt(earlier.year, earlier.month, earlier.day).unwrap();
    a.signed_duration_since(b).num_days()
}

/// `chrono::NaiveDate::parse_from_str` with the format `%Y-%m-%d`. The fields of the
/// date it returns always name a day of the calendar in a year `chrono` represents.
#[verifier::external_body]
fn chrono_parse_ymd(text: &str) -> (parsed: Option<(i32, u32, u32)>)
    ensures
        parsed == chrono_ymd_text(text@),
        parsed matches Some(t) ==> CHRONO_MIN_YEAR <= t.0 <= CHRONO_MAX_YEAR && is_calendar_date(
            t.0 as int,
            t.1 as int,
            t.2 as int,
        ),
{
    match chrono::NaiveDate::parse_from_str(text, "%Y-%m-%d") {
        Ok(d) => Some(
            (chrono::Datelike::year(&d), chrono::Datelike::month(&d), chrono::Datelike::day(&d)),
        ),
        Err(_) => None,
    }
}

/// The date that a parsed year, month and day stand for: `Some` exactly where they
/// were found, name a day of the calendar and lie in the ledger's years.
pub open spec fn date_of_fields(parsed: Option<(i32, u32, u32)>) -> Option<Date> {
    match parsed {
        Some(t) => if MIN_YEAR <= t.0 <= MAX_YEAR && is_calendar_date(
            t.0 as int,
            t.1 as int,
            t.2 as int,
        ) {
            Some(Date { year: t.0, month: t.1, day: t.2 })
        } else {
            None
        },
        None => None,
    }
}

impl Date {
    /// The date `year`-`month`-`day`, or `None` where no such day exists or the year
    /// lies outside the ledger's range.
    pub fn from_ymd(year: i32, month: u32, day: u32) -> (r: Option<Date>)
        ensures
            r == date_of_fields(Some((year, month, day))),
    {
        if MIN_YEAR <= year && year <= MAX_YEAR && chrono_accepts_ymd(year, month, day) {
            Some(Date { year, month, day })
        } else {
            None
        }
    }

    /// Turns the fields read out of a text into a date of the ledger.
    pub fn from_fields(parsed: Option<(i32, u32, u32)>) -> (r: Option<Date>)
        ensures
            r == date_of_fields(parsed),
    {
        match parsed {
            Some(t) => Date::from_ymd(t.0, t.1, t.2),
            None => None,
        }
    }

    /// Reads a date written as year-month-day, such as `2024-12-30`.
    pub fn parse(text: &str) -> (r: Option<Date>)
        ensures
            r == date_of_fields(chrono_ymd_text(text@)),
            r matches Some(d) ==> d.wf(),
    {
        Date::from_fields(chrono_parse_ymd(text))
    }

    /// Whether the fields name a day the ledger accepts.
    pub fn is_valid(&self) -> (r: bool)
        ensures
            r == self.wf(),
    {
        MIN_YEAR <= self.year && self.year <= MAX_YEAR && chrono_accepts_ymd(
            self.year,
            self.month,
            self.day,
        )
    }

    /// Whole days from `earlier` to this date; negative where this date comes first.
    pub fn days_since(&self, earlier: &Date) -> (days: i64)
        requires
            self.wf(),
            earlier.wf(),
        ensures
            days == self.day_number() - earlier.day_number(),
    {
        chrono_days_between(*self, *earlier)
    }
}

impl Timestamp {
    /// Whether the instant lies on a day the ledger accepts.
    pub fn is_valid(&self) -> (r: bool)
        ensures
            r == self.wf(),
    {
        self.date.is_valid() && self.second_of_day < 86_400
    }

    /// Seconds from `earlier` to this instant; negative where this instant comes first.
    pub fn seconds_since(&self, earlier: &Timestamp) -> (seconds: i64)
        requires
            self.wf(),
            earlier.wf(),
        ensures
            seconds == self.epoch_second() - earlier.epoch_second(),
            -MAX_SPAN_SECONDS <= seconds <= MAX_SPAN_SECONDS,
    {
        let days: i64 = self.date.days_since(&earlier.date);
        proof {
            lemma_day_number_bounds(self.date);
            lemma_day_number_bounds(earlier.date);
        }
        days * SECONDS_PER_DAY + (self.second_of_day as i64 - earlier.second_of_day as i64)
    }
}

} // verus!
