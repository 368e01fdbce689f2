//! Calendar dates, UTC instants and the six shapes of an event's time.

use vstd::prelude::*;
use crate::text::{clone_opt, opt_view};

verus! {

/// The first year that a calendar date may have.
pub const MIN_YEAR: i32 = -262143;

/// The last year that a calendar date may have.
pub const MAX_YEAR: i32 = 262142;

pub open spec fn is_leap_year(year: int) -> bool {
    year % 4 == 0 && (year % 100 != 0 || year % 400 == 0)
}

/// The number of days of a month; 0 where the month does not exist.
pub open spec fn days_in_month(year: int, month: int) -> int {
    if month == 2 {
        if is_leap_year(year) {
            29
        } else {
            28
        }
    } else if month == 4 || month == 6 || month == 9 || month == 11 {
        30
    } else if 1 <= month <= 12 {
        31
    } else {
        0
    }
}

/// Whether year, month and day name a day of the proleptic Gregorian calendar
/// within the supported range of years.
pub open spec fn valid_ymd(year: int, month: int, day: int) -> bool {
    &&& MIN_YEAR <= year <= MAX_YEAR
    &&& 1 <= month <= 12
    &&& 1 <= day <= days_in_month(year, month)
}

pub fn leap_year(year: i32) -> (r: bool)
    ensures
        r == is_leap_year(year as int),
{
    year % 4 == 0 && (year % 100 != 0 || year % 400 == 0)
}

pub fn month_days(year: i32, month: u32) -> (r: u32)
    ensures
        r == days_in_month(year as int, month as int),
{
    if month == 2 {
        if leap_year(year) {
            29
        } else {
            28
        }
    } else if month == 4 || month == 6 || month == 9 || month == 11 {
        30
    } else if 1 <= month && month <= 12 {
        31
    } else {
        0
    }
}

/// A day of the calendar, without a time zone.
#[derive(Clone, Copy, Debug, PartialEq, Eq, Structural)]
pub struct CalendarDate {
    pub year: i32,
    pub month: u32,
    pub day: u32,
}

/// The date made of the three numbers, where they name a day.
pub open spec fn date_of(year: int, month: int, day: int) -> Option<CalendarDate> {
    if valid_ymd(year, month, day) {
        Some(CalendarDate { year: year as i32, month: month as u32, day: day as u32 })
    } else {
        None
    }
}

impl CalendarDate {
    pub open spec fn is_valid(self) -> bool {
        valid_ymd(self.year as int, self.month as int, self.day as int)
    }

    /// Chronological order, also on triples that name no day.
    pub open spec fn before(self, other: CalendarDate) -> bool {
        self.year < other.year || (self.year == other.year && (self.month < other.month || (
        self.month == other.month && self.day < other.day)))
    }

    pub open spec fn not_before(self, other: CalendarDate) -> bool {
        !self.before(other)
    }

    /// The day after `self`; `None` for the last supported day and for
    /// triples that name no day.
    pub open spec fn next(self) -> Option<CalendarDate> {
        if !self.is_valid() {
            None
        } else if (self.day as int) < days_in_month(self.year as int, self.month as int) {
            Some(CalendarDate { year: self.year, month: self.month, day: (self.day + 1) as u32 })
        } else if self.month < 12 {
            Some(CalendarDate { year: self.year, month: (self.month + 1) as u32, day: 1 })
        } else if self.year < MAX_YEAR {
            Some(CalendarDate { year: (self.year + 1) as i32, month: 1, day: 1 })
        } else {
            None
        }
    }

    /// The date with the given year, month and day, if there is such a day.
    pub fn from_ymd(year: i32, month: u32, day: u32) -> (r: Option<CalendarDate>)
        ensures
            r == date_of(year as int, month as int, day as int),
    {
        if MIN_YEAR <= year && year <= MAX_YEAR && 1 <= month && month <= 12 && 1 <= day && day
            <= month_days(year, month) {
            Some(CalendarDate { year, month, day })
        } else {
            None
        }
    }

    pub fn valid(&self) -> (r: bool)
        ensures
            r == self.is_valid(),
    {
        CalendarDate::from_ymd(self.year, self.month, self.day).is_some()
    }

    pub fn is_before(&self, other: &CalendarDate) -> (r: bool)
        ensures
            r == self.before(*other),
    {
        self.year < other.year || (self.year == other.year && (self.month < other.month || (
        self.month == other.month && self.day < other.day)))
    }

    pub fn succ(&self) -> (r: Option<CalendarDate>)
        ensures
            r == self.next(),
            r matches Some(d) ==> d.is_valid() && self.before(d),
    {
        if !self.valid() {
            None
        } else if self.day < month_days(self.year, self.month) {
            Some(CalendarDate { year: self.year, month: self.month, day: self.day + 1 })
        } else if self.month < 12 {
            Some(CalendarDate { year: self.year, month: self.month + 1, day: 1 })
        } else if self.year < MAX_YEAR {
            Some(CalendarDate { year: self.year + 1, month: 1, day: 1 })
        } else {
            None
        }
    }
}

/// A point in time on the UTC scale, to the nanosecond. A leap second is
/// second 59 with at least 1 000 000 000 nanoseconds.
#[derive(Clone, Copy, Debug, PartialEq, Eq, Structural)]
pub struct UtcInstant {
    pub date: CalendarDate,
    pub hour: u32,
    pub minute: u32,
    pub second: u32,
    pub nano: u32,
}

pub open spec fn valid_clock(hour: int, minute: int, second: int, nano: int) -> bool {
    0 <= hour < 24 && 0 <= minute < 60 && 0 <= second < 60 && 0 <= nano < 2_000_000_000
}

/// The instant made of the seven numbers, where they name one.
pub open spec fn instant_of(
    year: int,
    month: int,
    day: int,
    hour: int,
    minute: int,
    second: int,
    nano: int,
) -> Option<UtcInstant> {
    if valid_ymd(year, month, day) && valid_clock(hour, minute, second, nano) {
        Some(
            UtcInstant {
                date: CalendarDate { year: year as i32, month: month as u32, day: day as u32 },
                hour: hour as u32,
                minute: minute as u32,
                second: second as u32,
                nano: nano as u32,
            },
        )
    } else {
        None
    }
}

impl UtcInstant {
    pub open spec fn is_valid(self) -> bool {
        self.date.is_valid() && valid_clock(
            self.hour as int,
            self.minute as int,
            self.second as int,
            self.nano as int,
        )
    }

    /// The instant with the given fields, if they name one.
    pub fn from_parts(
        year: i32,
        month: u32,
        day: u32,
        hour: u32,
        minute: u32,
        second: u32,
        nano: u32,
    ) -> (r: Option<UtcInstant>)
        ensures
            r == instant_of(
                year as int,
                month as int,
                day as int,
                hour as int,
                minute as int,
                second as int,
                nano as int,
            ),
    {
        match CalendarDate::from_ymd(year, month, day) {
            Some(date) => {
                if hour < 24 && minute < 60 && second < 60 && nano < 2_000_000_000 {
                    Some(UtcInstant { date, hour, minute, second, nano })
                } else {
                    None
                }
            },
            None => None,
        }
    }
}

/// When an event takes place, as exactly as its source says.
#[derive(Clone, Debug)]
#[allow(inconsistent_fields)]
pub enum EventTimeSpec {
    DateTime { start: UtcInstant, end: Option<UtcInstant> },
    Date { start: CalendarDate, end: Option<CalendarDate> },
    Month { year: i32, month: u32 },
    Quarter { year: i32, quarter: u8 },
    Year { year: i32 },
    Tbd { note: Option<String> },
}

/// The mathematical value of an `EventTimeSpec`.
#[allow(inconsistent_fields)]
pub enum TimeView {
    DateTime { start: UtcInstant, end: Option<UtcInstant> },
    Date { start: CalendarDate, end: Option<CalendarDate> },
    Month { year: i32, month: u32 },
    Quarter { year: i32, quarter: u8 },
    Year { year: i32 },
    Tbd { note: Option<Seq<char>> },
}

impl View for EventTimeSpec {
    type V = TimeView;

    open spec fn view(&self) -> TimeView {
        match *self {
            EventTimeSpec::DateTime { start, end } => TimeView::DateTime { start, end },
            EventTimeSpec::Date { start, end } => TimeView::Date { start, end },
            EventTimeSpec::Month { year, month } => TimeView::Month { year, month },
            EventTimeSpec::Quarter { year, quarter } => TimeView::Quarter { year, quarter },
            EventTimeSpec::Year { year } => TimeView::Year { year },
            EventTimeSpec::Tbd { note } => TimeView::Tbd { note: opt_view(note) },
        }
    }
}

/// The first month of a quarter; quarter 0 counts as quarter 1.
pub open spec fn quarter_first_month(quarter: int) -> int {
    if quarter <= 1 {
        1
    } else {
        1 + (quarter - 1) * 3
    }
}

impl TimeView {
    /// The year under which the event is filed; none for `Tbd`.
    pub open spec fn year_bucket(self) -> Option<i32> {
        match self {
            TimeView::DateTime { start, .. } => Some(start.date.year),
            TimeView::Date { start, .. } => Some(start.year),
            TimeView::Month { year, .. } => Some(year),
            TimeView::Quarter { year, .. } => Some(year),
            TimeView::Year { year } => Some(year),
            TimeView::Tbd { .. } => None,
        }
    }

    /// The first day of the event; none for `Tbd` and where the fields name no
    /// day.
    pub open spec fn start_date(self) -> Option<CalendarDate> {
        match self {
            TimeView::DateTime { start, .. } => Some(start.date),
            TimeView::Date { start, .. } => Some(start),
            TimeView::Month { year, month } => date_of(year as int, month as int, 1),
            TimeView::Quarter { year, quarter } => date_of(
                year as int,
                quarter_first_month(quarter as int),
                1,
            ),
            TimeView::Year { year } => date_of(year as int, 1, 1),
            TimeView::Tbd { .. } => None,
        }
    }

    /// The day after the event's last day. For `DateTime` it is the day of the
    /// end instant; for a month, a quarter and a year the first day of the
    /// next one.
    pub open spec fn end_date_exclusive(self) -> Option<CalendarDate> {
        match self {
            TimeView::DateTime { end, .. } => match end {
                Some(e) => Some(e.date),
                None => None,
            },
            TimeView::Date { start, end } => match end {
                Some(e) => e.next(),
                None => start.next(),
            },
            TimeView::Month { year, month } => if month == 12 {
                date_of(year + 1, 1, 1)
            } else {
                date_of(year as int, month + 1, 1)
            },
            TimeView::Quarter { year, quarter } => {
                let next_month = quarter_first_month(quarter as int) + 3;
                if next_month > 12 {
                    date_of(year + 1, next_month - 12, 1)
                } else {
                    date_of(year as int, next_month, 1)
                }
            },
            TimeView::Year { year } => date_of(year + 1, 1, 1),
            TimeView::Tbd { .. } => None,
        }
    }

    /// Whether the event starts on `today` or later. An event without a time
    /// counts as future; one whose fields name no day does not.
    pub open spec fn is_future_relative_to(self, today: CalendarDate) -> bool {
        match self {
            TimeView::Tbd { .. } => true,
            _ => match self.start_date() {
                Some(d) => d.not_before(today),
                None => false,
            },
        }
    }

    /// The name of the shape.
    pub open spec fn precision(self) -> Seq<char> {
        match self {
            TimeView::DateTime { .. } => "datetime"@,
            TimeView::Date { .. } => "date"@,
            TimeView::Month { .. } => "month"@,
            TimeView::Quarter { .. } => "quarter"@,
            TimeView::Year { .. } => "year"@,
            TimeView::Tbd { .. } => "tbd"@,
        }
    }
}

/// The first day of the month `month` of `year`, both taken as they come.
fn first_of_month(year: i64, month: i64) -> (r: Option<CalendarDate>)
    ensures
        r == date_of(year as int, month as int, 1),
{
    if MIN_YEAR as i64 <= year && year <= MAX_YEAR as i64 && 1 <= month && month <= 12 {
        CalendarDate::from_ymd(year as i32, month as u32, 1)
    } else {
        None
    }
}

impl EventTimeSpec {
    pub fn year_bucket(&self) -> (r: Option<i32>)
        ensures
            r == self@.year_bucket(),
    {
        match self {
            EventTimeSpec::DateTime { start, .. } => Some(start.date.year),
            EventTimeSpec::Date { start, .. } => Some(start.year),
            EventTimeSpec::Month { year, .. } => Some(*year),
            EventTimeSpec::Quarter { year, .. } => Some(*year),
            EventTimeSpec::Year { year } => Some(*year),
            EventTimeSpec::Tbd { .. } => None,
        }
    }

    pub fn start_date(&self) -> (r: Option<CalendarDate>)
        ensures
            r == self@.start_date(),
    {
        match self {
            EventTimeSpec::DateTime { start, .. } => Some(start.date),
            EventTimeSpec::Date { start, .. } => Some(*start),
            EventTimeSpec::Month { year, month } => first_of_month(*year as i64, *month as i64),
            EventTimeSpec::Quarter { year, quarter } => {
                let first: i64 = if *quarter <= 1 {
                    1
                } else {
                    1 + (*quarter as i64 - 1) * 3
                };
                first_of_month(*year as i64, first)
            },
            EventTimeSpec::Year { year } => first_of_month(*year as i64, 1),
            EventTimeSpec::Tbd { .. } => None,
        }
    }

    pub fn precision(&self) -> (r: &'static str)
        ensures
            r@ == self@.precision(),
    {
        match self {
            EventTimeSpec::DateTime { .. } => "datetime",
            EventTimeSpec::Date { .. } => "date",
            EventTimeSpec::Month { .. } => "month",
            EventTimeSpec::Quarter { .. } => "quarter",
            EventTimeSpec::Year { .. } => "year",
            EventTimeSpec::Tbd { .. } => "tbd",
        }
    }

    pub fn is_future_relative_to(&self, today: CalendarDate) -> (r: bool)
        ensures
            r == self@.is_future_relative_to(today),
    {
        match self {
            EventTimeSpec::Tbd { .. } => true,
            _ => match self.start_date() {
                Some(d) => !d.is_before(&today),
                None => false,
            },
        }
    }

    pub fn end_date_exclusive(&self) -> (r: Option<CalendarDate>)
        ensures
            r == self@.end_date_exclusive(),
    {
        match self {
            EventTimeSpec::DateTime { end, .. } => match end {
                Some(e) => Some(e.date),
                None => None,
            },
            EventTimeSpec::Date { start, end } => match end {
                Some(e) => e.succ(),
                None => start.succ(),
            },
            EventTimeSpec::Month { year, month } => if *month == 12 {
                first_of_month(*year as i64 + 1, 1)
            } else {
                first_of_month(*year as i64, *month as i64 + 1)
            },
            EventTimeSpec::Quarter { year, quarter } => {
                let first: i64 = if *quarter <= 1 {
                    1
                } else {
                    1 + (*quarter as i64 - 1) * 3
                };
                let next_month: i64 = first + 3;
                if next_month > 12 {
                    first_of_month(*year as i64 + 1, next_month - 12)
                } else {
                    first_of_month(*year as i64, next_month)
                }
            },
            EventTimeSpec::Year { year } => first_of_month(*year as i64 + 1, 1),
            EventTimeSpec::Tbd { .. } => None,
        }
    }

    /// An owned copy of the value.
    pub fn copy(&self) -> (r: EventTimeSpec)
        ensures
            r@ == self@,
    {
        match self {
            EventTimeSpec::DateTime { start, end } => EventTimeSpec::DateTime {
                start: *start,
                end: *end,
            },
            EventTimeSpec::Date { start, end } => EventTimeSpec::Date { start: *start, end: *end },
            EventTimeSpec::Month { year, month } => EventTimeSpec::Month {
                year: *year,
                month: *month,
            },
            EventTimeSpec::Quarter { year, quarter } => EventTimeSpec::Quarter {
                year: *year,
                quarter: *quarter,
            },
            EventTimeSpec::Year { year } => EventTimeSpec::Year { year: *year },
            EventTimeSpec::Tbd { note } => EventTimeSpec::Tbd { note: clone_opt(note) },
        }
    }
}

} // verus!
