//! Civil (proleptic Gregorian) calendar arithmetic on seconds since the Unix epoch,
//! 1970-01-01T00:00:00 UTC, and the two textual renderings used in WebDAV properties.

use vstd::prelude::*;
use vstd::string::StringExecFns;
use crate::text::{decimal, push_decimal, push_two_digits, two_digits};

verus! {

/// Whether `year` is a Gregorian leap year.
pub open spec fn leap_year(year: int) -> bool {
    year % 4 == 0 && (year % 100 != 0 || year % 400 == 0)
}

/// Number of days in `year`.
pub open spec fn year_length(year: int) -> int {
    if leap_year(year) {
        366
    } else {
        365
    }
}

/// Number of days in month `month` (1 = January) of a leap or a common year.
pub open spec fn month_days(leap: bool, month: int) -> int {
    if month == 2 {
        if leap {
            29
        } else {
            28
        }
    } else if month == 4 || month == 6 || month == 9 || month == 11 {
        30
    } else {
        31
    }
}

/// Number of days in month `month` (1 = January) of `year`.
pub open spec fn month_length(year: int, month: int) -> int {
    month_days(leap_year(year), month)
}

/// Days between 1970-01-01 and the first day of `year`.
pub open spec fn days_before_year(year: int) -> int
    decreases year - 1970,
{
    if year <= 1970 {
        0
    } else {
        days_before_year(year - 1) + year_length(year - 1)
    }
}

/// Days between the first day of `year` and the first day of its month `month`.
pub open spec fn days_before_month(year: int, month: int) -> int
    decreases month,
{
    if month <= 1 {
        0
    } else {
        days_before_month(year, month - 1) + month_length(year, month - 1)
    }
}

/// A calendar date on or after the epoch.
pub open spec fn valid_date(year: int, month: int, day: int) -> bool {
    &&& 1970 <= year
    &&& 1 <= month <= 12
    &&& 1 <= day <= month_length(year, month)
}

/// Days between 1970-01-01 and the given date.
pub open spec fn days_from_civil(year: int, month: int, day: int) -> int {
    days_before_year(year) + days_before_month(year, month) + day - 1
}

/// Three-letter English abbreviation of month `month` (1 = January).
pub open spec fn month_name(month: int) -> Seq<char> {
    if month == 1 {
        "Jan"@
    } else if month == 2 {
        "Feb"@
    } else if month == 3 {
        "Mar"@
    } else if month == 4 {
        "Apr"@
    } else if month == 5 {
        "May"@
    } else if month == 6 {
        "Jun"@
    } else if month == 7 {
        "Jul"@
    } else if month == 8 {
        "Aug"@
    } else if month == 9 {
        "Sep"@
    } else if month == 10 {
        "Oct"@
    } else if month == 11 {
        "Nov"@
    } else {
        "Dec"@
    }
}

/// Three-letter English abbreviation of a weekday counted from Thursday,
/// the weekday of the epoch.
pub open spec fn weekday_name(weekday: int) -> Seq<char> {
    if weekday == 0 {
        "Thu"@
    } else if weekday == 1 {
        "Fri"@
    } else if weekday == 2 {
        "Sat"@
    } else if weekday == 3 {
        "Sun"@
    } else if weekday == 4 {
        "Mon"@
    } else if weekday == 5 {
        "Tue"@
    } else {
        "Wed"@
    }
}

/// Days in 400 consecutive Gregorian years: 400 * 365 and 97 leap days.
pub const DAYS_PER_CYCLE: u64 = 146_097;

/// The last instant whose year still fits in 32 bits: the final second of year 4294967295.
pub const MAX_SECONDS: u64 = 135_536_014_634_284_799;

/// A point in time as the operating system reports it: a distance from the
/// epoch and the side of the epoch it lies on.
#[derive(Clone, Copy, Debug, PartialEq, Eq, Structural)]
pub struct Timestamp {
    pub before_epoch: bool,
    pub secs: u64,
    pub nanos: u32,
}

/// A broken-down UTC date and time.
#[derive(Clone, Copy, Debug)]
pub struct DateTimeUTC {
    pub year: u32,
    pub month_no: u8,
    pub day_no: u8,
    pub hour: u8,
    pub minute: u8,
    pub second: u8,
    /// Day of the week counted from Thursday, the weekday of the epoch.
    pub dow: u8,
}

/// Whether `year` is a Gregorian leap year.
pub fn is_leap_year(year: u32) -> (leap: bool)
    ensures
        leap == leap_year(year as int),
{
    year % 4 == 0 && (year % 100 != 0 || year % 400 == 0)
}

/// The number of days in `year`.
pub fn days_in_year(year: u32) -> (days: u64)
    ensures
        days == year_length(year as int),
{
    if is_leap_year(year) {
        366
    } else {
        365
    }
}

fn days_in_month(leap: bool, month: u8) -> (days: u64)
    requires
        1 <= month <= 12,
    ensures
        days == month_days(leap, month as int),
{
    if month == 2 {
        if leap {
            29
        } else {
            28
        }
    } else if month == 4 || month == 6 || month == 9 || month == 11 {
        30
    } else {
        31
    }
}

/// Closed form of the day count up to a year: 365 days per year plus one per leap year passed.
proof fn lemma_days_before_year(year: int)
    requires
        1970 <= year,
    ensures
        days_before_year(year) == 365 * (year - 1970) + (year - 1) / 4 - (year - 1) / 100 + (year
            - 1) / 400 - 477,
    decreases year,
{
    if year > 1970 {
        lemma_days_before_year(year - 1);
    }
}

proof fn lemma_days_before_year_monotonic(a: int, b: int)
    requires
        1970 <= a <= b,
    ensures
        days_before_year(a) <= days_before_year(b),
    decreases b - a,
{
    if a < b {
        lemma_days_before_year_monotonic(a, b - 1);
    }
}

proof fn lemma_days_before_month_monotonic(year: int, a: int, b: int)
    requires
        1 <= a <= b,
    ensures
        days_before_month(year, a) <= days_before_month(year, b),
    decreases b - a,
{
    if a < b {
        lemma_days_before_month_monotonic(year, a, b - 1);
    }
}

proof fn lemma_months_fill_year(year: int)
    ensures
        days_before_month(year, 13) == year_length(year),
{
    reveal_with_fuel(days_before_month, 14);
}

/// A valid date lies inside its own year.
proof fn lemma_date_within_year(year: int, month: int, day: int)
    requires
        valid_date(year, month, day),
    ensures
        0 <= days_before_month(year, month) + day - 1 < year_length(year),
        days_before_year(year) <= days_from_civil(year, month, day) < days_before_year(year + 1),
{
    lemma_days_before_month_monotonic(year, 1, month);
    lemma_days_before_month_monotonic(year, month + 1, 13);
    lemma_months_fill_year(year);
}

/// The day number of a date grows by a year's length, 365 or 366 days and the
/// latter exactly in leap years, from one New Year's Day to the next.
pub proof fn lemma_year_step(year: int)
    requires
        1970 <= year,
    ensures
        days_from_civil(year + 1, 1, 1) - days_from_civil(year, 1, 1) == year_length(year),
        year_length(year) == 366 <==> year % 4 == 0 && (year % 100 != 0 || year % 400 == 0),
        year_length(year) == 365 || year_length(year) == 366,
{
}

/// Every 400 years hold the same number of days, 146097.
pub proof fn lemma_gregorian_cycle(year: int)
    requires
        1970 <= year,
    ensures
        days_before_year(year + 400) == days_before_year(year) + 146097,
{
    lemma_days_before_year(year);
    lemma_days_before_year(year + 400);
    assert((year + 399) / 4 == (year - 1) / 4 + 100);
    assert((year + 399) / 100 == (year - 1) / 100 + 4);
    assert((year + 399) / 400 == (year - 1) / 400 + 1);
}

/// Whole 400-year cycles counted from the epoch start on multiples of 146097 days.
proof fn lemma_cycle_start(cycles: int)
    requires
        0 <= cycles,
    ensures
        days_before_year(1970 + 400 * cycles) == 146097 * cycles,
    decreases cycles,
{
    if cycles > 0 {
        lemma_cycle_start(cycles - 1);
        lemma_gregorian_cycle(1970 + 400 * (cycles - 1));
    }
}

/// Two valid dates with the same day number are the same date.
pub proof fn lemma_days_from_civil_injective(y1: int, m1: int, d1: int, y2: int, m2: int, d2: int)
    requires
        valid_date(y1, m1, d1),
        valid_date(y2, m2, d2),
        days_from_civil(y1, m1, d1) == days_from_civil(y2, m2, d2),
    ensures
        y1 == y2,
        m1 == m2,
        d1 == d2,
{
    lemma_date_within_year(y1, m1, d1);
    lemma_date_within_year(y2, m2, d2);
    if y1 < y2 {
        lemma_days_before_year_monotonic(y1 + 1, y2);
    }
    if y2 < y1 {
        lemma_days_before_year_monotonic(y2 + 1, y1);
    }
    if m1 < m2 {
        lemma_days_before_month_monotonic(y1, m1 + 1, m2);
    }
    if m2 < m1 {
        lemma_days_before_month_monotonic(y1, m2 + 1, m1);
    }
}

impl DateTimeUTC {
    /// Day of the week counted from Thursday: 0 = Thursday, ..., 6 = Wednesday.
    pub open spec fn weekday(self) -> int {
        self.dow as int
    }

    /// The fields form a real date and time of day.
    pub open spec fn wf(self) -> bool {
        &&& valid_date(self.year as int, self.month_no as int, self.day_no as int)
        &&& self.hour < 24
        &&& self.minute < 60
        &&& self.second < 60
        &&& 0 <= self.weekday() < 7
    }

    /// `self` is the date and time that lies `seconds` after the epoch.
    pub open spec fn encodes(self, seconds: int) -> bool {
        &&& self.wf()
        &&& days_from_civil(self.year as int, self.month_no as int, self.day_no as int) == seconds
            / 86400
        &&& self.hour == (seconds / 3600) % 24
        &&& self.minute == (seconds / 60) % 60
        &&& self.second == seconds % 60
        &&& self.weekday() == (seconds / 86400) % 7
    }

    /// `YYYY-MM-DDTHH:MM:SS-00:00`.
    pub open spec fn creationdate_text(self) -> Seq<char> {
        decimal(self.year as nat) + "-"@ + two_digits(self.month_no as nat) + "-"@ + two_digits(
            self.day_no as nat,
        ) + "T"@ + two_digits(self.hour as nat) + ":"@ + two_digits(self.minute as nat) + ":"@
            + two_digits(self.second as nat) + "-00:00"@
    }

    /// `Www, D Mon YYYY HH:MM:SS GMT`.
    pub open spec fn getlastmodified_text(self) -> Seq<char> {
        weekday_name(self.weekday()) + ", "@ + decimal(self.day_no as nat) + " "@ + month_name(
            self.month_no as int,
        ) + " "@ + decimal(self.year as nat) + " "@ + two_digits(self.hour as nat) + ":"@
            + two_digits(self.minute as nat) + ":"@ + two_digits(self.second as nat) + " GMT"@
    }

    /// Renders in the style of the `creationdate` property, with a zero UTC offset.
    pub fn creationdate_style(&self) -> (text: String)
        requires
            self.wf(),
        ensures
            text@ == self.creationdate_text(),
    {
        let mut text = String::new();
        push_decimal(&mut text, self.year as u64);
        text.append("-");
        push_two_digits(&mut text, self.month_no);
        text.append("-");
        push_two_digits(&mut text, self.day_no);
        text.append("T");
        push_two_digits(&mut text, self.hour);
        text.append(":");
        push_two_digits(&mut text, self.minute);
        text.append(":");
        push_two_digits(&mut text, self.second);
        text.append("-00:00");
        text
    }

    /// Renders in the style of the `getlastmodified` property.
    pub fn getlastmodified_style(&self) -> (text: String)
        requires
            self.wf(),
        ensures
            text@ == self.getlastmodified_text(),
    {
        let month = if self.month_no == 1 {
            "Jan"
        } else if self.month_no == 2 {
            "Feb"
        } else if self.month_no == 3 {
            "Mar"
        } else if self.month_no == 4 {
            "Apr"
        } else if self.month_no == 5 {
            "May"
        } else if self.month_no == 6 {
            "Jun"
        } else if self.month_no == 7 {
            "Jul"
        } else if self.month_no == 8 {
            "Aug"
        } else if self.month_no == 9 {
            "Sep"
        } else if self.month_no == 10 {
            "Oct"
        } else if self.month_no == 11 {
            "Nov"
        } else {
            "Dec"
        };
        let dow = if self.dow == 0 {
            "Thu"
        } else if self.dow == 1 {
            "Fri"
        } else if self.dow == 2 {
            "Sat"
        } else if self.dow == 3 {
            "Sun"
        } else if self.dow == 4 {
            "Mon"
        } else if self.dow == 5 {
            "Tue"
        } else {
            "Wed"
        };
        let mut text = String::new();
        text.append(dow);
        text.append(", ");
        push_decimal(&mut text, self.day_no as u64);
        text.append(" ");
        text.append(month);
        text.append(" ");
        push_decimal(&mut text, self.year as u64);
        text.append(" ");
        push_two_digits(&mut text, self.hour);
        text.append(":");
        push_two_digits(&mut text, self.minute);
        text.append(":");
        push_two_digits(&mut text, self.second);
        text.append(" GMT");
        text
    }

    /// Breaks a count of seconds since the epoch down into date, time of day and weekday.
    pub fn from_seconds_since_epoch(seconds_since_epoch: u64) -> (dt: Self)
        requires
            seconds_since_epoch <= MAX_SECONDS,
        ensures
            dt.encodes(seconds_since_epoch as int),
            dt == civil(seconds_since_epoch as int),
    {
        let second: u8 = (seconds_since_epoch % 60) as u8;
        let minute: u8 = (seconds_since_epoch / 60 % 60) as u8;
        let hour: u8 = (seconds_since_epoch / 60 / 60 % 24) as u8;
        let days_since_epoch: u64 = seconds_since_epoch / 60 / 60 / 24;
        let dow: u8 = (days_since_epoch % 7) as u8;
        assert(seconds_since_epoch / 60 / 60 == seconds_since_epoch / 3600);
        assert(days_since_epoch == seconds_since_epoch / 86400);

        let cycles: u64 = days_since_epoch / DAYS_PER_CYCLE;
        let mut days: u64 = days_since_epoch % DAYS_PER_CYCLE;
        assert(days_since_epoch <= 1568703873081);
        assert(cycles <= 10737413);
        let mut year: u32 = (1970 + 400 * cycles) as u32;
        proof {
            lemma_cycle_start(cycles as int);
            lemma_days_before_year(4294967296);
        }
        while days >= days_in_year(year)
            invariant
                1970 <= year,
                days_before_year(year as int) + days == days_since_epoch,
                days_since_epoch < days_before_year(4294967296),
            decreases days,
        {
            proof {
                if year == u32::MAX {
                    assert(days_before_year(4294967296) == days_before_year(year as int)
                        + year_length(year as int));
                }
            }
            days -= days_in_year(year);
            year += 1;
        }
        let leap = is_leap_year(year);
        let ghost day_of_year = days;
        let mut month_no: u8 = 1;
        proof {
            lemma_months_fill_year(year as int);
        }
        loop
            invariant
                1 <= month_no <= 12,
                leap == leap_year(year as int),
                days_before_month(year as int, month_no as int) + days == day_of_year,
                day_of_year < year_length(year as int),
                days_before_month(year as int, 13) == year_length(year as int),
            ensures
                days < month_length(year as int, month_no as int),
            decreases 12 - month_no,
        {
            let month_days = days_in_month(leap, month_no);
            if days < month_days {
                break ;
            }
            proof {
                lemma_days_before_month_monotonic(year as int, month_no as int + 1, 13);
            }
            days -= month_days;
            month_no += 1;
        }
        let dt = Self { year, month_no, day_no: 1 + days as u8, hour, minute, second, dow };
        proof {
            assert(dt.encodes(seconds_since_epoch as int));
            lemma_encodes_unique(seconds_since_epoch as int, dt, civil(seconds_since_epoch as int));
        }
        dt
    }

    /// The date and time of a timestamp, where it lies at or after the epoch
    /// and in a year that 32 bits can hold.
    pub fn try_from(value: Timestamp) -> (converted: Result<Self, ()>)
        ensures
            match converted {
                Ok(dt) => civil_of(value) == Some(dt) && dt.encodes(value.secs as int),
                Err(_) => civil_of(value) is None,
            },
    {
        if value.before_epoch || value.secs > MAX_SECONDS {
            Err(())
        } else {
            Ok(Self::from_seconds_since_epoch(value.secs))
        }
    }
}

/// The date and time that lies `seconds` after the epoch.
pub open spec fn civil(seconds: int) -> DateTimeUTC {
    choose|dt: DateTimeUTC| dt.encodes(seconds)
}

/// The date and time of a timestamp, where it lies at or after the epoch and
/// in a year that 32 bits can hold.
pub open spec fn civil_of(time: Timestamp) -> Option<DateTimeUTC> {
    if !time.before_epoch && time.secs <= MAX_SECONDS {
        Some(civil(time.secs as int))
    } else {
        None
    }
}

/// An instant has one date and time.
pub proof fn lemma_encodes_unique(seconds: int, a: DateTimeUTC, b: DateTimeUTC)
    requires
        a.encodes(seconds),
        b.encodes(seconds),
    ensures
        a == b,
{
    lemma_days_from_civil_injective(
        a.year as int,
        a.month_no as int,
        a.day_no as int,
        b.year as int,
        b.month_no as int,
        b.day_no as int,
    );
}

/// Decomposing the instant `second_of_day` seconds into the day of a valid
/// date gives back that date, that time of day, and the weekday that follows
/// from the epoch being a Thursday.
pub proof fn lemma_civil_round_trip(
    year: int,
    month: int,
    day: int,
    second_of_day: int,
    dt: DateTimeUTC,
)
    requires
        valid_date(year, month, day),
        0 <= second_of_day < 86400,
        dt.encodes(86400 * days_from_civil(year, month, day) + second_of_day),
    ensures
        dt.year == year,
        dt.month_no == month,
        dt.day_no == day,
        dt.hour == second_of_day / 3600,
        dt.minute == (second_of_day / 60) % 60,
        dt.second == second_of_day % 60,
        dt.weekday() == days_from_civil(year, month, day) % 7,
{
    let days = days_from_civil(year, month, day);
    let seconds = 86400 * days + second_of_day;
    lemma_date_within_year(year, month, day);
    lemma_days_before_year_monotonic(1970, year);
    assert(seconds / 86400 == days);
    lemma_days_from_civil_injective(
        dt.year as int,
        dt.month_no as int,
        dt.day_no as int,
        year,
        month,
        day,
    );
}

} // verus!
