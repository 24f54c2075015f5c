//! Calendar dates and days of the week. The Gregorian calendar itself (how
//! long a month is, on which day of the week it starts) comes from `chrono`.

use chrono::Datelike;
use chrono::NaiveDate;
use num_traits::FromPrimitive;
use vstd::prelude::*;

verus! {

/// A day of the week.
#[derive(Clone, Copy, PartialEq, Eq, Debug, Structural)]
pub enum Weekday {
    Mon,
    Tue,
    Wed,
    Thu,
    Fri,
    Sat,
    Sun,
}

impl Weekday {
    /// The number of days since Monday: 0 for Monday up to 6 for Sunday.
    pub open spec fn index(self) -> int {
        match self {
            Weekday::Mon => 0,
            Weekday::Tue => 1,
            Weekday::Wed => 2,
            Weekday::Thu => 3,
            Weekday::Fri => 4,
            Weekday::Sat => 5,
            Weekday::Sun => 6,
        }
    }

    /// The day of the week that lies `i` days after Monday, `i` taken modulo 7.
    pub open spec fn from_index(i: int) -> Weekday {
        let r = i % 7;
        if r == 0 {
            Weekday::Mon
        } else if r == 1 {
            Weekday::Tue
        } else if r == 2 {
            Weekday::Wed
        } else if r == 3 {
            Weekday::Thu
        } else if r == 4 {
            Weekday::Fri
        } else if r == 5 {
            Weekday::Sat
        } else {
            Weekday::Sun
        }
    }

    /// The day of the week `k` days after this one.
    pub open spec fn plus(self, k: int) -> Weekday {
        Weekday::from_index(self.index() + k)
    }

    /// How many days one has to go forward from `other` to reach this day:
    /// between 0 and 6.
    pub open spec fn spec_days_since(self, other: Weekday) -> int {
        (self.index() - other.index() + 7) % 7
    }

    /// The number of days since Monday.
    pub fn num_days_from_monday(&self) -> (r: u32)
        ensures
            r == self.index(),
    {
        match self {
            Weekday::Mon => 0,
            Weekday::Tue => 1,
            Weekday::Wed => 2,
            Weekday::Thu => 3,
            Weekday::Fri => 4,
            Weekday::Sat => 5,
            Weekday::Sun => 6,
        }
    }

    /// The next day of the week; Monday follows Sunday.
    pub fn succ(&self) -> (r: Weekday)
        ensures
            r == self.plus(1),
    {
        match self {
            Weekday::Mon => Weekday::Tue,
            Weekday::Tue => Weekday::Wed,
            Weekday::Wed => Weekday::Thu,
            Weekday::Thu => Weekday::Fri,
            Weekday::Fri => Weekday::Sat,
            Weekday::Sat => Weekday::Sun,
            Weekday::Sun => Weekday::Mon,
        }
    }

    /// The previous day of the week; Sunday precedes Monday.
    pub fn pred(&self) -> (r: Weekday)
        ensures
            r == self.plus(6),
    {
        match self {
            Weekday::Mon => Weekday::Sun,
            Weekday::Tue => Weekday::Mon,
            Weekday::Wed => Weekday::Tue,
            Weekday::Thu => Weekday::Wed,
            Weekday::Fri => Weekday::Thu,
            Weekday::Sat => Weekday::Fri,
            Weekday::Sun => Weekday::Sat,
        }
    }

    /// How many days one has to go forward from `other` to reach this day.
    pub fn days_since(&self, other: Weekday) -> (r: u32)
        ensures
            r == self.spec_days_since(other),
            r < 7,
    {
        let lhs = self.num_days_from_monday();
        let rhs = other.num_days_from_monday();
        if lhs < rhs {
            7 + lhs - rhs
        } else {
            lhs - rhs
        }
    }
}

/// The index of a day of the week is below 7 and names the day.
pub proof fn lemma_weekday_index(day: Weekday)
    ensures
        0 <= day.index() < 7,
        Weekday::from_index(day.index()) == day,
{
}

/// The day that lies `i` days after Monday has the index `i % 7`.
pub proof fn lemma_from_index(i: int)
    ensures
        Weekday::from_index(i).index() == i % 7,
{
}

/// Going forward `a` days and then `b` days is going forward `a + b` days.
pub proof fn lemma_plus_plus(day: Weekday, a: int, b: int)
    ensures
        day.plus(a).plus(b) == day.plus(a + b),
{
    lemma_from_index(day.index() + a);
    let x = day.index() + a;
    assert((x % 7 + b) % 7 == (x + b) % 7) by {
        lemma_mod_shift(x, b);
    }
}

/// Adding to a number or to its remainder gives the same remainder.
proof fn lemma_mod_shift(x: int, b: int)
    ensures
        (x % 7 + b) % 7 == (x + b) % 7,
{
}

/// Two days of the week that lie `a` and `b` days after Monday are the same
/// day exactly if `a` and `b` leave the same remainder.
pub proof fn lemma_from_index_eq(a: int, b: int)
    ensures
        (Weekday::from_index(a) == Weekday::from_index(b)) <==> a % 7 == b % 7,
{
    lemma_from_index(a);
    lemma_from_index(b);
}

/// The length in days of month `month` of year `year`, as `chrono` gives it
/// for the first day of that month; `None` where `chrono` has no such month.
pub uninterp spec fn month_length(year: int, month: int) -> Option<int>;

/// The day of the week of the first day of month `month` of year `year`, as
/// `chrono` gives it; `None` where `chrono` has no such month.
pub uninterp spec fn month_start(year: int, month: int) -> Option<Weekday>;

/// The English name of month `month`, January being 1.
pub open spec fn month_text(month: int) -> Seq<char> {
    if month == 1 {
        "January"@
    } else if month == 2 {
        "February"@
    } else if month == 3 {
        "March"@
    } else if month == 4 {
        "April"@
    } else if month == 5 {
        "May"@
    } else if month == 6 {
        "June"@
    } else if month == 7 {
        "July"@
    } else if month == 8 {
        "August"@
    } else if month == 9 {
        "September"@
    } else if month == 10 {
        "October"@
    } else if month == 11 {
        "November"@
    } else {
        "December"@
    }
}

/// The three-letter English name of a day of the week.
pub open spec fn weekday_text(day: Weekday) -> Seq<char> {
    match day {
        Weekday::Mon => "Mon"@,
        Weekday::Tue => "Tue"@,
        Weekday::Wed => "Wed"@,
        Weekday::Thu => "Thu"@,
        Weekday::Fri => "Fri"@,
        Weekday::Sat => "Sat"@,
        Weekday::Sun => "Sun"@,
    }
}

/// Trusted: builds the first day of the month with
/// `chrono::NaiveDate::from_ymd_opt` and asks
/// `chrono::Datelike::num_days_in_month` for the month's length. The result
/// is `None` exactly where `chrono` has no such date, which includes every
/// month outside 1..=12; a length is between 28 and 31.
#[verifier::external_body]
pub(crate) fn days_in_month(year: i32, month: u32) -> (r: Option<u32>)
    ensures
        r is Some <==> month_length(year as int, month as int) is Some,
        r matches Some(n) ==> month_length(year as int, month as int) == Some(n as int) && 28 <= n
            <= 31 && 1 <= month <= 12,
{
    match NaiveDate::from_ymd_opt(year, month, 1) {
        Some(first) => Some(first.num_days_in_month() as u32),
        None => None,
    }
}

/// Trusted: builds the first day of the month with
/// `chrono::NaiveDate::from_ymd_opt` and asks `chrono::Datelike::weekday` for
/// its day of the week. The result is `None` exactly where `chrono` has no
/// such date, that is where the month has no length either.
#[verifier::external_body]
pub(crate) fn first_weekday(year: i32, month: u32) -> (r: Option<Weekday>)
    ensures
        r == month_start(year as int, month as int),
        r is Some <==> month_length(year as int, month as int) is Some,
{
    match NaiveDate::from_ymd_opt(year, month, 1) {
        Some(first) => Some(
            match first.weekday() {
                chrono::Weekday::Mon => Weekday::Mon,
                chrono::Weekday::Tue => Weekday::Tue,
                chrono::Weekday::Wed => Weekday::Wed,
                chrono::Weekday::Thu => Weekday::Thu,
                chrono::Weekday::Fri => Weekday::Fri,
                chrono::Weekday::Sat => Weekday::Sat,
                chrono::Weekday::Sun => Weekday::Sun,
            },
        ),
        None => None,
    }
}

/// Trusted: the name that `chrono::Month::name` gives to the month that
/// `num_traits::FromPrimitive::from_u32` makes of `month`: the English name
/// for 1..=12, and no month for any other number.
#[verifier::external_body]
pub(crate) fn month_name(month: u32) -> (r: Option<String>)
    ensures
        r is Some <==> 1 <= month <= 12,
        r matches Some(name) ==> name@ == month_text(month as int),
{
    match chrono::Month::from_u32(month) {
        Some(m) => Some(m.name().to_string()),
        None => None,
    }
}

/// Trusted: what `chrono::Weekday` displays as, which is the three-letter
/// English name of the day.
#[verifier::external_body]
pub(crate) fn weekday_name(day: Weekday) -> (r: String)
    ensures
        r@ == weekday_text(day),
{
    let outside = match day {
        Weekday::Mon => chrono::Weekday::Mon,
        Weekday::Tue => chrono::Weekday::Tue,
        Weekday::Wed => chrono::Weekday::Wed,
        Weekday::Thu => chrono::Weekday::Thu,
        Weekday::Fri => chrono::Weekday::Fri,
        Weekday::Sat => chrono::Weekday::Sat,
        Weekday::Sun => chrono::Weekday::Sun,
    };
    outside.to_string()
}

/// A calendar day as three numbers: what a [`Date`] stands for.
pub struct Day {
    pub year: int,
    pub month: int,
    pub day: int,
}

/// Whether month `month` of year `year` has a day `day`.
pub open spec fn date_exists(year: int, month: int, day: int) -> bool {
    month_length(year, month) matches Some(n) && 1 <= day <= n
}

/// A date of the calendar: a year (zero and negative years lie before the
/// common era), a month and a day of that month.
#[derive(Clone, Copy, PartialEq, Eq, Debug, Structural)]
pub struct Date {
    year: i32,
    month: u32,
    day: u32,
}

impl View for Date {
    type V = Day;

    closed spec fn view(&self) -> Day {
        Day { year: self.year as int, month: self.month as int, day: self.day as int }
    }
}

impl Date {
    /// The date is a day that its month has. Every date that
    /// `from_ymd_opt` makes is one.
    pub open spec fn valid(&self) -> bool {
        date_exists(self@.year, self@.month, self@.day)
    }

    /// The date of the given year, month and day, or `None` where the
    /// calendar has no such day.
    pub fn from_ymd_opt(year: i32, month: u32, day: u32) -> (r: Option<Date>)
        ensures
            r is Some <==> date_exists(year as int, month as int, day as int),
            r matches Some(date) ==> date.valid() && date@ == (Day {
                year: year as int,
                month: month as int,
                day: day as int,
            }),
    {
        match days_in_month(year, month) {
            Some(n) => {
                if 1 <= day && day <= n {
                    Some(Date { year, month, day })
                } else {
                    None
                }
            },
            None => None,
        }
    }

    /// The year.
    pub fn year(&self) -> (r: i32)
        ensures
            r == self@.year,
    {
        self.year
    }

    /// The month, January being 1.
    pub fn month(&self) -> (r: u32)
        ensures
            r == self@.month,
    {
        self.month
    }

    /// The day of the month, starting from 1.
    pub fn day(&self) -> (r: u32)
        ensures
            r == self@.day,
    {
        self.day
    }
}

} // verus!
