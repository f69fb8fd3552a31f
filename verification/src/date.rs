//! The date of a shared result: whether a line carries one, and whether it
//! is a given day.

use vstd::prelude::*;
use chrono::Datelike;
use crate::errors::AkariParserError;
use crate::line::{date_at, find_date, has_date, is_date, lemma_date_unique};
use crate::text::{decimal_value, lemma_decimal_value_bound, read_decimal, ten_to, to_chars};

verus! {

/// A calendar date, by which a shared result is held against a given day.
#[derive(Clone, Copy, Debug, PartialEq, Eq, Structural)]
pub struct ReferenceDate {
    pub year: i32,
    pub month: u32,
    pub day: u32,
}

/// The months of the year.
#[derive(Clone, Copy, Debug, PartialEq, Eq, Structural)]
pub enum Month {
    January,
    February,
    March,
    April,
    May,
    June,
    July,
    August,
    September,
    October,
    November,
    December,
}

impl Month {
    /// The number of the month, from 1 for January to 12 for December.
    pub open spec fn number(self) -> nat {
        match self {
            Month::January => 1,
            Month::February => 2,
            Month::March => 3,
            Month::April => 4,
            Month::May => 5,
            Month::June => 6,
            Month::July => 7,
            Month::August => 8,
            Month::September => 9,
            Month::October => 10,
            Month::November => 11,
            Month::December => 12,
        }
    }

    /// The number of the month, from 1 for January to 12 for December.
    pub fn number_from_month(&self) -> (n: u32)
        ensures
            n == self.number(),
    {
        match self {
            Month::January => 1,
            Month::February => 2,
            Month::March => 3,
            Month::April => 4,
            Month::May => 5,
            Month::June => 6,
            Month::July => 7,
            Month::August => 8,
            Month::September => 9,
            Month::October => 10,
            Month::November => 11,
            Month::December => 12,
        }
    }
}

/// The month that a three-letter English abbreviation names, capitalised.
pub open spec fn month_of(name: Seq<char>) -> Option<Month> {
    if name == seq!['J', 'a', 'n'] {
        Some(Month::January)
    } else if name == seq!['F', 'e', 'b'] {
        Some(Month::February)
    } else if name == seq!['M', 'a', 'r'] {
        Some(Month::March)
    } else if name == seq!['A', 'p', 'r'] {
        Some(Month::April)
    } else if name == seq!['M', 'a', 'y'] {
        Some(Month::May)
    } else if name == seq!['J', 'u', 'n'] {
        Some(Month::June)
    } else if name == seq!['J', 'u', 'l'] {
        Some(Month::July)
    } else if name == seq!['A', 'u', 'g'] {
        Some(Month::August)
    } else if name == seq!['S', 'e', 'p'] {
        Some(Month::September)
    } else if name == seq!['O', 'c', 't'] {
        Some(Month::October)
    } else if name == seq!['N', 'o', 'v'] {
        Some(Month::November)
    } else if name == seq!['D', 'e', 'c'] {
        Some(Month::December)
    } else {
        None
    }
}

/// Whether `v` holds the three characters `a`, `b`, `c` at `at`.
fn three_at(v: &Vec<char>, at: usize, a: char, b: char, c: char) -> (r: bool)
    requires
        at + 3 <= v.len(),
    ensures
        r == (v@.subrange(at as int, at + 3) == seq![a, b, c]),
{
    let r = v[at] == a && v[at + 1] == b && v[at + 2] == c;
    proof {
        let part = v@.subrange(at as int, at + 3);
        assert(part[0] == v@[at as int] && part[1] == v@[at + 1] && part[2] == v@[at + 2]);
        if r {
            assert(part =~= seq![a, b, c]);
        } else {
            assert(seq![a, b, c][0] == a && seq![a, b, c][1] == b && seq![a, b, c][2] == c);
        }
    }
    r
}

/// The month that the three characters at `at` of `v` name.
fn month_at(v: &Vec<char>, at: usize) -> (r: Option<Month>)
    requires
        at + 3 <= v.len(),
    ensures
        r == month_of(v@.subrange(at as int, at + 3)),
{
    if three_at(v, at, 'J', 'a', 'n') {
        Some(Month::January)
    } else if three_at(v, at, 'F', 'e', 'b') {
        Some(Month::February)
    } else if three_at(v, at, 'M', 'a', 'r') {
        Some(Month::March)
    } else if three_at(v, at, 'A', 'p', 'r') {
        Some(Month::April)
    } else if three_at(v, at, 'M', 'a', 'y') {
        Some(Month::May)
    } else if three_at(v, at, 'J', 'u', 'n') {
        Some(Month::June)
    } else if three_at(v, at, 'J', 'u', 'l') {
        Some(Month::July)
    } else if three_at(v, at, 'A', 'u', 'g') {
        Some(Month::August)
    } else if three_at(v, at, 'S', 'e', 'p') {
        Some(Month::September)
    } else if three_at(v, at, 'O', 'c', 't') {
        Some(Month::October)
    } else if three_at(v, at, 'N', 'o', 'v') {
        Some(Month::November)
    } else if three_at(v, at, 'D', 'e', 'c') {
        Some(Month::December)
    } else {
        None
    }
}

/// The month that a three-letter English abbreviation names.
///
/// The abbreviation is capitalised: `Jan`, `Feb`, and so on to `Dec`. Any
/// other text is refused.
pub fn month_str_to_number(month_str: &str) -> (r: Result<Month, AkariParserError>)
    ensures
        r == match month_of(month_str@) {
            Some(month) => Ok::<Month, AkariParserError>(month),
            None => Err(AkariParserError::InvalidDateFormat),
        },
{
    let v = to_chars(month_str);
    if v.len() != 3 {
        proof {
            assert(month_of(v@) is Some ==> v@.len() == 3);
        }
        return Err(AkariParserError::InvalidDateFormat);
    }
    proof {
        assert(v@.subrange(0, 3) =~= v@);
    }
    match month_at(&v, 0) {
        Some(month) => Ok(month),
        None => Err(AkariParserError::InvalidDateFormat),
    }
}

/// Whether `year` is a leap year of the Gregorian calendar.
pub open spec fn is_leap_year(year: int) -> bool {
    year % 4 == 0 && (year % 100 != 0 || year % 400 == 0)
}

/// The number of days of a month of a year.
pub open spec fn days_in_month(year: int, month: int) -> int {
    if month == 2 {
        if is_leap_year(year) {
            29
        } else {
            28
        }
    } else if month == 4 || month == 6 || month == 9 || month == 11 {
        30
    } else {
        31
    }
}

/// Whether the calendar has the day `day` of the month `month` of the year
/// `year`, within the years that a date can hold.
pub open spec fn is_calendar_date(year: int, month: int, day: int) -> bool {
    &&& -262143 <= year <= 262142
    &&& 1 <= month <= 12
    &&& 1 <= day <= days_in_month(year, month)
}

/// Calls `chrono::NaiveDate::from_ymd_opt` and reads the year, month and day
/// of the date it made. Not proved: that `from_ymd_opt` makes a date for the
/// days that the proleptic Gregorian calendar has in the years from -262143
/// to 262142 and for no others, and that the date made holds the year, month
/// and day it was made from.
#[verifier::external_body]
fn calendar_date(year: i32, month: u32, day: u32) -> (r: Option<ReferenceDate>)
    ensures
        r == if is_calendar_date(year as int, month as int, day as int) {
            Some(ReferenceDate { year, month, day })
        } else {
            None
        },
{
    match chrono::NaiveDate::from_ymd_opt(year, month, day) {
        Some(date) => Some(ReferenceDate { year: date.year(), month: date.month(), day: date.day() }),
        None => None,
    }
}

impl ReferenceDate {
    /// The calendar has this date.
    pub open spec fn wf(self) -> bool {
        is_calendar_date(self.year as int, self.month as int, self.day as int)
    }

    /// The date of the given year, month and day, where the calendar has it.
    pub fn from_ymd_opt(year: i32, month: u32, day: u32) -> (r: Option<ReferenceDate>)
        ensures
            r == if is_calendar_date(year as int, month as int, day as int) {
                Some(ReferenceDate { year, month, day })
            } else {
                None
            },
    {
        calendar_date(year, month, day)
    }
}

/// The year, month and day that the line `s` carries: none where it does not
/// end with a date, where its month is no known abbreviation, or where the
/// calendar has no such day.
pub open spec fn line_date(s: Seq<char>) -> Option<(int, int, int)> {
    if is_date(s) {
        let (month, day, comma, year) = choose|month: int, day: int, comma: int, year: int|
            date_at(s, month, day, comma, year);
        let y = decimal_value(s.subrange(year, year + 4)) as int;
        let d = decimal_value(s.subrange(day, comma)) as int;
        match month_of(s.subrange(month, month + 3)) {
            Some(m) => if is_calendar_date(y, m.number() as int, d) {
                Some((y, m.number() as int, d))
            } else {
                None
            },
            None => None,
        }
    } else {
        None
    }
}

/// Whether the line ends with a date: a three-letter word, a day of one or
/// two digits, a comma and a year of four digits, with spaces between them.
/// Anything may stand before it, and a pair of checkmarks may wrap the line.
pub fn is_date_line(line: &str) -> (r: bool)
    ensures
        r == is_date(line@),
{
    let v = to_chars(line);
    has_date(&v)
}

/// What holding the line `s` against the day `today` gives.
pub open spec fn date_check(s: Seq<char>, today: ReferenceDate) -> Result<bool, AkariParserError> {
    match line_date(s) {
        Some(date) => Ok(date == (today.year as int, today.month as int, today.day as int)),
        None => Err(AkariParserError::InvalidDateFormat),
    }
}

/// Whether the date that the line carries is the day `today`.
///
/// The line is refused where it does not end with a date, where the month
/// is none of the twelve abbreviations from `Jan` to `Dec`, and where the
/// calendar has no such day.
pub fn check_date_is_today(line: &str, today: ReferenceDate) -> (r: Result<
    bool,
    AkariParserError,
>)
    ensures
        r == date_check(line@, today),
{
    let v = to_chars(line);
    let (month, day, comma, year) = match find_date(&v) {
        Some(found) => found,
        None => {
            return Err(AkariParserError::InvalidDateFormat);
        },
    };
    proof {
        let (m, d, c, y) = choose|m: int, d: int, c: int, y: int| date_at(v@, m, d, c, y);
        lemma_date_unique(v@, month as int, day as int, comma as int, year as int, m, d, c, y);
        lemma_decimal_value_bound(v@.subrange(year as int, year + 4));
        lemma_decimal_value_bound(v@.subrange(day as int, comma as int));
        assert(ten_to(4) == 10000 && ten_to(2) == 100 && ten_to(1) == 10) by {
            reveal_with_fuel(ten_to, 5);
        }
    }
    let m = match month_at(&v, month) {
        Some(m) => m,
        None => {
            return Err(AkariParserError::InvalidDateFormat);
        },
    };
    let y = match read_decimal(&v, year, year + 4) {
        Some(y) => y,
        None => {
            return Err(AkariParserError::InvalidDateFormat);
        },
    };
    let d = match read_decimal(&v, day, comma) {
        Some(d) => d,
        None => {
            return Err(AkariParserError::InvalidDateFormat);
        },
    };
    match calendar_date(y as i32, m.number_from_month(), d as u32) {
        Some(date) => Ok(date == today),
        None => Err(AkariParserError::InvalidDateFormat),
    }
}

/// The check says yes only where the year, the month and the day of the line
/// are those of the given day.
pub proof fn lemma_today_is_exact(s: Seq<char>, today: ReferenceDate)
    ensures
        date_check(s, today) == Ok::<bool, AkariParserError>(true) <==> line_date(s) == Some(
            (today.year as int, today.month as int, today.day as int),
        ),
        date_check(s, today) == Ok::<bool, AkariParserError>(true) ==> today.wf(),
{
}

/// A line is the day of one date only: two days for which the check says yes
/// are the same day.
pub proof fn lemma_one_day_per_line(s: Seq<char>, a: ReferenceDate, b: ReferenceDate)
    requires
        date_check(s, a) == Ok::<bool, AkariParserError>(true),
        date_check(s, b) == Ok::<bool, AkariParserError>(true),
    ensures
        a == b,
{
}

/// A line whose date the calendar does not have is refused, whatever the day
/// it is held against.
pub proof fn lemma_no_such_day_refused(
    s: Seq<char>,
    month: int,
    day: int,
    comma: int,
    year: int,
    today: ReferenceDate,
)
    requires
        date_at(s, month, day, comma, year),
        decimal_value(s.subrange(day, comma)) == 0 || decimal_value(s.subrange(day, comma)) > 31,
    ensures
        date_check(s, today) == Err::<bool, AkariParserError>(AkariParserError::InvalidDateFormat),
{
    let (m, d, c, y) = choose|m: int, d: int, c: int, y: int| date_at(s, m, d, c, y);
    lemma_date_unique(s, month, day, comma, year, m, d, c, y);
}

} // verus!
