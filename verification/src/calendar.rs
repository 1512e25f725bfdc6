//! Calendar dates, the days between them and the start of a week.

use vstd::prelude::*;
use crate::error::TaskError;
use crate::text::{
    chars_of, digit_of, four_digits, is_digit, push_two_digits, short_number, two_digits,
    year_number,
};

verus! {

/// Whether the year `y` has a 29th of February.
pub open spec fn is_leap_year(y: int) -> bool {
    y % 4 == 0 && (y % 100 != 0 || y % 400 == 0)
}

/// The number of days of the year `y`.
pub open spec fn year_length(y: int) -> int {
    if is_leap_year(y) {
        366
    } else {
        365
    }
}

/// The number of days of the month `m` of the year `y`.
pub open spec fn days_in_month(y: int, m: int) -> int {
    if m == 2 {
        if is_leap_year(y) {
            29
        } else {
            28
        }
    } else if m == 4 || m == 6 || m == 9 || m == 11 {
        30
    } else {
        31
    }
}

/// Whether `y`, `m`, `d` name a day of the calendar, in the years 1 to 9999.
pub open spec fn valid_ymd(y: int, m: int, d: int) -> bool {
    1 <= y <= 9999 && 1 <= m <= 12 && 1 <= d <= days_in_month(y, m)
}

/// The number of days in the years 1 to `y - 1`.
pub open spec fn days_before_year(y: int) -> int
    decreases y,
{
    if y <= 1 {
        0
    } else {
        days_before_year(y - 1) + year_length(y - 1)
    }
}

/// The number of days in the months 1 to `m - 1` of the year `y`.
pub open spec fn days_before_month(y: int, m: int) -> int
    decreases m,
{
    if m <= 1 {
        0
    } else {
        days_before_month(y, m - 1) + days_in_month(y, m - 1)
    }
}

/// The place of a day in the run of all days: the first of January of the year 1 is day 1.
pub open spec fn day_number_of(y: int, m: int, d: int) -> int {
    days_before_year(y) + days_before_month(y, m) + d
}

/// The day of the week of the day numbered `n`: 0 for Monday, up to 6 for Sunday.
pub open spec fn weekday_of(n: int) -> int {
    (n - 1) % 7
}

/// The days before a year, counted without walking through the years.
pub proof fn lemma_days_before_year(y: int)
    requires
        1 <= y,
    ensures
        days_before_year(y) == 365 * (y - 1) + (y - 1) / 4 - (y - 1) / 100 + (y - 1) / 400,
    decreases y,
{
    if y > 1 {
        lemma_days_before_year(y - 1);
    }
}

/// The days before each month of a year.
pub proof fn lemma_days_before_month(y: int, m: int)
    requires
        1 <= m <= 12,
    ensures
        days_before_month(y, m) == if m == 1 {
            0
        } else if m == 2 {
            31
        } else {
            let leap: int = if is_leap_year(y) {
                1
            } else {
                0
            };
            leap + if m == 3 {
                59int
            } else if m == 4 {
                90
            } else if m == 5 {
                120
            } else if m == 6 {
                151
            } else if m == 7 {
                181
            } else if m == 8 {
                212
            } else if m == 9 {
                243
            } else if m == 10 {
                273
            } else if m == 11 {
                304
            } else {
                334
            }
        },
{
    reveal_with_fuel(days_before_month, 13);
}

/// Every day of the calendar has a number from 1 to 3652059.
pub proof fn lemma_day_number_bounds(y: int, m: int, d: int)
    requires
        valid_ymd(y, m, d),
    ensures
        1 <= day_number_of(y, m, d) <= 3652059,
{
    lemma_days_before_year(y);
    lemma_days_before_month(y, m);
}

/// The year, month and day that the text `s` names: four digits for the year, a hyphen, one or
/// two digits for the month, a hyphen, one or two digits for the day, the three of them a day of
/// the calendar. `None` for any other text.
pub open spec fn date_value(s: Seq<char>) -> Option<(int, int, int)> {
    if s.len() < 8 || s[4] != '-' {
        None
    } else {
        let k: int = if s[6] == '-' {
            6
        } else {
            7
        };
        if s[k] != '-' {
            None
        } else {
            match (
                year_number(s.subrange(0, 4)),
                short_number(s.subrange(5, k)),
                short_number(s.subrange(k + 1, s.len() as int)),
            ) {
                (Some(y), Some(m), Some(d)) => if valid_ymd(y, m, d) {
                    Some((y, m, d))
                } else {
                    None
                },
                _ => None,
            }
        }
    }
}

/// The text of a date in its canonical form, `YYYY-MM-DD`.
pub open spec fn date_text(y: int, m: int, d: int) -> Seq<char> {
    four_digits(y) + seq!['-'] + two_digits(m) + seq!['-'] + two_digits(d)
}

/// The number of whole days between the dates that `a` and `b` name, never negative; -1 where
/// either text is empty; `InvalidDateFormat` where neither is empty and one names no date.
pub open spec fn days_between_spec(a: Seq<char>, b: Seq<char>) -> Result<int, TaskError> {
    if a.len() == 0 || b.len() == 0 {
        Ok(-1)
    } else {
        match (date_value(a), date_value(b)) {
            (Some(x), Some(y)) => {
                let p = day_number_of(x.0, x.1, x.2);
                let q = day_number_of(y.0, y.1, y.2);
                Ok(
                    if p < q {
                        q - p
                    } else {
                        p - q
                    },
                )
            },
            _ => Err(TaskError::InvalidDateFormat),
        }
    }
}

/// Whether the year has a 29th of February.
pub fn leap_year(year: u16) -> (r: bool)
    ensures
        r == is_leap_year(year as int),
{
    year % 4 == 0 && (year % 100 != 0 || year % 400 == 0)
}

/// The number of days of a month.
pub fn month_length(year: u16, month: u8) -> (r: u8)
    ensures
        r == days_in_month(year as int, month as int),
        28 <= r <= 31,
{
    if month == 2 {
        if leap_year(year) {
            29
        } else {
            28
        }
    } else if month == 4 || month == 6 || month == 9 || month == 11 {
        30
    } else {
        31
    }
}

/// The number spelt by the first four characters, where they are digits.
fn read_year(chars: &Vec<char>) -> (r: Option<u16>)
    requires
        chars.len() >= 4,
    ensures
        match r {
            Some(y) => year_number(chars@.subrange(0, 4)) == Some(y as int),
            None => year_number(chars@.subrange(0, 4)) is None,
        },
{
    match (digit_of(chars[0]), digit_of(chars[1]), digit_of(chars[2]), digit_of(chars[3])) {
        (Some(a), Some(b), Some(c), Some(d)) => Some(
            a as u16 * 1000 + b as u16 * 100 + c as u16 * 10 + d as u16,
        ),
        _ => None,
    }
}

/// The number spelt by the characters from `from` up to `to`, where they are one or two digits.
fn read_short(chars: &Vec<char>, from: usize, to: usize) -> (r: Option<u8>)
    requires
        from <= to <= chars.len(),
    ensures
        match r {
            Some(n) => short_number(chars@.subrange(from as int, to as int)) == Some(n as int),
            None => short_number(chars@.subrange(from as int, to as int)) is None,
        },
{
    if to - from == 1 {
        digit_of(chars[from])
    } else if to - from == 2 {
        match (digit_of(chars[from]), digit_of(chars[from + 1])) {
            (Some(a), Some(b)) => Some(a * 10 + b),
            _ => None,
        }
    } else {
        None
    }
}

/// A day of the calendar, in the years 1 to 9999.
#[derive(Clone, Copy, Debug, PartialEq, Eq, Structural)]
pub struct Date {
    year: u16,
    month: u8,
    day: u8,
}

impl Date {
    /// The year of the date.
    pub closed spec fn year_of(self) -> int {
        self.year as int
    }

    /// The month of the date, 1 for January.
    pub closed spec fn month_of(self) -> int {
        self.month as int
    }

    /// The day of the month.
    pub closed spec fn day_of(self) -> int {
        self.day as int
    }

    /// Every date is a day of the calendar.
    #[verifier::type_invariant]
    pub open spec fn wf(self) -> bool {
        valid_ymd(self.year_of(), self.month_of(), self.day_of())
    }

    /// The place of the date in the run of all days.
    pub open spec fn number(self) -> int {
        day_number_of(self.year_of(), self.month_of(), self.day_of())
    }

    /// The date of the given year, month and day, where they name a day of the calendar.
    pub fn new(year: u16, month: u8, day: u8) -> (r: Result<Date, TaskError>)
        ensures
            match r {
                Ok(date) => {
                    &&& valid_ymd(year as int, month as int, day as int)
                    &&& date.wf()
                    &&& date.year_of() == year
                    &&& date.month_of() == month
                    &&& date.day_of() == day
                },
                Err(e) => e == TaskError::InvalidDateFormat && !valid_ymd(
                    year as int,
                    month as int,
                    day as int,
                ),
            },
    {
        if 1 <= year && year <= 9999 && 1 <= month && month <= 12 && 1 <= day && day
            <= month_length(year, month) {
            Ok(Date { year, month, day })
        } else {
            Err(TaskError::InvalidDateFormat)
        }
    }

    /// The year.
    pub fn year(&self) -> (y: u16)
        ensures
            y == self.year_of(),
    {
        self.year
    }

    /// The month, 1 for January.
    pub fn month(&self) -> (m: u8)
        ensures
            m == self.month_of(),
    {
        self.month
    }

    /// The day of the month.
    pub fn day(&self) -> (d: u8)
        ensures
            d == self.day_of(),
    {
        self.day
    }

    /// Reads a date from its text.
    pub fn parse(s: &str) -> (r: Result<Date, TaskError>)
        ensures
            match r {
                Ok(date) => date.wf() && date_value(s@) == Some(
                    (date.year_of(), date.month_of(), date.day_of()),
                ),
                Err(e) => e == TaskError::InvalidDateFormat && date_value(s@) is None,
            },
    {
        let chars = chars_of(s);
        let n = chars.len();
        if n < 8 || chars[4] != '-' {
            return Err(TaskError::InvalidDateFormat);
        }
        let k: usize = if chars[6] == '-' {
            6
        } else {
            7
        };
        if chars[k] != '-' {
            return Err(TaskError::InvalidDateFormat);
        }
        match (read_year(&chars), read_short(&chars, 5, k), read_short(&chars, k + 1, n)) {
            (Some(year), Some(month), Some(day)) => Date::new(year, month, day),
            _ => Err(TaskError::InvalidDateFormat),
        }
    }

    /// The text of the date in its canonical form, `YYYY-MM-DD`.
    pub fn to_text(&self) -> (s: String)
        ensures
            s@ == date_text(self.year_of(), self.month_of(), self.day_of()),
    {
        proof {
            use_type_invariant(self);
        }
        let mut s = String::new();
        push_two_digits(&mut s, (self.year / 100) as u8);
        push_two_digits(&mut s, (self.year % 100) as u8);
        s.push('-');
        push_two_digits(&mut s, self.month);
        s.push('-');
        push_two_digits(&mut s, self.day);
        s
    }

    /// The place of the date in the run of all days.
    pub fn day_number(&self) -> (n: u32)
        ensures
            n == self.number(),
            1 <= n <= 3652059,
    {
        proof {
            use_type_invariant(self);
            lemma_days_before_year(self.year as int);
            lemma_days_before_month(self.year as int, self.month as int);
            lemma_day_number_bounds(self.year as int, self.month as int, self.day as int);
        }
        let y: u32 = (self.year - 1) as u32;
        let leap: u32 = if leap_year(self.year) {
            1
        } else {
            0
        };
        let before_month: u32 = if self.month == 1 {
            0
        } else if self.month == 2 {
            31
        } else if self.month == 3 {
            59 + leap
        } else if self.month == 4 {
            90 + leap
        } else if self.month == 5 {
            120 + leap
        } else if self.month == 6 {
            151 + leap
        } else if self.month == 7 {
            181 + leap
        } else if self.month == 8 {
            212 + leap
        } else if self.month == 9 {
            243 + leap
        } else if self.month == 10 {
            273 + leap
        } else if self.month == 11 {
            304 + leap
        } else {
            334 + leap
        };
        365 * y + y / 4 - y / 100 + y / 400 + before_month + self.day as u32
    }

    /// The day of the week: 0 for Monday, up to 6 for Sunday.
    pub fn weekday(&self) -> (w: u8)
        ensures
            w == weekday_of(self.number()),
            w < 7,
    {
        ((self.day_number() - 1) % 7) as u8
    }

    /// The day before this one; `None` for the first day of the year 1.
    pub fn previous_day(&self) -> (r: Option<Date>)
        ensures
            match r {
                Some(date) => date.wf() && date.number() == self.number() - 1,
                None => self.number() == 1,
            },
    {
        proof {
            use_type_invariant(self);
            lemma_days_before_month(self.year as int, 12);
            lemma_days_before_month(self.year as int - 1, 12);
            reveal_with_fuel(days_before_year, 2);
        }
        if self.day > 1 {
            Some(Date { year: self.year, month: self.month, day: self.day - 1 })
        } else if self.month > 1 {
            Some(
                Date {
                    year: self.year,
                    month: self.month - 1,
                    day: month_length(self.year, self.month - 1),
                },
            )
        } else if self.year > 1 {
            Some(Date { year: self.year - 1, month: 12, day: 31 })
        } else {
            None
        }
    }

    /// The Monday of the week that holds this date: the latest Monday that is not after it.
    pub fn monday_of_week(&self) -> (r: Date)
        ensures
            r.wf(),
            weekday_of(r.number()) == 0,
            r.number() == self.number() - weekday_of(self.number()),
    {
        let mut date = *self;
        let mut back = self.weekday();
        proof {
            use_type_invariant(self);
            lemma_day_number_bounds(self.year as int, self.month as int, self.day as int);
        }
        while back > 0
            invariant
                date.wf(),
                back < 7,
                1 <= self.number(),
                date.number() == self.number() - weekday_of(self.number()) + back,
            decreases back,
        {
            match date.previous_day() {
                Some(earlier) => {
                    date = earlier;
                },
                None => {
                    proof {
                        assert(false);
                    }
                },
            }
            back = back - 1;
        }
        date
    }
}

/// The number of whole days between two dates given by their texts.
pub fn days_between(a: &str, b: &str) -> (r: Result<i32, TaskError>)
    ensures
        match r {
            Ok(n) => days_between_spec(a@, b@) == Ok::<int, TaskError>(n as int),
            Err(e) => days_between_spec(a@, b@) == Err::<int, TaskError>(e),
        },
{
    if a.is_empty() || b.is_empty() {
        return Ok(-1);
    }
    let first = match Date::parse(a) {
        Ok(date) => date,
        Err(e) => {
            return Err(e);
        },
    };
    let second = match Date::parse(b) {
        Ok(date) => date,
        Err(e) => {
            return Err(e);
        },
    };
    let p = first.day_number();
    let q = second.day_number();
    if p < q {
        Ok((q - p) as i32)
    } else {
        Ok((p - q) as i32)
    }
}

/// The days between two dates do not depend on the order in which the dates are given.
pub proof fn lemma_days_between_symmetric(a: Seq<char>, b: Seq<char>)
    ensures
        days_between_spec(a, b) == days_between_spec(b, a),
{
}

/// The days between two dates are -1 where either text is empty, and never negative otherwise.
pub proof fn lemma_days_between_sign(a: Seq<char>, b: Seq<char>)
    ensures
        a.len() == 0 || b.len() == 0 ==> days_between_spec(a, b) == Ok::<int, TaskError>(-1),
        a.len() > 0 && b.len() > 0 && days_between_spec(a, b) is Ok ==> days_between_spec(a, b)->Ok_0
            >= 0,
{
}

/// Reading the canonical text of a date gives that date back.
pub proof fn lemma_date_round_trip(y: int, m: int, d: int)
    requires
        valid_ymd(y, m, d),
    ensures
        date_value(date_text(y, m, d)) == Some((y, m, d)),
{
    let s = date_text(y, m, d);
    assert(s.len() == 10);
    assert(s.subrange(0, 4) =~= four_digits(y));
    assert(s.subrange(5, 7) =~= two_digits(m));
    assert(s.subrange(8, 10) =~= two_digits(d));
    assert(s[4] == '-' && s[7] == '-');
    assert(is_digit(s[6]));
    assert(year_number(four_digits(y)) == Some(y));
    assert(short_number(two_digits(m)) == Some(m));
    assert(short_number(two_digits(d)) == Some(d));
}

} // verus!
