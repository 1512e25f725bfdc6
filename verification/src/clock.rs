//! Times of day and the duration between two of them.

use vstd::prelude::*;
use crate::error::TaskError;
use crate::text::{
    chars_of, digit_of, digit_value, is_digit, lemma_two_digits_of_pair, push_two_digits,
    two_digits,
};

verus! {

/// The minute of the day that the text `s` names: `s` is four decimal digits, the first two an
/// hour from 00 to 23 and the last two a minute from 00 to 59. `None` for any other text.
pub open spec fn hhmm_value(s: Seq<char>) -> Option<int> {
    if s.len() == 4 && is_digit(s[0]) && is_digit(s[1]) && is_digit(s[2]) && is_digit(s[3]) {
        let hour = digit_value(s[0]) * 10 + digit_value(s[1]);
        let minute = digit_value(s[2]) * 10 + digit_value(s[3]);
        if hour < 24 && minute < 60 {
            Some(hour * 60 + minute)
        } else {
            None
        }
    } else {
        None
    }
}

/// The four digits that name the minute `m` of the day: two for the hour, two for the minute.
pub open spec fn hhmm_text(m: int) -> Seq<char> {
    two_digits(m / 60) + two_digits(m % 60)
}

/// The distance of `n` from zero.
pub open spec fn magnitude(n: int) -> int {
    if n < 0 {
        -n
    } else {
        n
    }
}

/// A time of day, to the minute, without a date.
#[derive(Clone, Copy, Debug, PartialEq, Eq, Structural)]
pub struct ClockTime {
    minutes: u16,
}

impl ClockTime {
    /// The minutes that have passed since midnight.
    pub closed spec fn minute_of_day(self) -> int {
        self.minutes as int
    }

    /// Every time of day lies within one day.
    #[verifier::type_invariant]
    pub open spec fn wf(self) -> bool {
        0 <= self.minute_of_day() < 1440
    }

    /// The time `hour:minute`, where that is a time of day.
    pub fn new(hour: u8, minute: u8) -> (r: Result<ClockTime, TaskError>)
        ensures
            match r {
                Ok(t) => hour < 24 && minute < 60 && t.wf() && t.minute_of_day() == hour * 60
                    + minute,
                Err(e) => e == TaskError::InvalidTimeFormat && !(hour < 24 && minute < 60),
            },
    {
        if hour < 24 && minute < 60 {
            Ok(ClockTime { minutes: hour as u16 * 60 + minute as u16 })
        } else {
            Err(TaskError::InvalidTimeFormat)
        }
    }

    /// The time `hour:minute`.
    pub(crate) fn at(hour: u8, minute: u8) -> (t: ClockTime)
        requires
            hour < 24,
            minute < 60,
        ensures
            t.wf(),
            t.minute_of_day() == hour * 60 + minute,
    {
        ClockTime { minutes: hour as u16 * 60 + minute as u16 }
    }

    /// Reads a time of day from its four digits.
    pub fn parse(s: &str) -> (r: Result<ClockTime, TaskError>)
        ensures
            match r {
                Ok(t) => t.wf() && hhmm_value(s@) == Some(t.minute_of_day()),
                Err(e) => e == TaskError::InvalidTimeFormat && hhmm_value(s@) is None,
            },
    {
        let chars = chars_of(s);
        if chars.len() != 4 {
            return Err(TaskError::InvalidTimeFormat);
        }
        match (digit_of(chars[0]), digit_of(chars[1]), digit_of(chars[2]), digit_of(chars[3])) {
            (Some(a), Some(b), Some(c), Some(d)) => ClockTime::new(a * 10 + b, c * 10 + d),
            _ => Err(TaskError::InvalidTimeFormat),
        }
    }

    /// The hour, from 0 to 23.
    pub fn hour(&self) -> (h: u8)
        ensures
            h == self.minute_of_day() / 60,
            h < 24,
    {
        proof {
            use_type_invariant(self);
        }
        (self.minutes / 60) as u8
    }

    /// The minute within the hour, from 0 to 59.
    pub fn minute(&self) -> (m: u8)
        ensures
            m == self.minute_of_day() % 60,
            m < 60,
    {
        (self.minutes % 60) as u8
    }

    /// The four digits that name this time.
    pub fn to_hhmm(&self) -> (s: String)
        ensures
            s@ == hhmm_text(self.minute_of_day()),
    {
        let mut s = String::new();
        push_two_digits(&mut s, self.hour());
        push_two_digits(&mut s, self.minute());
        s
    }
}

/// The signed number of minutes from `start` to `end`, both taken on the same day, and the four
/// digits that name its magnitude as hours and minutes. An `end` before `start` gives a negative
/// number: no midnight is crossed.
pub fn duration_between(start: ClockTime, end: ClockTime) -> (r: (String, i64))
    ensures
        r.1 == end.minute_of_day() - start.minute_of_day(),
        r.0@ == hhmm_text(magnitude(r.1 as int)),
{
    proof {
        use_type_invariant(start);
        use_type_invariant(end);
    }
    let minutes: i64 = end.minutes as i64 - start.minutes as i64;
    let span: i64 = if minutes < 0 {
        -minutes
    } else {
        minutes
    };
    let mut formatted = String::new();
    push_two_digits(&mut formatted, (span / 60) as u8);
    push_two_digits(&mut formatted, (span % 60) as u8);
    (formatted, minutes)
}

/// The duration between two times of day given by their four digits.
pub fn calc_time_diff(start_time: &str, end_time: &str) -> (r: Result<(String, i64), TaskError>)
    ensures
        match r {
            Ok(d) => {
                &&& hhmm_value(start_time@) is Some
                &&& hhmm_value(end_time@) is Some
                &&& d.1 == hhmm_value(end_time@)->0 - hhmm_value(start_time@)->0
                &&& d.0@ == hhmm_text(magnitude(d.1 as int))
            },
            Err(e) => {
                &&& e == TaskError::InvalidTimeFormat
                &&& hhmm_value(start_time@) is None || hhmm_value(end_time@) is None
            },
        },
{
    let start = match ClockTime::parse(start_time) {
        Ok(t) => t,
        Err(e) => {
            return Err(e);
        },
    };
    let end = match ClockTime::parse(end_time) {
        Ok(t) => t,
        Err(e) => {
            return Err(e);
        },
    };
    Ok(duration_between(start, end))
}

/// Reading the four digits of a minute of the day gives that minute back.
pub proof fn lemma_hhmm_round_trip(m: int)
    requires
        0 <= m < 1440,
    ensures
        hhmm_value(hhmm_text(m)) == Some(m),
{
}

/// A text that names a minute of the day is the four digits of that minute: no two texts name
/// the same time.
pub proof fn lemma_hhmm_canonical(s: Seq<char>)
    requires
        hhmm_value(s) is Some,
    ensures
        hhmm_text(hhmm_value(s)->0) == s,
        0 <= hhmm_value(s)->0 < 1440,
{
    let hour = digit_value(s[0]) * 10 + digit_value(s[1]);
    let minute = digit_value(s[2]) * 10 + digit_value(s[3]);
    let m = hour * 60 + minute;
    assert(m / 60 == hour && m % 60 == minute);
    lemma_two_digits_of_pair(s[0], s[1]);
    lemma_two_digits_of_pair(s[2], s[3]);
    assert(hhmm_text(m) =~= s);
}

} // verus!
