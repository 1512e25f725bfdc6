//! What the machine gives: the local clock, read through `chrono`, and chance, through `rand`.

use vstd::prelude::*;
use crate::calendar::{date_value, lemma_date_round_trip, weekday_of, Date};
use crate::clock::{hhmm_value, lemma_hhmm_round_trip, ClockTime};
use crate::error::TaskError;

verus! {

/// Calls `chrono::Local::now` and hands out the year, month, day, hour and minute of the local
/// time it gives. Claimed of every outcome, as chrono documents its accessors: the month is
/// from 1 to 12, the day from 1 to 31, the hour from 0 to 23 and the minute from 0 to 59.
/// Nothing is claimed of the year. chrono panics where the system clock stands before 1970 or
/// the time zone of the machine cannot be made out: the machine decides that, no argument does.
#[verifier::external_body]
fn local_now() -> (r: (i32, u32, u32, u32, u32))
    ensures
        1 <= r.1 <= 12,
        1 <= r.2 <= 31,
        r.3 <= 23,
        r.4 <= 59,
{
    let now = chrono::Local::now();
    (
        chrono::Datelike::year(&now),
        chrono::Datelike::month(&now),
        chrono::Datelike::day(&now),
        chrono::Timelike::hour(&now),
        chrono::Timelike::minute(&now),
    )
}

/// Calls `rand::Rng::gen_range` on the generator of the thread, for the range from `low` up to,
/// and without, `high`. Claimed of every outcome, as rand documents it: the number lies in the
/// range. rand panics on an empty range, which the contract leaves out, and where the machine
/// gives the generator no seed.
#[verifier::external_body]
pub(crate) fn random_in(low: u32, high: u32) -> (r: u32)
    requires
        low < high,
    ensures
        low <= r < high,
{
    rand::Rng::gen_range(&mut rand::thread_rng(), low..high)
}

/// The local time of day, to the minute.
pub fn now() -> (r: ClockTime)
    ensures
        r.wf(),
{
    let clock = local_now();
    ClockTime::at(clock.3 as u8, clock.4 as u8)
}

/// The local date; `InvalidDateFormat` where the clock stands outside the years 1 to 9999.
pub fn today() -> (r: Result<Date, TaskError>)
    ensures
        match r {
            Ok(date) => date.wf(),
            Err(e) => e == TaskError::InvalidDateFormat,
        },
{
    let clock = local_now();
    if clock.0 < 1 || clock.0 > 9999 {
        return Err(TaskError::InvalidDateFormat);
    }
    Date::new(clock.0 as u16, clock.1 as u8, clock.2 as u8)
}

/// The Monday of the week that holds the local date of today; `InvalidDateFormat` where the
/// clock stands outside the years 1 to 9999.
pub fn monday_of_current_iso_week() -> (r: Result<Date, TaskError>)
    ensures
        match r {
            Ok(date) => date.wf() && weekday_of(date.number()) == 0,
            Err(e) => e == TaskError::InvalidDateFormat,
        },
{
    match today() {
        Ok(date) => Ok(date.monday_of_week()),
        Err(e) => Err(e),
    }
}

/// The four digits of the local time of day.
pub fn get_time() -> (r: Result<String, TaskError>)
    ensures
        r is Ok,
        hhmm_value(r->Ok_0@) is Some,
{
    let t = now();
    proof {
        lemma_hhmm_round_trip(t.minute_of_day());
    }
    Ok(t.to_hhmm())
}

/// The local date in its canonical text; `InvalidDateFormat` where the clock stands outside the
/// years 1 to 9999.
pub fn get_date() -> (r: Result<String, TaskError>)
    ensures
        match r {
            Ok(text) => date_value(text@) is Some,
            Err(e) => e == TaskError::InvalidDateFormat,
        },
{
    match today() {
        Ok(date) => {
            proof {
                lemma_date_round_trip(date.year_of(), date.month_of(), date.day_of());
            }
            Ok(date.to_text())
        },
        Err(e) => Err(e),
    }
}

} // verus!
