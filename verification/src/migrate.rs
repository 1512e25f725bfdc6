//! Bringing records that were written in older forms into the one form that is written now.

use vstd::prelude::*;
use crate::calendar::{date_text, date_value, Date};
use crate::clock::{duration_between, hhmm_text, hhmm_value, ClockTime};
use crate::error::TaskError;
use crate::task::{Task, TaskView};
use crate::text::chars_of;

verus! {

/// The minute of the day that `s` names, written as four digits or as two digits, a colon and
/// two digits. `None` for any other text.
pub open spec fn loose_hhmm_value(s: Seq<char>) -> Option<int> {
    if s.len() == 5 && s[2] == ':' {
        hhmm_value(s.subrange(0, 2) + s.subrange(3, 5))
    } else {
        hhmm_value(s)
    }
}

/// The date `date` in its canonical text; no date stays no date. `None` where `date` is not
/// empty and names no day of the calendar.
pub open spec fn canonical_date(date: Seq<char>) -> Option<Seq<char>> {
    if date.len() == 0 {
        Some(date)
    } else {
        match date_value(date) {
            Some(d) => Some(date_text(d.0, d.1, d.2)),
            None => None,
        }
    }
}

/// The record `t` in the form that is written now: its date in the canonical text, its times
/// as four digits, its total computed from its times. `InvalidDateFormat` where its date cannot
/// be read; else `InvalidTimeFormat` where its start, or its end where it has one, is no time
/// of day in either form.
pub open spec fn normalized(t: TaskView) -> Result<TaskView, TaskError> {
    match canonical_date(t.date) {
        None => Err(TaskError::InvalidDateFormat),
        Some(date) => match loose_hhmm_value(t.time_start) {
            None => Err(TaskError::InvalidTimeFormat),
            Some(start) => match t.time_end {
                None => Ok(
                    TaskView {
                        date,
                        task_name: t.task_name,
                        time_start: hhmm_text(start),
                        time_end: None,
                        time_total: 0,
                    },
                ),
                Some(text) => match loose_hhmm_value(text) {
                    None => Err(TaskError::InvalidTimeFormat),
                    Some(end) => Ok(
                        TaskView {
                            date,
                            task_name: t.task_name,
                            time_start: hhmm_text(start),
                            time_end: Some(hhmm_text(end)),
                            time_total: end - start,
                        },
                    ),
                },
            },
        },
    }
}

/// The records in the form that is written now, in their order; the failure of the first
/// record that cannot be brought into it.
pub open spec fn normalized_all(records: Seq<TaskView>) -> Result<Seq<TaskView>, TaskError>
    decreases records.len(),
{
    if records.len() == 0 {
        Ok(Seq::empty())
    } else {
        match normalized_all(records.drop_last()) {
            Err(e) => Err(e),
            Ok(earlier) => match normalized(records.last()) {
                Ok(t) => Ok(earlier.push(t)),
                Err(e) => Err(e),
            },
        }
    }
}

/// The failure of a part of the records, counted from their start, is the failure of them all.
pub proof fn lemma_normalized_all_fails(records: Seq<TaskView>, k: int)
    requires
        0 <= k <= records.len(),
        normalized_all(records.take(k)) is Err,
    ensures
        normalized_all(records) == normalized_all(records.take(k)),
    decreases records.len() - k,
{
    if k < records.len() {
        assert(records.take(k + 1).drop_last() =~= records.take(k));
        lemma_normalized_all_fails(records, k + 1);
    } else {
        assert(records.take(k) =~= records);
    }
}

/// Reads a time of day that is written as four digits or with a colon in their middle.
pub fn parse_loose_time(s: &str) -> (r: Result<ClockTime, TaskError>)
    ensures
        match r {
            Ok(t) => t.wf() && loose_hhmm_value(s@) == Some(t.minute_of_day()),
            Err(e) => e == TaskError::InvalidTimeFormat && loose_hhmm_value(s@) is None,
        },
{
    let chars = chars_of(s);
    if chars.len() == 5 && chars[2] == ':' {
        let mut digits = String::new();
        digits.push(chars[0]);
        digits.push(chars[1]);
        digits.push(chars[3]);
        digits.push(chars[4]);
        proof {
            assert(digits@ =~= s@.subrange(0, 2) + s@.subrange(3, 5));
        }
        ClockTime::parse(digits.as_str())
    } else {
        ClockTime::parse(s)
    }
}

/// The record `task` in the form that is written now.
pub fn normalize_task(task: &Task) -> (r: Result<Task, TaskError>)
    ensures
        match r {
            Ok(t) => normalized(task@) == Ok::<TaskView, TaskError>(t@),
            Err(e) => normalized(task@) == Err::<TaskView, TaskError>(e),
        },
{
    let date = if task.date.as_str().is_empty() {
        proof {
            assert(task.date@ =~= Seq::<char>::empty());
        }
        String::new()
    } else {
        match Date::parse(task.date.as_str()) {
            Ok(date) => date.to_text(),
            Err(e) => {
                return Err(e);
            },
        }
    };
    let start = match parse_loose_time(task.time_start.as_str()) {
        Ok(t) => t,
        Err(e) => {
            return Err(e);
        },
    };
    match &task.time_end {
        None => Ok(Task::new(date, task.task_name.clone(), start.to_hhmm(), None, 0)),
        Some(text) => match parse_loose_time(text.as_str()) {
            Ok(end) => Ok(
                Task::new(
                    date,
                    task.task_name.clone(),
                    start.to_hhmm(),
                    Some(end.to_hhmm()),
                    duration_between(start, end).1,
                ),
            ),
            Err(e) => Err(e),
        },
    }
}

/// The records in the form that is written now.
pub fn normalize_all(tasks: &Vec<Task>) -> (r: Result<Vec<Task>, TaskError>)
    ensures
        match r {
            Ok(out) => normalized_all(tasks.deep_view()) == Ok::<Seq<TaskView>, TaskError>(
                out.deep_view(),
            ),
            Err(e) => normalized_all(tasks.deep_view()) == Err::<Seq<TaskView>, TaskError>(e),
        },
{
    let ghost all = tasks.deep_view();
    let mut out: Vec<Task> = Vec::new();
    let mut i: usize = 0;
    proof {
        assert(all.take(0) =~= Seq::<TaskView>::empty());
        assert(out.deep_view() =~= Seq::<TaskView>::empty());
    }
    while i < tasks.len()
        invariant
            i <= tasks.len(),
            all == tasks.deep_view(),
            normalized_all(all.take(i as int)) == Ok::<Seq<TaskView>, TaskError>(out.deep_view()),
        decreases tasks.len() - i,
    {
        proof {
            assert(all.take(i + 1).drop_last() =~= all.take(i as int));
            assert(all.take(i + 1).last() == tasks[i as int]@);
        }
        match normalize_task(&tasks[i]) {
            Ok(t) => {
                let ghost before = out.deep_view();
                out.push(t);
                proof {
                    assert(out.deep_view() =~= before.push(t@));
                }
            },
            Err(e) => {
                proof {
                    lemma_normalized_all_fails(all, i + 1);
                }
                return Err(e);
            },
        }
        i += 1;
    }
    proof {
        assert(all.take(i as int) =~= all);
    }
    Ok(out)
}

/// Bringing a record into the form that is written now a second time changes nothing.
pub proof fn lemma_normalized_again(t: TaskView)
    requires
        normalized(t) is Ok,
    ensures
        normalized(normalized(t)->Ok_0) == normalized(t),
{
    let once = normalized(t)->Ok_0;
    let start = loose_hhmm_value(t.time_start)->0;
    crate::clock::lemma_hhmm_canonical(
        if t.time_start.len() == 5 && t.time_start[2] == ':' {
            t.time_start.subrange(0, 2) + t.time_start.subrange(3, 5)
        } else {
            t.time_start
        },
    );
    crate::clock::lemma_hhmm_round_trip(start);
    if t.time_end is Some {
        let text = t.time_end->0;
        let end = loose_hhmm_value(text)->0;
        crate::clock::lemma_hhmm_canonical(
            if text.len() == 5 && text[2] == ':' {
                text.subrange(0, 2) + text.subrange(3, 5)
            } else {
                text
            },
        );
        crate::clock::lemma_hhmm_round_trip(end);
    }
    if t.date.len() > 0 {
        let d = date_value(t.date)->0;
        crate::calendar::lemma_date_round_trip(d.0, d.1, d.2);
    }
}

} // verus!
