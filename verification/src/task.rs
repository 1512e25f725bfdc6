//! The task record.

use vstd::prelude::*;
use crate::calendar::{date_text, date_value, lemma_date_round_trip, Date};
use crate::clock::{duration_between, hhmm_value, ClockTime};
use crate::error::TaskError;
use crate::system::today;

verus! {

/// One tracked task: when it started, what it is called and, once it has ended, when it ended
/// and how long it took.
#[derive(Debug, PartialEq, Eq)]
pub struct Task {
    /// The date on which the task started.
    pub date: String,
    /// The label of the task.
    pub task_name: String,
    /// The time of day at which the task started.
    pub time_start: String,
    /// The time of day at which the task ended; `None` while the task is open.
    pub time_end: Option<String>,
    /// The minutes from start to end; 0 while the task is open.
    pub time_total: i64,
}

/// What a task record holds.
pub struct TaskView {
    pub date: Seq<char>,
    pub task_name: Seq<char>,
    pub time_start: Seq<char>,
    pub time_end: Option<Seq<char>>,
    pub time_total: int,
}

impl View for Task {
    type V = TaskView;

    open spec fn view(&self) -> TaskView {
        TaskView {
            date: self.date@,
            task_name: self.task_name@,
            time_start: self.time_start@,
            time_end: match self.time_end {
                Some(end) => Some(end@),
                None => None,
            },
            time_total: self.time_total as int,
        }
    }
}

impl DeepView for Task {
    type V = TaskView;

    open spec fn deep_view(&self) -> TaskView {
        self@
    }
}

/// The record that holds the date `date` and nothing else: no name, no times, no minutes.
pub open spec fn dated_only(date: Seq<char>) -> TaskView {
    TaskView {
        date,
        task_name: Seq::empty(),
        time_start: Seq::empty(),
        time_end: None,
        time_total: 0,
    }
}

/// Whether a task is open: it has not ended yet.
pub open spec fn is_open(t: TaskView) -> bool {
    t.time_end is None
}

/// Whether two records are the same task: they agree in name, date and start time.
pub open spec fn same_identity(a: TaskView, b: TaskView) -> bool {
    a.task_name == b.task_name && a.date == b.date && a.time_start == b.time_start
}

/// The minutes that a task took, by its start and end times: 0 for an open task, and the
/// minutes from start to end, on one day, for one that has ended. `InvalidTimeFormat` where the
/// task has ended and its start or its end is no time of day.
pub open spec fn total_of(t: TaskView) -> Result<int, TaskError> {
    match t.time_end {
        None => Ok(0),
        Some(end) => match (hhmm_value(t.time_start), hhmm_value(end)) {
            (Some(s), Some(e)) => Ok(e - s),
            _ => Err(TaskError::InvalidTimeFormat),
        },
    }
}

impl Clone for Task {
    fn clone(&self) -> (r: Task)
        ensures
            r@ == self@,
    {
        Task {
            date: self.date.clone(),
            task_name: self.task_name.clone(),
            time_start: self.time_start.clone(),
            time_end: match &self.time_end {
                Some(end) => Some(end.clone()),
                None => None,
            },
            time_total: self.time_total,
        }
    }
}

impl Default for Task {
    fn default() -> (r: Task)
        ensures
            r@ == dated_only(Seq::empty()),
    {
        Task {
            date: String::new(),
            task_name: String::new(),
            time_start: String::new(),
            time_end: None,
            time_total: 0,
        }
    }
}

impl Task {
    /// The task with the given fields.
    pub fn new(
        date: String,
        task_name: String,
        time_start: String,
        time_end: Option<String>,
        time_total: i64,
    ) -> (r: Task)
        ensures
            r.date == date,
            r.task_name == task_name,
            r.time_start == time_start,
            r.time_end == time_end,
            r.time_total == time_total,
    {
        Task { date, task_name, time_start, time_end, time_total }
    }

    /// A record that holds the local date of today and nothing else; `InvalidDateFormat` where
    /// the clock stands outside the years 1 to 9999.
    pub fn new_task_today() -> (r: Result<Task, TaskError>)
        ensures
            match r {
                Ok(task) => date_value(task@.date) is Some && task@ == dated_only(task@.date),
                Err(e) => e == TaskError::InvalidDateFormat,
            },
    {
        match today() {
            Ok(date) => {
                proof {
                    lemma_date_round_trip(date.year_of(), date.month_of(), date.day_of());
                }
                Ok(Task::new_task_from_date(date))
            },
            Err(e) => Err(e),
        }
    }

    /// A record that holds the date `date`, in its canonical text, and nothing else.
    pub fn new_task_from_date(date: Date) -> (task: Task)
        ensures
            task@ == dated_only(date_text(date.year_of(), date.month_of(), date.day_of())),
    {
        Task {
            date: date.to_text(),
            task_name: String::new(),
            time_start: String::new(),
            time_end: None,
            time_total: 0,
        }
    }

    /// Whether the task has not ended yet.
    pub fn is_open(&self) -> (r: bool)
        ensures
            r == is_open(self@),
    {
        self.time_end.is_none()
    }

    /// Whether this record and `other` are the same task.
    pub fn same_identity(&self, other: &Task) -> (r: bool)
        ensures
            r == same_identity(self@, other@),
    {
        self.task_name == other.task_name && self.date == other.date && self.time_start
            == other.time_start
    }

    /// The minutes that the task took, by its start and end times.
    pub fn computed_total(&self) -> (r: Result<i64, TaskError>)
        ensures
            match r {
                Ok(n) => total_of(self@) == Ok::<int, TaskError>(n as int),
                Err(e) => total_of(self@) == Err::<int, TaskError>(e),
            },
    {
        match &self.time_end {
            None => Ok(0),
            Some(end) => {
                let start = match ClockTime::parse(self.time_start.as_str()) {
                    Ok(t) => t,
                    Err(e) => {
                        return Err(e);
                    },
                };
                let end = match ClockTime::parse(end.as_str()) {
                    Ok(t) => t,
                    Err(e) => {
                        return Err(e);
                    },
                };
                Ok(duration_between(start, end).1)
            },
        }
    }
}

} // verus!
