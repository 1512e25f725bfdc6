//! The failures that the library reports.

use vstd::prelude::*;

verus! {

/// Why an operation on task records could not be carried out.
#[derive(Clone, Copy, Debug, PartialEq, Eq, Structural)]
pub enum TaskError {
    /// A clock time is not four digits that give an hour from 00 to 23 and a minute from 00 to 59.
    InvalidTimeFormat,
    /// A date is not a calendar date written as year, month and day.
    InvalidDateFormat,
    /// No open task carries the given name.
    TaskNotFound,
    /// No stored record has the identity of the task to be updated.
    RecordMismatch,
    /// A stored line does not decode to a task record.
    CorruptRecord,
    /// The store could not be opened, read or written.
    IoFailure,
}

/// What each failure says of itself.
pub open spec fn message_text(e: TaskError) -> Seq<char> {
    match e {
        TaskError::InvalidTimeFormat => "a time of day must be four digits, from 0000 to 2359"@,
        TaskError::InvalidDateFormat => "a date must be a day of the calendar, written YYYY-MM-DD"@,
        TaskError::TaskNotFound => "no open task has that name"@,
        TaskError::RecordMismatch => "no stored record is that task"@,
        TaskError::CorruptRecord => "a line of the store is no task record"@,
        TaskError::IoFailure => "the store could not be read or written"@,
    }
}

impl TaskError {
    /// What the failure says of itself, for a caller to show.
    pub fn message(&self) -> (r: &'static str)
        ensures
            r@ == message_text(*self),
    {
        match self {
            TaskError::InvalidTimeFormat => "a time of day must be four digits, from 0000 to 2359",
            TaskError::InvalidDateFormat => {
                "a date must be a day of the calendar, written YYYY-MM-DD"
            },
            TaskError::TaskNotFound => "no open task has that name",
            TaskError::RecordMismatch => "no stored record is that task",
            TaskError::CorruptRecord => "a line of the store is no task record",
            TaskError::IoFailure => "the store could not be read or written",
        }
    }
}

} // verus!
