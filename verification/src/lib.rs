//! Task records and the clock and calendar arithmetic of a personal time tracker.
//!
//! A task is started under a name, ended later, and listed by day, by week or while it is
//! open. Its record holds the date and the time of its start, the time of its end once it has
//! ended, and the minutes between the two. The records are kept as a text of one JSON object
//! per line, the newest first.
//!
//! The forms that are written: a date is `YYYY-MM-DD`, a time of day is `HHMM` on the clock of
//! 24 hours, a line ends in a line feed. The forms that are read: a date may have a month or a
//! day of one digit, a line may end in a carriage return and a line feed, and an empty line is
//! passed over. Times of day carry no date: the minutes from a start to an end are those
//! between the two on one and the same day, negative where the end is the earlier one.
//!
//! The library touches no file: a caller hands it the text of the store and writes what it
//! hands back.
//!
//! - [`clock`]: times of day and the duration between two of them.
//! - [`calendar`]: dates, the days between them, the Monday of a week.
//! - [`task`]: the record of a task.
//! - [`codec`]: a record as a line of text, and back.
//! - [`store`]: the records of a store as its text, and back; replacing a record in place.
//! - [`service`]: starting, ending, amending and listing tasks.
//! - [`migrate`]: bringing records of older forms into the forms that are written.
//! - [`system`]: the local clock and chance.
//! - [`json`]: what is believed of `serde_json`.
//! - [`text`]: digits, decimal numbers and lines.
//! - [`error`]: the failures.

pub mod calendar;
pub mod clock;
pub mod codec;
pub mod error;
pub mod json;
pub mod migrate;
pub mod service;
pub mod store;
pub mod system;
pub mod task;
pub mod text;
