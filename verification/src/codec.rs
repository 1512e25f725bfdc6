//! The record codec: a task as one line of JSON text, and back.
//!
//! A record is a JSON object with the fields `date`, `task_name` and `time_start`, which are
//! strings, `time_end`, which is a string or `null`, and `time_total`, which is an integer.
//! `serde_json` reads the object and writes the strings; which fields make a record, and how
//! the line is put together, is decided here.

use vstd::prelude::*;
use vstd::string::StringExecFns;
use crate::error::TaskError;
use crate::json::{json_object_entries, json_quoted, parse_object, quote, JsonData, JsonValue};
use crate::task::{Task, TaskView};
use crate::text::{int_text, lemma_int_text_one_line, one_line, push_int, same_text};

verus! {

/// The line of text that stands for a task in the store, without the line feed that ends it: a
/// JSON object of five fields, in this order and without blanks.
pub open spec fn record_text(t: TaskView) -> Seq<char> {
    "{\"date\":"@ + json_quoted(t.date) + ",\"task_name\":"@ + json_quoted(t.task_name)
        + ",\"time_start\":"@ + json_quoted(t.time_start) + ",\"time_end\":"@ + (match t.time_end {
        Some(end) => json_quoted(end),
        None => "null"@,
    }) + ",\"time_total\":"@ + int_text(t.time_total) + "}"@
}

/// The value of the first of `entries` that is named `name`.
pub open spec fn field(entries: Seq<(Seq<char>, JsonData)>, name: Seq<char>) -> Option<JsonData>
    decreases entries.len(),
{
    if entries.len() == 0 {
        None
    } else if entries[0].0 == name {
        Some(entries[0].1)
    } else {
        field(entries.drop_first(), name)
    }
}

/// The task that the fields of a JSON object stand for: `date`, `task_name` and `time_start`
/// are strings, `time_total` is an integer of 64 bits, and `time_end` is a string, `null` or
/// missing. Fields of other names are passed over. Any other object is a corrupt record.
pub open spec fn task_of_entries(entries: Seq<(Seq<char>, JsonData)>) -> Result<TaskView, TaskError> {
    match (
        field(entries, "date"@),
        field(entries, "task_name"@),
        field(entries, "time_start"@),
        field(entries, "time_total"@),
    ) {
        (
            Some(JsonData::Text(date)),
            Some(JsonData::Text(task_name)),
            Some(JsonData::Text(time_start)),
            Some(JsonData::Number(Some(time_total))),
        ) => match field(entries, "time_end"@) {
            None | Some(JsonData::Null) => Ok(
                TaskView { date, task_name, time_start, time_end: None, time_total: time_total as int },
            ),
            Some(JsonData::Text(end)) => Ok(
                TaskView {
                    date,
                    task_name,
                    time_start,
                    time_end: Some(end),
                    time_total: time_total as int,
                },
            ),
            _ => Err(TaskError::CorruptRecord),
        },
        _ => Err(TaskError::CorruptRecord),
    }
}

/// The task that a line of the store stands for; a corrupt record where the line is no JSON
/// object or the object is no task.
pub open spec fn decode_line(line: Seq<char>) -> Result<TaskView, TaskError> {
    match json_object_entries(line) {
        Some(entries) => task_of_entries(entries),
        None => Err(TaskError::CorruptRecord),
    }
}

/// The place of the first of `entries` that is named `name`.
fn find_field(entries: &Vec<(String, JsonValue)>, name: &str) -> (r: Option<usize>)
    ensures
        match r {
            Some(i) => i < entries.len() && field(entries.deep_view(), name@) == Some(
                entries[i as int].1@,
            ),
            None => field(entries.deep_view(), name@) is None,
        },
{
    let mut i: usize = 0;
    proof {
        assert(entries.deep_view().skip(0) =~= entries.deep_view());
    }
    while i < entries.len()
        invariant
            i <= entries.len(),
            field(entries.deep_view(), name@) == field(entries.deep_view().skip(i as int), name@),
        decreases entries.len() - i,
    {
        if same_text(entries[i].0.as_str(), name) {
            return Some(i);
        }
        proof {
            assert(entries.deep_view().skip(i as int).drop_first() =~= entries.deep_view().skip(
                i + 1,
            ));
        }
        i += 1;
    }
    None
}

/// The text of the field `name`, where it is a string.
fn text_field(entries: &Vec<(String, JsonValue)>, name: &str) -> (r: Option<String>)
    ensures
        match r {
            Some(s) => field(entries.deep_view(), name@) == Some(JsonData::Text(s@)),
            None => !(field(entries.deep_view(), name@) matches Some(JsonData::Text(_))),
        },
{
    match find_field(entries, name) {
        Some(i) => match &entries[i].1 {
            JsonValue::Text(s) => Some(s.clone()),
            _ => None,
        },
        None => None,
    }
}

impl Task {
    /// The task that the fields of a JSON object stand for.
    pub fn from_entries(entries: &Vec<(String, JsonValue)>) -> (r: Result<Task, TaskError>)
        ensures
            match r {
                Ok(task) => task_of_entries(entries.deep_view()) == Ok::<TaskView, TaskError>(task@),
                Err(e) => task_of_entries(entries.deep_view()) == Err::<TaskView, TaskError>(e),
            },
    {
        let date = text_field(entries, "date");
        let task_name = text_field(entries, "task_name");
        let time_start = text_field(entries, "time_start");
        let time_total = match find_field(entries, "time_total") {
            Some(i) => match &entries[i].1 {
                JsonValue::Number(Some(n)) => Some(*n),
                _ => None,
            },
            None => None,
        };
        let time_end = match find_field(entries, "time_end") {
            Some(i) => match &entries[i].1 {
                JsonValue::Null => None,
                JsonValue::Text(s) => Some(s.clone()),
                _ => {
                    return Err(TaskError::CorruptRecord);
                },
            },
            None => None,
        };
        match (date, task_name, time_start, time_total) {
            (Some(date), Some(task_name), Some(time_start), Some(time_total)) => Ok(
                Task { date, task_name, time_start, time_end, time_total },
            ),
            _ => Err(TaskError::CorruptRecord),
        }
    }

    /// The task that a line of the store stands for.
    pub fn task_from_string(s: String) -> (r: Result<Task, TaskError>)
        ensures
            match r {
                Ok(task) => decode_line(s@) == Ok::<TaskView, TaskError>(task@),
                Err(e) => decode_line(s@) == Err::<TaskView, TaskError>(e),
            },
    {
        match parse_object(s.as_str()) {
            Ok(entries) => Task::from_entries(&entries),
            Err(_) => Err(TaskError::CorruptRecord),
        }
    }

    /// The line of text that stands for the task in the store, with the line feed that ends it
    /// and no other.
    pub fn to_json_string(self) -> (r: String)
        ensures
            r@ == record_text(self@).push('\n'),
            one_line(record_text(self@)),
    {
        let date = quote(self.date.as_str());
        let task_name = quote(self.task_name.as_str());
        let time_start = quote(self.time_start.as_str());
        let time_end = match &self.time_end {
            Some(end) => Some(quote(end.as_str())),
            None => None,
        };
        let line = record_line(&date, &task_name, &time_start, &time_end, self.time_total);
        proof {
            assert(one_line(date@) && one_line(task_name@) && one_line(time_start@));
            assert(time_end matches Some(end) ==> one_line(end@));
            assert(one_line(line@.drop_last()));
            assert(line@.drop_last() =~= record_text(self@));
        }
        line
    }
}

/// The line of a record whose fields are given as they stand in the line: the date, the name
/// and the start as JSON string literals, the end as one or, where there is none, left out for
/// `null`, and the total as a number. The line ends in a line feed.
pub open spec fn line_of_fields(
    date: Seq<char>,
    task_name: Seq<char>,
    time_start: Seq<char>,
    time_end: Option<Seq<char>>,
    time_total: int,
) -> Seq<char> {
    ("{\"date\":"@ + date + ",\"task_name\":"@ + task_name + ",\"time_start\":"@ + time_start
        + ",\"time_end\":"@ + (match time_end {
        Some(end) => end,
        None => "null"@,
    }) + ",\"time_total\":"@ + int_text(time_total) + "}"@).push('\n')
}

/// Puts the line of a record together from its fields as they stand in the line.
pub fn record_line(
    date: &String,
    task_name: &String,
    time_start: &String,
    time_end: &Option<String>,
    time_total: i64,
) -> (r: String)
    ensures
        r@ == line_of_fields(
            date@,
            task_name@,
            time_start@,
            match time_end {
                Some(end) => Some(end@),
                None => None,
            },
            time_total as int,
        ),
        one_line(date@) && one_line(task_name@) && one_line(time_start@) && (time_end matches Some(
            end,
        ) ==> one_line(end@)) ==> one_line(r@.drop_last()),
{
    let mut out = String::new();
    out.append("{\"date\":");
    out.append(date.as_str());
    out.append(",\"task_name\":");
    out.append(task_name.as_str());
    out.append(",\"time_start\":");
    out.append(time_start.as_str());
    out.append(",\"time_end\":");
    match time_end {
        Some(end) => {
            out.append(end.as_str());
        },
        None => {
            out.append("null");
        },
    }
    out.append(",\"time_total\":");
    push_int(&mut out, time_total);
    out.append("}");
    proof {
        reveal_strlit("{\"date\":");
        reveal_strlit(",\"task_name\":");
        reveal_strlit(",\"time_start\":");
        reveal_strlit(",\"time_end\":");
        reveal_strlit("null");
        reveal_strlit(",\"time_total\":");
        reveal_strlit("}");
        lemma_int_text_one_line(time_total as int);
    }
    let ghost body = out@;
    out.push('\n');
    proof {
        assert(out@.drop_last() =~= body);
        assert(out@ =~= line_of_fields(
            date@,
            task_name@,
            time_start@,
            match time_end {
                Some(end) => Some(end@),
                None => None,
            },
            time_total as int,
        ));
    }
    out
}

/// The line of a record is not empty and ends in a brace.
pub proof fn lemma_record_text_ends(t: TaskView)
    ensures
        record_text(t).len() > 0,
        record_text(t).last() == '}',
{
    reveal_strlit("}");
}

/// The five fields that a record is written with, each with its name.
pub open spec fn fields_of(t: TaskView) -> Seq<(Seq<char>, JsonData)> {
    seq![
        ("date"@, JsonData::Text(t.date)),
        ("task_name"@, JsonData::Text(t.task_name)),
        ("time_start"@, JsonData::Text(t.time_start)),
        (
            "time_end"@,
            match t.time_end {
                Some(end) => JsonData::Text(end),
                None => JsonData::Null,
            },
        ),
        ("time_total"@, JsonData::Number(Some(t.time_total as i64))),
    ]
}

/// The five fields that a record is written with stand for that record: what is written is
/// what is read, for every record, open or ended.
pub proof fn lemma_fields_round_trip(t: TaskView)
    requires
        i64::MIN <= t.time_total <= i64::MAX,
    ensures
        task_of_entries(fields_of(t)) == Ok::<TaskView, TaskError>(t),
{
    reveal_strlit("date");
    reveal_strlit("task_name");
    reveal_strlit("time_start");
    reveal_strlit("time_end");
    reveal_strlit("time_total");
    reveal_with_fuel(field, 6);
    let e = fields_of(t);
    assert("date"@.len() == 4 && "task_name"@.len() == 9 && "time_start"@.len() == 10
        && "time_end"@.len() == 8);
    assert("time_total"@.len() == 10 && "time_start"@[5] == 's' && "time_total"@[5] == 't');
    assert(e.drop_first() =~= e.skip(1));
    assert(e.skip(1).drop_first() =~= e.skip(2));
    assert(e.skip(2).drop_first() =~= e.skip(3));
    assert(e.skip(3).drop_first() =~= e.skip(4));
    assert(e.skip(4).drop_first() =~= e.skip(5));
    assert(field(e, "date"@) == Some(e[0].1));
    assert(field(e, "task_name"@) == Some(e[1].1));
    assert(field(e, "time_start"@) == Some(e[2].1));
    assert(field(e, "time_end"@) == Some(e[3].1));
    assert(field(e, "time_total"@) == Some(e[4].1));
}

/// A line that is read as the five fields it was written with stands for the record it was
/// written for: writing a record and reading the line gives the record back.
pub proof fn lemma_line_round_trip(t: TaskView)
    requires
        i64::MIN <= t.time_total <= i64::MAX,
    ensures
        json_object_entries(record_text(t)) == Some(fields_of(t)) ==> decode_line(record_text(t))
            == Ok::<TaskView, TaskError>(t),
{
    lemma_fields_round_trip(t);
}

} // verus!
