//! What a caller asks of the records: to start and end tasks and to list them.

use vstd::prelude::*;
use crate::calendar::{
    date_text, date_value, day_number_of, days_between, days_between_spec, weekday_of, Date,
};
use crate::clock::{
    duration_between, hhmm_text, hhmm_value, lemma_hhmm_round_trip, magnitude, ClockTime,
};
use crate::error::TaskError;
use crate::store::{
    find_identity, first_index, lemma_filter_empty, lemma_filter_push, lemma_first_index,
    lemma_first_index_is, lemma_first_index_none, replace_by_identity, replaced, with_identity,
};
use crate::system::random_in;
use crate::task::{is_open, total_of, Task, TaskView};
use crate::text::same_text;

verus! {

/// The test for the records of the task called `name`.
pub open spec fn named(name: Seq<char>) -> spec_fn(TaskView) -> bool {
    |t: TaskView| t.task_name == name
}

/// The test for the open records of the task called `name`.
pub open spec fn open_named(name: Seq<char>) -> spec_fn(TaskView) -> bool {
    |t: TaskView| t.task_name == name && is_open(t)
}

/// The test for the records that a search by name looks for: those of the task called `name`,
/// and only the open ones among them where `has_ended` is false.
pub open spec fn sought(name: Seq<char>, has_ended: bool) -> spec_fn(TaskView) -> bool {
    if has_ended {
        named(name)
    } else {
        open_named(name)
    }
}

/// The test for the open records.
pub open spec fn open_only() -> spec_fn(TaskView) -> bool {
    |t: TaskView| is_open(t)
}

/// The number of the day that the text `date` names.
pub open spec fn date_number(date: Seq<char>) -> Option<int> {
    match date_value(date) {
        Some(d) => Some(day_number_of(d.0, d.1, d.2)),
        None => None,
    }
}

/// Whether the date of every record can be read: it is empty or names a day of the calendar.
pub open spec fn dates_readable(records: Seq<TaskView>) -> bool {
    forall|i: int|
        0 <= i < records.len() ==> (#[trigger] records[i]).date.len() == 0 || date_value(
            records[i].date,
        ) is Some
}

/// The test for the records whose date lies at most `days` days from the day numbered `today`,
/// before it or after it. A record without a date is at no distance from any day.
pub open spec fn within_days(today: int, days: int) -> spec_fn(TaskView) -> bool {
    |t: TaskView|
        match date_number(t.date) {
            Some(n) => magnitude(n - today) <= days,
            None => false,
        }
}

/// The test for the records whose date is the day numbered `first` or a later one.
pub open spec fn since(first: int) -> spec_fn(TaskView) -> bool {
    |t: TaskView|
        match date_number(t.date) {
            Some(n) => n >= first,
            None => false,
        }
}

/// The records of which `wanted` holds, in their order; `InvalidDateFormat` where the date of a
/// record cannot be read.
pub open spec fn listed_by_date(records: Seq<TaskView>, wanted: spec_fn(TaskView) -> bool) -> Result<
    Seq<TaskView>,
    TaskError,
> {
    if dates_readable(records) {
        Ok(records.filter(wanted))
    } else {
        Err(TaskError::InvalidDateFormat)
    }
}

/// Whether an open task is called `task`.
pub fn check_if_task_exists(task: String, tasks: &Vec<Task>) -> (r: bool)
    ensures
        r == exists|i: int|
            0 <= i < tasks.len() && (#[trigger] tasks.deep_view()[i]).task_name == task@ && is_open(
                tasks.deep_view()[i],
            ),
{
    let found = find_task(task.as_str(), tasks, false);
    proof {
        let records = tasks.deep_view();
        lemma_first_index(records, open_named(task@));
        if found is Some {
            assert(open_named(task@)(records[found->0 as int]));
        } else {
            assert forall|i: int| 0 <= i < records.len() implies !((#[trigger] records[i]).task_name
                == task@ && is_open(records[i])) by {
                assert(!open_named(task@)(records[i]));
            }
        }
    }
    found.is_some()
}

/// The place of the first record of the task called `task_name`; of the first open one where
/// `has_ended` is false.
pub fn find_task(task_name: &str, tasks: &Vec<Task>, has_ended: bool) -> (r: Option<usize>)
    ensures
        match r {
            Some(i) => i < tasks.len() && first_index(
                tasks.deep_view(),
                sought(task_name@, has_ended),
            ) == Some(i as int),
            None => first_index(tasks.deep_view(), sought(task_name@, has_ended)) is None,
        },
{
    let ghost wanted = sought(task_name@, has_ended);
    let mut i: usize = 0;
    while i < tasks.len()
        invariant
            i <= tasks.len(),
            wanted == sought(task_name@, has_ended),
            forall|j: int| 0 <= j < i ==> !wanted(#[trigger] tasks.deep_view()[j]),
        decreases tasks.len() - i,
    {
        if same_text(tasks[i].task_name.as_str(), task_name) && (has_ended
            || tasks[i].is_open()) {
            proof {
                assert(wanted(tasks.deep_view()[i as int]));
                lemma_first_index_is(tasks.deep_view(), wanted, i as int);
            }
            return Some(i);
        }
        i += 1;
    }
    proof {
        lemma_first_index_none(tasks.deep_view(), wanted);
    }
    None
}

/// The first record of the task called `task_name`; the first open one where `has_ended` is
/// false.
pub fn get_task(task_name: &str, tasks: &Vec<Task>, has_ended: bool) -> (r: Option<Task>)
    ensures
        match first_index(tasks.deep_view(), sought(task_name@, has_ended)) {
            Some(i) => 0 <= i < tasks.len() && r is Some && r->0@ == tasks.deep_view()[i],
            None => r is None,
        },
{
    match find_task(task_name, tasks, has_ended) {
        Some(i) => Some(tasks[i].clone()),
        None => None,
    }
}

/// The records of the task called `task_name`, in their order.
pub fn get_tasks_by_name(task_name: String, tasks: &Vec<Task>) -> (r: Vec<Task>)
    ensures
        r.deep_view() == tasks.deep_view().filter(named(task_name@)),
{
    let ghost all = tasks.deep_view();
    let ghost wanted = named(task_name@);
    let mut found: Vec<Task> = Vec::new();
    let mut i: usize = 0;
    proof {
        assert(all.take(0) =~= Seq::<TaskView>::empty());
        lemma_filter_empty(wanted);
        assert(found.deep_view() =~= Seq::<TaskView>::empty());
    }
    while i < tasks.len()
        invariant
            i <= tasks.len(),
            all == tasks.deep_view(),
            wanted == named(task_name@),
            found.deep_view() == all.take(i as int).filter(wanted),
        decreases tasks.len() - i,
    {
        proof {
            assert(all.take(i + 1) =~= all.take(i as int).push(all[i as int]));
            lemma_filter_push(all.take(i as int), all[i as int], wanted);
        }
        if tasks[i].task_name == task_name {
            let ghost before = found.deep_view();
            found.push(tasks[i].clone());
            proof {
                assert(found.deep_view() =~= before.push(all[i as int]));
            }
        }
        i += 1;
    }
    proof {
        assert(all.take(i as int) =~= all);
    }
    found
}

/// The open records, in their order.
pub fn read_incomplete_tasks(tasks: &Vec<Task>) -> (r: Vec<Task>)
    ensures
        r.deep_view() == tasks.deep_view().filter(open_only()),
{
    let ghost all = tasks.deep_view();
    let ghost wanted = open_only();
    let mut found: Vec<Task> = Vec::new();
    let mut i: usize = 0;
    proof {
        assert(all.take(0) =~= Seq::<TaskView>::empty());
        lemma_filter_empty(wanted);
        assert(found.deep_view() =~= Seq::<TaskView>::empty());
    }
    while i < tasks.len()
        invariant
            i <= tasks.len(),
            all == tasks.deep_view(),
            wanted == open_only(),
            found.deep_view() == all.take(i as int).filter(wanted),
        decreases tasks.len() - i,
    {
        proof {
            assert(all.take(i + 1) =~= all.take(i as int).push(all[i as int]));
            lemma_filter_push(all.take(i as int), all[i as int], wanted);
        }
        if tasks[i].is_open() {
            let ghost before = found.deep_view();
            found.push(tasks[i].clone());
            proof {
                assert(found.deep_view() =~= before.push(all[i as int]));
            }
        }
        i += 1;
    }
    proof {
        assert(all.take(i as int) =~= all);
    }
    found
}

/// How a record is picked by its date.
#[derive(Clone, Copy, Debug, PartialEq, Eq, Structural)]
pub enum DateRule {
    /// The date lies at most so many days from the given day, before it or after it.
    Within { today: u32, days: i32 },
    /// The date is the given day or a later one.
    Since { first: u32 },
}

impl DateRule {
    /// The test that the rule stands for.
    pub open spec fn test(self) -> spec_fn(TaskView) -> bool {
        match self {
            DateRule::Within { today, days } => within_days(today as int, days as int),
            DateRule::Since { first } => since(first as int),
        }
    }

    /// Whether the rule picks the day numbered `n`.
    pub fn picks(&self, n: u32) -> (r: bool)
        ensures
            r == match *self {
                DateRule::Within { today, days } => magnitude(n - today) <= days,
                DateRule::Since { first } => n >= first,
            },
    {
        match self {
            DateRule::Within { today, days } => {
                let distance: i64 = if n < *today {
                    *today as i64 - n as i64
                } else {
                    n as i64 - *today as i64
                };
                distance <= *days as i64
            },
            DateRule::Since { first } => n >= *first,
        }
    }
}

/// The records that `rule` picks, in their order; `InvalidDateFormat` where the date of a record
/// cannot be read.
pub fn list_by_date(tasks: &Vec<Task>, rule: DateRule) -> (r: Result<Vec<Task>, TaskError>)
    ensures
        match r {
            Ok(found) => listed_by_date(tasks.deep_view(), rule.test()) == Ok::<
                Seq<TaskView>,
                TaskError,
            >(found.deep_view()),
            Err(e) => listed_by_date(tasks.deep_view(), rule.test()) == Err::<
                Seq<TaskView>,
                TaskError,
            >(e),
        },
{
    let ghost all = tasks.deep_view();
    let ghost wanted = rule.test();
    let mut found: Vec<Task> = Vec::new();
    let mut i: usize = 0;
    proof {
        assert(all.take(0) =~= Seq::<TaskView>::empty());
        lemma_filter_empty(wanted);
        assert(found.deep_view() =~= Seq::<TaskView>::empty());
    }
    while i < tasks.len()
        invariant
            i <= tasks.len(),
            all == tasks.deep_view(),
            wanted == rule.test(),
            found.deep_view() == all.take(i as int).filter(wanted),
            dates_readable(all.take(i as int)),
        decreases tasks.len() - i,
    {
        proof {
            assert(all.take(i + 1) =~= all.take(i as int).push(all[i as int]));
            lemma_filter_push(all.take(i as int), all[i as int], wanted);
        }
        let mut picked = false;
        if !tasks[i].date.as_str().is_empty() {
            match Date::parse(tasks[i].date.as_str()) {
                Ok(date) => {
                    picked = rule.picks(date.day_number());
                },
                Err(e) => {
                    proof {
                        assert(all[i as int].date.len() != 0);
                        assert(!dates_readable(all));
                    }
                    return Err(e);
                },
            }
        }
        proof {
            assert(picked == wanted(all[i as int]));
            assert forall|j: int| 0 <= j < i + 1 implies (#[trigger] all.take(i + 1)[j]).date.len()
                == 0 || date_value(all.take(i + 1)[j].date) is Some by {
                if j < i {
                    assert(all.take(i + 1)[j] == all.take(i as int)[j]);
                }
            }
        }
        if picked {
            let ghost before = found.deep_view();
            found.push(tasks[i].clone());
            proof {
                assert(found.deep_view() =~= before.push(all[i as int]));
            }
        }
        i += 1;
    }
    proof {
        assert(all.take(i as int) =~= all);
    }
    Ok(found)
}

/// The records whose date lies at most `days` days from `today`, before it or after it.
pub fn read_tasks_from_day_range(days: i32, tasks: &Vec<Task>, today: &Date) -> (r: Result<
    Vec<Task>,
    TaskError,
>)
    ensures
        match r {
            Ok(found) => listed_by_date(
                tasks.deep_view(),
                within_days(today.number(), days as int),
            ) == Ok::<Seq<TaskView>, TaskError>(found.deep_view()),
            Err(e) => listed_by_date(tasks.deep_view(), within_days(today.number(), days as int))
                == Err::<Seq<TaskView>, TaskError>(e),
        },
{
    list_by_date(tasks, DateRule::Within { today: today.day_number(), days })
}

/// The records whose date is `date`.
pub fn list_for_date(date: &Date, tasks: &Vec<Task>) -> (r: Result<Vec<Task>, TaskError>)
    ensures
        match r {
            Ok(found) => listed_by_date(tasks.deep_view(), within_days(date.number(), 0)) == Ok::<
                Seq<TaskView>,
                TaskError,
            >(found.deep_view()),
            Err(e) => listed_by_date(tasks.deep_view(), within_days(date.number(), 0)) == Err::<
                Seq<TaskView>,
                TaskError,
            >(e),
        },
{
    read_tasks_from_day_range(0, tasks, date)
}

/// The records whose date is the Monday of the week of `today` or a later day.
pub fn read_tasks_this_week(tasks: &Vec<Task>, today: &Date) -> (r: Result<Vec<Task>, TaskError>)
    ensures
        match r {
            Ok(found) => listed_by_date(
                tasks.deep_view(),
                since(today.number() - weekday_of(today.number())),
            ) == Ok::<Seq<TaskView>, TaskError>(found.deep_view()),
            Err(e) => listed_by_date(
                tasks.deep_view(),
                since(today.number() - weekday_of(today.number())),
            ) == Err::<Seq<TaskView>, TaskError>(e),
        },
{
    list_by_date(tasks, DateRule::Since { first: today.monday_of_week().day_number() })
}

/// The minutes of two records of one task together; -1 where the two are of different tasks.
pub fn sum_task_total_time(t1: Task, t2: Task) -> (r: i64)
    requires
        t1.task_name@ == t2.task_name@ ==> i64::MIN <= t1.time_total + t2.time_total <= i64::MAX,
    ensures
        r == if t1.task_name@ == t2.task_name@ {
            t1.time_total + t2.time_total
        } else {
            -1
        },
{
    if t1.task_name != t2.task_name {
        return -1;
    }
    t1.time_total + t2.time_total
}

/// The open record of a task called `name` that starts on the day `date` at the minute `minute`
/// of the day.
pub open spec fn opened(name: Seq<char>, date: Seq<char>, minute: int) -> TaskView {
    TaskView {
        date,
        task_name: name,
        time_start: hhmm_text(minute),
        time_end: None,
        time_total: 0,
    }
}

/// The time that counts: the one given, or the time that it is now where none is given.
pub open spec fn effective(at: Option<ClockTime>, now: ClockTime) -> int {
    match at {
        Some(t) => t.minute_of_day(),
        None => now.minute_of_day(),
    }
}

/// The records after the task called `name` has ended at the minute `minute` of the day, and
/// the record that was closed: the first open record of that name, with its end set and its
/// total computed from its start, takes the place of the first record that is the same task.
/// `TaskNotFound` where no open record has that name; else `InvalidTimeFormat` where the start
/// of the record is no time of day.
pub open spec fn ended(records: Seq<TaskView>, name: Seq<char>, minute: int) -> Result<
    (Seq<TaskView>, TaskView),
    TaskError,
> {
    match first_index(records, open_named(name)) {
        None => Err(TaskError::TaskNotFound),
        Some(i) => match hhmm_value(records[i].time_start) {
            None => Err(TaskError::InvalidTimeFormat),
            Some(start) => {
                let closed = TaskView {
                    time_end: Some(hhmm_text(minute)),
                    time_total: minute - start,
                    ..records[i]
                };
                match replaced(records, closed) {
                    Ok(after) => Ok((after, closed)),
                    Err(e) => Err(e),
                }
            },
        },
    }
}

/// The time that counts: `at`, or `now` where no time is given.
pub fn effective_time(at: Option<ClockTime>, now: ClockTime) -> (t: ClockTime)
    ensures
        t.minute_of_day() == effective(at, now),
        t.wf(),
{
    proof {
        use_type_invariant(now);
    }
    match at {
        Some(t) => {
            proof {
                use_type_invariant(t);
            }
            t
        },
        None => now,
    }
}

/// Starts a task called `name`: a new open record, dated `today` and starting at `at`, or at
/// `now` where no time is given, is put in front of the records and handed back. Whether an
/// open task of that name exists already is for the caller to ask first.
pub fn start_task(
    name: String,
    at: Option<ClockTime>,
    now: ClockTime,
    today: &Date,
    tasks: &mut Vec<Task>,
) -> (task: Task)
    ensures
        task@ == opened(
            name@,
            date_text(today.year_of(), today.month_of(), today.day_of()),
            effective(at, now),
        ),
        final(tasks).deep_view() == seq![task@] + old(tasks).deep_view(),
{
    let start = effective_time(at, now);
    let task = Task::new(today.to_text(), name, start.to_hhmm(), None, 0);
    let ghost before = tasks.deep_view();
    tasks.insert(0, task.clone());
    proof {
        assert(tasks.deep_view() =~= seq![task@] + before);
    }
    task
}

/// Ends the task called `name` at `at`, or at `now` where no time is given, and hands back the
/// record that was closed. The records stay as they are where that fails.
pub fn end_task(name: &str, at: Option<ClockTime>, now: ClockTime, tasks: &mut Vec<Task>) -> (r:
    Result<Task, TaskError>)
    ensures
        match r {
            Ok(task) => ended(old(tasks).deep_view(), name@, effective(at, now)) == Ok::<
                (Seq<TaskView>, TaskView),
                TaskError,
            >((final(tasks).deep_view(), task@)),
            Err(e) => ended(old(tasks).deep_view(), name@, effective(at, now)) == Err::<
                (Seq<TaskView>, TaskView),
                TaskError,
            >(e) && final(tasks)@ == old(tasks)@,
        },
{
    let end = effective_time(at, now);
    let i = match find_task(name, tasks, false) {
        Some(i) => i,
        None => {
            return Err(TaskError::TaskNotFound);
        },
    };
    let start = match ClockTime::parse(tasks[i].time_start.as_str()) {
        Ok(t) => t,
        Err(e) => {
            return Err(e);
        },
    };
    let mut closed = tasks[i].clone();
    closed.time_end = Some(end.to_hhmm());
    closed.time_total = duration_between(start, end).1;
    match replace_by_identity(tasks, closed.clone()) {
        Ok(_) => Ok(closed),
        Err(e) => Err(e),
    }
}

/// A task that is started and then ended is stored as ended: the first record then carries its
/// name, the end that was given and, as its total, the minutes from its start to that end, which
/// is the total that its own start and end give. The other records are as they were.
pub proof fn lemma_start_then_end(
    records: Seq<TaskView>,
    name: Seq<char>,
    date: Seq<char>,
    start: int,
    end: int,
)
    requires
        0 <= start < 1440,
        0 <= end < 1440,
    ensures
        ended(seq![opened(name, date, start)] + records, name, end) is Ok,
        ({
            let (after, closed) = ended(seq![opened(name, date, start)] + records, name, end)->Ok_0;
            &&& after == seq![closed] + records
            &&& closed.task_name == name
            &&& closed.date == date
            &&& closed.time_start == hhmm_text(start)
            &&& closed.time_end == Some(hhmm_text(end))
            &&& closed.time_total == end - start
            &&& total_of(closed) == Ok::<int, TaskError>(closed.time_total)
        }),
{
    let fresh = opened(name, date, start);
    let before = seq![fresh] + records;
    lemma_hhmm_round_trip(start);
    lemma_hhmm_round_trip(end);
    assert(before[0] == fresh);
    assert(open_named(name)(before[0]));
    lemma_first_index_is(before, open_named(name), 0);
    let closed = TaskView { time_end: Some(hhmm_text(end)), time_total: end - start, ..fresh };
    assert(with_identity(closed)(before[0]));
    lemma_first_index_is(before, with_identity(closed), 0);
    assert(before.update(0, closed) =~= seq![closed] + records);
}

/// The number of whole days between the dates of two records.
pub fn compare_dates(t1: &Task, t2: &Task) -> (r: Result<i32, TaskError>)
    ensures
        match r {
            Ok(n) => days_between_spec(t1@.date, t2@.date) == Ok::<int, TaskError>(n as int),
            Err(e) => days_between_spec(t1@.date, t2@.date) == Err::<int, TaskError>(e),
        },
{
    days_between(t1.date.as_str(), t2.date.as_str())
}

/// The record of a task that started and ended on one day.
pub open spec fn closed_record(name: Seq<char>, date: Seq<char>, start: int, end: int) -> TaskView {
    TaskView {
        date,
        task_name: name,
        time_start: hhmm_text(start),
        time_end: Some(hhmm_text(end)),
        time_total: end - start,
    }
}

/// The names that sample tasks carry, by number; every number from 7 on gives the last name.
pub open spec fn sample_name(pick: int) -> Seq<char> {
    if pick == 0 {
        "sleeping"@
    } else if pick == 1 {
        "refactoring"@
    } else if pick == 2 {
        "writing software"@
    } else if pick == 3 {
        "fixing bugs"@
    } else if pick == 4 {
        "creating new feature"@
    } else if pick == 5 {
        "debugging"@
    } else if pick == 6 {
        "stuck, pls help"@
    } else {
        "getting coffee"@
    }
}

/// The sample task that the given choices make: it is dated `today`, runs from `start` to `end`
/// and carries the sample name numbered `pick`.
pub fn sample_task(today: &Date, start: ClockTime, end: ClockTime, pick: u32) -> (task: Task)
    ensures
        task@ == closed_record(
            sample_name(pick as int),
            date_text(today.year_of(), today.month_of(), today.day_of()),
            start.minute_of_day(),
            end.minute_of_day(),
        ),
{
    let name: &str = if pick == 0 {
        "sleeping"
    } else if pick == 1 {
        "refactoring"
    } else if pick == 2 {
        "writing software"
    } else if pick == 3 {
        "fixing bugs"
    } else if pick == 4 {
        "creating new feature"
    } else if pick == 5 {
        "debugging"
    } else if pick == 6 {
        "stuck, pls help"
    } else {
        "getting coffee"
    };
    Task::new(
        today.to_text(),
        name.to_owned(),
        start.to_hhmm(),
        Some(end.to_hhmm()),
        duration_between(start, end).1,
    )
}

/// A sample task made by chance: it is dated `today`, starts in the morning between 05:00 and
/// 11:58, ends in the afternoon between 13:00 and 17:58, and carries one of the sample names.
pub fn generate_sample_task(today: &Date) -> (task: Task)
    ensures
        exists|pick: int, start: int, end: int|
            {
                &&& 0 <= pick < 8
                &&& 300 <= start < 720
                &&& 780 <= end < 1080
                &&& task@ == #[trigger] closed_record(
                    sample_name(pick),
                    date_text(today.year_of(), today.month_of(), today.day_of()),
                    start,
                    end,
                )
            },
{
    let start = ClockTime::at(random_in(5, 12) as u8, random_in(0, 59) as u8);
    let end = ClockTime::at(random_in(13, 18) as u8, random_in(0, 59) as u8);
    let pick = random_in(0, 8);
    let task = sample_task(today, start, end, pick);
    proof {
        assert(task@ == closed_record(
            sample_name(pick as int),
            date_text(today.year_of(), today.month_of(), today.day_of()),
            start.minute_of_day(),
            end.minute_of_day(),
        ));
    }
    task
}

/// The record `t` with its start and its end set anew where a new one is given, and its total
/// computed from the two; `InvalidTimeFormat` where the total cannot be computed.
pub open spec fn amended(t: TaskView, start: Option<ClockTime>, end: Option<ClockTime>) -> Result<
    TaskView,
    TaskError,
> {
    let changed = TaskView {
        time_start: match start {
            Some(s) => hhmm_text(s.minute_of_day()),
            None => t.time_start,
        },
        time_end: match end {
            Some(e) => Some(hhmm_text(e.minute_of_day())),
            None => t.time_end,
        },
        ..t
    };
    match total_of(changed) {
        Ok(total) => Ok(TaskView { time_total: total, ..changed }),
        Err(e) => Err(e),
    }
}

/// The records after a task has been set right, and the record as it then stands. The task is
/// chosen by its place `index`, counted from 0, among the records called `name` whose date lies
/// at most `days` days from the day numbered `today`; the amended record takes the place of the
/// first record that is the same task as the chosen one. `InvalidDateFormat` where the date of
/// a record cannot be read; else `TaskNotFound` where there is no such place; else
/// `RecordMismatch` or `InvalidTimeFormat` as the replacement and the amendment give them.
pub open spec fn fixed(
    records: Seq<TaskView>,
    name: Seq<char>,
    today: int,
    days: int,
    index: int,
    start: Option<ClockTime>,
    end: Option<ClockTime>,
) -> Result<(Seq<TaskView>, TaskView), TaskError> {
    match listed_by_date(records, within_days(today, days)) {
        Err(e) => Err(e),
        Ok(near) => {
            let choice = near.filter(named(name));
            if !(0 <= index < choice.len()) {
                Err(TaskError::TaskNotFound)
            } else {
                match first_index(records, with_identity(choice[index])) {
                    None => Err(TaskError::RecordMismatch),
                    Some(i) => match amended(choice[index], start, end) {
                        Ok(changed) => Ok((records.update(i, changed), changed)),
                        Err(e) => Err(e),
                    },
                }
            }
        },
    }
}

/// Sets a task right: gives it a new start, a new end, or both, and computes its total anew.
/// The records stay as they are where that fails.
pub fn fix_task(
    name: &str,
    days: i32,
    today: &Date,
    index: usize,
    start: Option<ClockTime>,
    end: Option<ClockTime>,
    tasks: &mut Vec<Task>,
) -> (r: Result<Task, TaskError>)
    ensures
        match r {
            Ok(task) => fixed(
                old(tasks).deep_view(),
                name@,
                today.number(),
                days as int,
                index as int,
                start,
                end,
            ) == Ok::<(Seq<TaskView>, TaskView), TaskError>((final(tasks).deep_view(), task@)),
            Err(e) => fixed(
                old(tasks).deep_view(),
                name@,
                today.number(),
                days as int,
                index as int,
                start,
                end,
            ) == Err::<(Seq<TaskView>, TaskView), TaskError>(e) && final(tasks)@ == old(tasks)@,
        },
{
    let near = match read_tasks_from_day_range(days, tasks, today) {
        Ok(near) => near,
        Err(e) => {
            return Err(e);
        },
    };
    let choice = get_tasks_by_name(name.to_owned(), &near);
    if index >= choice.len() {
        return Err(TaskError::TaskNotFound);
    }
    let i = match find_identity(tasks, &choice[index]) {
        Some(i) => i,
        None => {
            return Err(TaskError::RecordMismatch);
        },
    };
    let mut changed = choice[index].clone();
    match start {
        Some(s) => {
            changed.time_start = s.to_hhmm();
        },
        None => {},
    }
    match end {
        Some(e) => {
            changed.time_end = Some(e.to_hhmm());
        },
        None => {},
    }
    match changed.computed_total() {
        Ok(total) => {
            changed.time_total = total;
        },
        Err(e) => {
            return Err(e);
        },
    }
    let ghost before = tasks.deep_view();
    tasks.set(i, changed.clone());
    proof {
        assert(tasks.deep_view() =~= before.update(i as int, changed@));
    }
    Ok(changed)
}

/// What a caller answers when asked whether to go on.
#[derive(Clone, Copy, Debug, PartialEq, Eq, Structural)]
pub enum Answer {
    /// Go on.
    Yes,
    /// Do not go on.
    No,
    /// Neither of the two.
    Unclear,
}

/// The answer that a reply stands for: `y` and `yes` say yes, `n` and `no` say no.
pub open spec fn answer_of(reply: Seq<char>) -> Answer {
    if reply == "y"@ || reply == "yes"@ {
        Answer::Yes
    } else if reply == "n"@ || reply == "no"@ {
        Answer::No
    } else {
        Answer::Unclear
    }
}

/// Reads the answer that a reply stands for.
pub fn read_answer(reply: &str) -> (r: Answer)
    ensures
        r == answer_of(reply@),
{
    if same_text(reply, "y") || same_text(reply, "yes") {
        Answer::Yes
    } else if same_text(reply, "n") || same_text(reply, "no") {
        Answer::No
    } else {
        Answer::Unclear
    }
}

/// A task that has been ended carries the name it was asked for by, the end that was given
/// and the total that its own start and end give; the records are as many as before.
pub proof fn lemma_ended_total(records: Seq<TaskView>, name: Seq<char>, minute: int)
    requires
        0 <= minute < 1440,
        ended(records, name, minute) is Ok,
    ensures
        ({
            let (after, closed) = ended(records, name, minute)->Ok_0;
            &&& closed.task_name == name
            &&& closed.time_end == Some(hhmm_text(minute))
            &&& total_of(closed) == Ok::<int, TaskError>(closed.time_total)
            &&& after.len() == records.len()
            &&& after.contains(closed)
        }),
{
    lemma_first_index(records, open_named(name));
    let i = first_index(records, open_named(name))->0;
    let start = hhmm_value(records[i].time_start)->0;
    let closed = TaskView {
        time_end: Some(hhmm_text(minute)),
        time_total: minute - start,
        ..records[i]
    };
    lemma_hhmm_round_trip(minute);
    lemma_first_index(records, with_identity(closed));
    let j = first_index(records, with_identity(closed))->0;
    assert(records.update(j, closed)[j] == closed);
}

/// A task that has been set right carries the total that its own start and end give.
pub proof fn lemma_amended_total(t: TaskView, start: Option<ClockTime>, end: Option<ClockTime>)
    requires
        amended(t, start, end) is Ok,
    ensures
        total_of(amended(t, start, end)->Ok_0) == Ok::<int, TaskError>(
            amended(t, start, end)->Ok_0.time_total,
        ),
{
}

} // verus!
