//! The store of task records: a text of one record per line, the newest first.
//!
//! Every line that is written ends in a line feed. A line that is read may end in a carriage
//! return and a line feed, the last line may lack its end, and empty lines hold no record.

use vstd::prelude::*;
use vstd::string::StringExecFns;
use crate::error::TaskError;
use crate::codec::{decode_line, lemma_record_text_ends, record_text};
use crate::task::{same_identity, total_of, Task, TaskView};
use crate::text::{lemma_lines_append, lines_of, split_lines, whole_lines};

verus! {

/// The place of the first of `records` of which `wanted` holds.
pub open spec fn first_index(records: Seq<TaskView>, wanted: spec_fn(TaskView) -> bool) -> Option<
    int,
>
    decreases records.len(),
{
    if records.len() == 0 {
        None
    } else if wanted(records[0]) {
        Some(0)
    } else {
        match first_index(records.drop_first(), wanted) {
            Some(i) => Some(i + 1),
            None => None,
        }
    }
}

/// The first index is the place of a record of which `wanted` holds, with none before it.
pub proof fn lemma_first_index(records: Seq<TaskView>, wanted: spec_fn(TaskView) -> bool)
    ensures
        match first_index(records, wanted) {
            Some(i) => {
                &&& 0 <= i < records.len()
                &&& wanted(records[i])
                &&& forall|j: int| 0 <= j < i ==> !wanted(#[trigger] records[j])
            },
            None => forall|j: int| 0 <= j < records.len() ==> !wanted(#[trigger] records[j]),
        },
    decreases records.len(),
{
    if records.len() > 0 && !wanted(records[0]) {
        let rest = records.drop_first();
        lemma_first_index(rest, wanted);
        match first_index(rest, wanted) {
            Some(i) => {
                assert forall|j: int| 0 <= j < i + 1 implies !wanted(#[trigger] records[j]) by {
                    if j > 0 {
                        assert(records[j] == rest[j - 1]);
                    }
                }
            },
            None => {
                assert forall|j: int| 0 <= j < records.len() implies !wanted(
                    #[trigger] records[j],
                ) by {
                    if j > 0 {
                        assert(records[j] == rest[j - 1]);
                    }
                }
            },
        }
    }
}

/// A place that holds a record of which `wanted` holds, with none before it, is the first index.
pub proof fn lemma_first_index_is(
    records: Seq<TaskView>,
    wanted: spec_fn(TaskView) -> bool,
    i: int,
)
    requires
        0 <= i < records.len(),
        wanted(records[i]),
        forall|j: int| 0 <= j < i ==> !wanted(#[trigger] records[j]),
    ensures
        first_index(records, wanted) == Some(i),
{
    lemma_first_index(records, wanted);
}

/// No record of which `wanted` holds means no first index.
pub proof fn lemma_first_index_none(records: Seq<TaskView>, wanted: spec_fn(TaskView) -> bool)
    requires
        forall|j: int| 0 <= j < records.len() ==> !wanted(#[trigger] records[j]),
    ensures
        first_index(records, wanted) is None,
{
    lemma_first_index(records, wanted);
}

/// Filtering a sequence with one more item at its end keeps that item or not, and leaves the
/// rest of the outcome as it was.
pub proof fn lemma_filter_push<A>(s: Seq<A>, x: A, keep: spec_fn(A) -> bool)
    ensures
        s.push(x).filter(keep) == if keep(x) {
            s.filter(keep).push(x)
        } else {
            s.filter(keep)
        },
{
    reveal(Seq::filter);
    assert(s.push(x).drop_last() =~= s);
}

/// Filtering the empty sequence leaves it empty.
pub proof fn lemma_filter_empty<A>(keep: spec_fn(A) -> bool)
    ensures
        Seq::<A>::empty().filter(keep) == Seq::<A>::empty(),
{
    reveal(Seq::filter);
}

/// Filtering a sequence whose items are all kept leaves it as it is.
pub proof fn lemma_filter_all<A>(s: Seq<A>, keep: spec_fn(A) -> bool)
    requires
        forall|i: int| 0 <= i < s.len() ==> keep(#[trigger] s[i]),
    ensures
        s.filter(keep) == s,
    decreases s.len(),
{
    if s.len() == 0 {
        lemma_filter_empty(keep);
        assert(s =~= Seq::<A>::empty());
    } else {
        lemma_filter_all(s.drop_last(), keep);
        lemma_filter_push(s.drop_last(), s.last(), keep);
        assert(s.drop_last().push(s.last()) =~= s);
    }
}

/// Whether a line of the store holds a record: an empty line holds none.
pub open spec fn holds_record(line: Seq<char>) -> bool {
    line.len() > 0
}

/// The records that the text of a store holds, in the order of its lines: each line that is not
/// empty is one record. One line that stands for no task makes the whole store corrupt.
pub open spec fn records_of(content: Seq<char>) -> Result<Seq<TaskView>, TaskError> {
    let lines = lines_of(content).filter(|line: Seq<char>| holds_record(line));
    if forall|i: int| 0 <= i < lines.len() ==> (#[trigger] decode_line(lines[i])) is Ok {
        Ok(lines.map_values(|line: Seq<char>| decode_line(line)->Ok_0))
    } else {
        Err(TaskError::CorruptRecord)
    }
}

/// The text of a store that holds `records`, in their order: one line for each.
pub open spec fn store_text(records: Seq<TaskView>) -> Seq<char>
    decreases records.len(),
{
    if records.len() == 0 {
        Seq::empty()
    } else {
        store_text(records.drop_last()) + record_text(records.last()).push('\n')
    }
}

/// Reads all the records of a store from its text.
pub fn read_all_tasks(content: &str) -> (r: Result<Vec<Task>, TaskError>)
    ensures
        match r {
            Ok(tasks) => records_of(content@) == Ok::<Seq<TaskView>, TaskError>(tasks.deep_view()),
            Err(e) => records_of(content@) == Err::<Seq<TaskView>, TaskError>(e),
        },
{
    let lines = split_lines(content);
    let mut tasks: Vec<Task> = Vec::new();
    let ghost all = lines.deep_view();
    let ghost keep = |line: Seq<char>| holds_record(line);
    let ghost decode = |line: Seq<char>| decode_line(line)->Ok_0;
    let mut i: usize = 0;
    proof {
        assert(all.take(0) =~= Seq::<Seq<char>>::empty());
        lemma_filter_empty(keep);
        assert(tasks.deep_view() =~= all.take(0).filter(keep).map_values(decode));
    }
    while i < lines.len()
        invariant
            i <= lines.len(),
            all == lines.deep_view(),
            all == lines_of(content@),
            keep == (|line: Seq<char>| holds_record(line)),
            decode == (|line: Seq<char>| decode_line(line)->Ok_0),
            tasks.deep_view() == all.take(i as int).filter(keep).map_values(decode),
            forall|j: int|
                0 <= j < all.take(i as int).filter(keep).len() ==> (#[trigger] decode_line(
                    all.take(i as int).filter(keep)[j],
                )) is Ok,
        decreases lines.len() - i,
    {
        let ghost before = all.take(i as int).filter(keep);
        let ghost line = all[i as int];
        proof {
            assert(all.take(i + 1) =~= all.take(i as int).push(line));
            lemma_filter_push(all.take(i as int), line, keep);
            assert(line == lines[i as int]@);
        }
        if !lines[i].as_str().is_empty() {
            match Task::task_from_string(lines[i].clone()) {
                Ok(task) => {
                    let ghost earlier = tasks.deep_view();
                    tasks.push(task);
                    proof {
                        assert(all.take(i + 1).filter(keep) =~= before.push(line));
                        assert(tasks.deep_view() =~= earlier.push(task@));
                        assert(before.push(line).map_values(decode) =~= before.map_values(
                            decode,
                        ).push(task@));
                    }
                },
                Err(e) => {
                    proof {
                        let kept = all.filter(keep);
                        assert(all.take(i + 1).filter(keep) =~= before.push(line));
                        assert(all =~= all.take(i + 1) + all.skip(i + 1));
                        Seq::filter_distributes_over_add(all.take(i + 1), all.skip(i + 1), keep);
                        assert(kept[before.len() as int] == line);
                        assert(!(decode_line(kept[before.len() as int]) is Ok));
                    }
                    return Err(e);
                },
            }
        } else {
            proof {
                assert(all.take(i + 1).filter(keep) =~= before);
            }
        }
        i += 1;
    }
    proof {
        assert(all.take(i as int) =~= all);
    }
    Ok(tasks)
}

/// The lines that the records are written as, in their order.
pub open spec fn record_lines(records: Seq<TaskView>) -> Seq<Seq<char>> {
    records.map_values(|t: TaskView| record_text(t))
}

/// Writes all the records of a store as its text: one line for each record, and no line more.
pub fn write_all_tasks(tasks: &Vec<Task>) -> (content: String)
    ensures
        content@ == store_text(tasks.deep_view()),
        lines_of(content@) == record_lines(tasks.deep_view()),
{
    let mut content = String::new();
    let ghost all = tasks.deep_view();
    let mut i: usize = 0;
    proof {
        assert(all.take(0) =~= Seq::<TaskView>::empty());
        assert(lines_of(content@) =~= record_lines(all.take(0)));
    }
    while i < tasks.len()
        invariant
            i <= tasks.len(),
            all == tasks.deep_view(),
            content@ == store_text(all.take(i as int)),
            lines_of(content@) == record_lines(all.take(i as int)),
            whole_lines(content@),
        decreases tasks.len() - i,
    {
        let line = tasks[i].clone().to_json_string();
        let ghost before = content@;
        let ghost written = record_text(all[i as int]);
        content.append(line.as_str());
        proof {
            assert(all.take(i + 1).drop_last() =~= all.take(i as int));
            assert(all.take(i + 1).last() == tasks[i as int]@);
            lemma_lines_append(before, written);
            lemma_record_text_ends(all[i as int]);
            assert(record_lines(all.take(i + 1)) =~= record_lines(all.take(i as int)).push(
                written,
            ));
        }
        i += 1;
    }
    proof {
        assert(all.take(i as int) =~= all);
    }
    content
}

/// The text of a store with `data` put in front of what it held.
pub fn prepend_file(data: &str, content: &str) -> (r: String)
    ensures
        r@ == data@ + content@,
{
    let mut r = String::new();
    r.append(data);
    r.append(content);
    proof {
        assert(r@ =~= data@ + content@);
    }
    r
}

/// The text of a store with the line of `t` put in front of what it held.
pub fn output_task_to_file(t: Task, content: &str) -> (r: String)
    ensures
        r@ == record_text(t@).push('\n') + content@,
{
    let line = t.to_json_string();
    prepend_file(line.as_str(), content)
}

/// Putting a record in front of the others puts its line in front of their text.
pub proof fn lemma_store_text_prepend(t: TaskView, records: Seq<TaskView>)
    ensures
        store_text(seq![t] + records) == record_text(t).push('\n') + store_text(records),
    decreases records.len(),
{
    let all = seq![t] + records;
    if records.len() == 0 {
        assert(all.drop_last() =~= Seq::<TaskView>::empty());
        assert(store_text(Seq::<TaskView>::empty()) =~= Seq::<char>::empty());
        assert(all.last() == t);
        assert(store_text(all) =~= record_text(t).push('\n') + store_text(records));
    } else {
        lemma_store_text_prepend(t, records.drop_last());
        assert(all.drop_last() =~= seq![t] + records.drop_last());
        assert(all.last() == records.last());
        assert(store_text(all) =~= record_text(t).push('\n') + store_text(records));
    }
}

/// The test for the records that are the same task as `task`.
pub open spec fn with_identity(task: TaskView) -> spec_fn(TaskView) -> bool {
    |t: TaskView| same_identity(t, task)
}

/// The records with `task` in the place of the first record that is the same task;
/// `RecordMismatch` where no record is.
pub open spec fn replaced(records: Seq<TaskView>, task: TaskView) -> Result<
    Seq<TaskView>,
    TaskError,
> {
    match first_index(records, with_identity(task)) {
        Some(i) => Ok(records.update(i, task)),
        None => Err(TaskError::RecordMismatch),
    }
}

/// The records after an update with `task`: the first record that is the same task gives way to
/// `task`, with its total computed anew from its start and end. `RecordMismatch` where no
/// record is the same task; else `InvalidTimeFormat` where the total cannot be computed.
pub open spec fn updated(records: Seq<TaskView>, task: TaskView) -> Result<
    Seq<TaskView>,
    TaskError,
> {
    match first_index(records, with_identity(task)) {
        None => Err(TaskError::RecordMismatch),
        Some(i) => match total_of(task) {
            Ok(total) => Ok(records.update(i, TaskView { time_total: total, ..task })),
            Err(e) => Err(e),
        },
    }
}

/// The text of a store after an update with `task`; the failure of reading the store or of the
/// update where there is one.
pub open spec fn updated_text(content: Seq<char>, task: TaskView) -> Result<Seq<char>, TaskError> {
    match records_of(content) {
        Ok(records) => match updated(records, task) {
            Ok(after) => Ok(store_text(after)),
            Err(e) => Err(e),
        },
        Err(e) => Err(e),
    }
}

/// The place of the first record that is the same task as `task`.
pub fn find_identity(tasks: &Vec<Task>, task: &Task) -> (r: Option<usize>)
    ensures
        match r {
            Some(i) => i < tasks.len() && first_index(tasks.deep_view(), with_identity(task@))
                == Some(i as int),
            None => first_index(tasks.deep_view(), with_identity(task@)) is None,
        },
{
    let ghost wanted = with_identity(task@);
    let mut i: usize = 0;
    while i < tasks.len()
        invariant
            i <= tasks.len(),
            wanted == with_identity(task@),
            forall|j: int| 0 <= j < i ==> !wanted(#[trigger] tasks.deep_view()[j]),
        decreases tasks.len() - i,
    {
        if tasks[i].same_identity(task) {
            proof {
                assert(wanted(tasks.deep_view()[i as int]));
                lemma_first_index_is(tasks.deep_view(), wanted, i as int);
            }
            return Some(i);
        }
        i += 1;
    }
    proof {
        lemma_first_index_none(tasks.deep_view(), wanted);
    }
    None
}

/// Puts `task` in the place of the first record that is the same task, and leaves the records
/// as they are where none is.
pub fn replace_by_identity(tasks: &mut Vec<Task>, task: Task) -> (r: Result<(), TaskError>)
    ensures
        match r {
            Ok(_) => replaced(old(tasks).deep_view(), task@) == Ok::<Seq<TaskView>, TaskError>(
                final(tasks).deep_view(),
            ),
            Err(e) => replaced(old(tasks).deep_view(), task@) == Err::<Seq<TaskView>, TaskError>(e)
                && final(tasks)@ == old(tasks)@,
        },
{
    match find_identity(tasks, &task) {
        Some(i) => {
            let ghost before = tasks.deep_view();
            tasks.set(i, task);
            proof {
                assert(tasks.deep_view() =~= before.update(i as int, task@));
            }
            Ok(())
        },
        None => Err(TaskError::RecordMismatch),
    }
}

/// Updates the records with `task`: its total is computed anew from its start and end, and it
/// takes the place of the first record that is the same task. The records stay as they are
/// where that fails.
pub fn update_task(mut task: Task, tasks: &mut Vec<Task>) -> (r: Result<(), TaskError>)
    ensures
        match r {
            Ok(_) => updated(old(tasks).deep_view(), task@) == Ok::<Seq<TaskView>, TaskError>(
                final(tasks).deep_view(),
            ),
            Err(e) => updated(old(tasks).deep_view(), task@) == Err::<Seq<TaskView>, TaskError>(e)
                && final(tasks)@ == old(tasks)@,
        },
{
    let ghost given = task@;
    match find_identity(tasks, &task) {
        None => Err(TaskError::RecordMismatch),
        Some(_) => match task.computed_total() {
            Ok(total) => {
                task.time_total = total;
                proof {
                    assert(with_identity(task@) =~= with_identity(given));
                }
                replace_by_identity(tasks, task)
            },
            Err(e) => Err(e),
        },
    }
}

/// The text of a store after an update with `task`.
pub fn update_task_in_file(task: Task, content: &str) -> (r: Result<String, TaskError>)
    ensures
        match r {
            Ok(text) => updated_text(content@, task@) == Ok::<Seq<char>, TaskError>(text@),
            Err(e) => updated_text(content@, task@) == Err::<Seq<char>, TaskError>(e),
        },
{
    let mut tasks = match read_all_tasks(content) {
        Ok(tasks) => tasks,
        Err(e) => {
            return Err(e);
        },
    };
    match update_task(task, &mut tasks) {
        Ok(_) => Ok(write_all_tasks(&tasks)),
        Err(e) => Err(e),
    }
}

/// A replacement under an identity that no record has fails and changes nothing; one under an
/// identity that a record has succeeds, keeps the number of records and changes one of them
/// only.
pub proof fn lemma_replaced(records: Seq<TaskView>, task: TaskView)
    ensures
        (forall|j: int| 0 <= j < records.len() ==> !same_identity(#[trigger] records[j], task))
            ==> replaced(records, task) == Err::<Seq<TaskView>, TaskError>(
            TaskError::RecordMismatch,
        ),
        (exists|j: int| 0 <= j < records.len() && same_identity(#[trigger] records[j], task))
            ==> replaced(records, task) is Ok && replaced(records, task)->Ok_0.len()
            == records.len(),
{
    lemma_first_index(records, with_identity(task));
    if exists|j: int| 0 <= j < records.len() && same_identity(#[trigger] records[j], task) {
        let j = choose|j: int| 0 <= j < records.len() && same_identity(#[trigger] records[j], task);
        assert(with_identity(task)(records[j]));
    }
    if forall|j: int| 0 <= j < records.len() ==> !same_identity(#[trigger] records[j], task) {
        if first_index(records, with_identity(task)) is Some {
            let i = first_index(records, with_identity(task))->0;
            assert(same_identity(records[i], task));
        }
    }
}

/// After an update the record that was put in carries the total that its own start and end
/// give, and the records are as many as before.
pub proof fn lemma_updated_total(records: Seq<TaskView>, task: TaskView)
    requires
        updated(records, task) is Ok,
    ensures
        ({
            let after = updated(records, task)->Ok_0;
            let i = first_index(records, with_identity(task))->0;
            &&& after.len() == records.len()
            &&& 0 <= i < records.len()
            &&& same_identity(after[i], task)
            &&& total_of(after[i]) == Ok::<int, TaskError>(after[i].time_total)
            &&& forall|j: int| 0 <= j < records.len() && j != i ==> after[j] == records[j]
        }),
{
    lemma_first_index(records, with_identity(task));
}

/// A store whose lines are the lines that `records` are written as holds those records, where
/// each of the lines stands for the record it was written for.
pub proof fn lemma_records_of_lines(content: Seq<char>, records: Seq<TaskView>)
    ensures
        lines_of(content) == record_lines(records) && (forall|i: int|
            0 <= i < records.len() ==> decode_line(record_text(#[trigger] records[i])) == Ok::<
                TaskView,
                TaskError,
            >(records[i])) ==> records_of(content) == Ok::<Seq<TaskView>, TaskError>(records),
{
    if lines_of(content) == record_lines(records) && (forall|i: int|
        0 <= i < records.len() ==> decode_line(record_text(#[trigger] records[i])) == Ok::<
            TaskView,
            TaskError,
        >(records[i])) {
        let lines = lines_of(content);
        let keep = |line: Seq<char>| holds_record(line);
        assert forall|i: int| 0 <= i < lines.len() implies keep(#[trigger] lines[i]) by {
            lemma_record_text_ends(records[i]);
        }
        lemma_filter_all(lines, keep);
        assert forall|i: int| 0 <= i < lines.len() implies (#[trigger] decode_line(lines[i]))
            == Ok::<TaskView, TaskError>(records[i]) by {
            assert(lines[i] == record_text(records[i]));
        }
        assert(lines.map_values(|line: Seq<char>| decode_line(line)->Ok_0) =~= records);
    }
}

} // verus!
