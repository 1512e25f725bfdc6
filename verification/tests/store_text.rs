use timr::error::TaskError;
use timr::store::{
    find_identity, output_task_to_file, prepend_file, read_all_tasks, replace_by_identity,
    update_task, update_task_in_file, write_all_tasks,
};
use timr::task::Task;
use timr::text::split_lines;

fn task(date: &str, name: &str, start: &str, end: Option<&str>, total: i64) -> Task {
    Task::new(
        date.to_string(),
        name.to_string(),
        start.to_string(),
        end.map(|e| e.to_string()),
        total,
    )
}

fn three() -> Vec<Task> {
    vec![
        task("2023-09-08", "debugging", "0900", None, 0),
        task("2023-09-07", "test", "0800", Some("1200"), 240),
        task("2023-09-07", "debugging", "0900", Some("1000"), 60),
    ]
}

#[test]
fn lines_end_at_line_feeds() {
    assert_eq!(split_lines(""), Vec::<String>::new());
    assert_eq!(split_lines("a"), vec!["a"]);
    assert_eq!(split_lines("a\n"), vec!["a"]);
    assert_eq!(split_lines("a\nb"), vec!["a", "b"]);
    assert_eq!(split_lines("a\r\nb\r\n"), vec!["a", "b"]);
    assert_eq!(split_lines("\n"), vec![""]);
    assert_eq!(split_lines("\n\na\n\n"), vec!["", "", "a", ""]);
    assert_eq!(split_lines("a\rb\n"), vec!["a\rb"]);
    assert_eq!(split_lines("a\r\r\n"), vec!["a\r"]);
    assert_eq!(split_lines("\r\n\r"), vec!["", "\r"]);
    assert_eq!(split_lines("a\r"), vec!["a\r"]);
    assert_eq!(split_lines("caf\u{e9}\n\u{1f600}"), vec!["caf\u{e9}", "\u{1f600}"]);
}

#[test]
fn lines_are_those_of_the_standard_library() {
    for text in [
        "", "a", "a\n", "a\nb", "a\r\nb\r\n", "\n", "\n\na\n\n", "a\rb\n", "\r\n", "x\n\r\ny", "\r",
        "a\r", "a\n\r", "a\r\n\r", "\r\r\n", "a\n\nb\r", "\u{e9}\r\n\u{1f600}\r",
    ] {
        let expected: Vec<String> = text.lines().map(String::from).collect();
        assert_eq!(split_lines(text), expected, "{:?}", text);
    }
}

#[test]
fn a_store_is_written_one_line_for_each_record() {
    assert_eq!(write_all_tasks(&Vec::new()), "");
    assert_eq!(
        write_all_tasks(&three()),
        "{\"date\":\"2023-09-08\",\"task_name\":\"debugging\",\"time_start\":\"0900\",\"time_end\":null,\"time_total\":0}\n\
         {\"date\":\"2023-09-07\",\"task_name\":\"test\",\"time_start\":\"0800\",\"time_end\":\"1200\",\"time_total\":240}\n\
         {\"date\":\"2023-09-07\",\"task_name\":\"debugging\",\"time_start\":\"0900\",\"time_end\":\"1000\",\"time_total\":60}\n"
    );
}

#[test]
fn a_store_is_read_as_it_was_written() {
    assert_eq!(read_all_tasks(""), Ok(Vec::new()));
    let text = write_all_tasks(&three());
    assert_eq!(read_all_tasks(&text), Ok(three()));
    assert_eq!(read_all_tasks(text.trim_end()), Ok(three()));
    assert_eq!(read_all_tasks(&text.replace('\n', "\r\n")), Ok(three()));
    assert_eq!(read_all_tasks(&text.replace('\n', "\n\n")), Ok(three()));
    assert_eq!(read_all_tasks(&format!("\n\r\n{}", text)), Ok(three()));
}

#[test]
fn one_corrupt_line_makes_the_store_corrupt() {
    let text = write_all_tasks(&three());
    assert_eq!(read_all_tasks(&format!("{}not a record\n", text)), Err(TaskError::CorruptRecord));
    assert_eq!(read_all_tasks(&format!("{{}}\n{}", text)), Err(TaskError::CorruptRecord));
    assert_eq!(read_all_tasks(&text[..text.len() - 3]), Err(TaskError::CorruptRecord));
    assert_eq!(read_all_tasks(" \n"), Err(TaskError::CorruptRecord));
}

#[test]
fn new_text_goes_in_front_of_the_old() {
    assert_eq!(prepend_file("new\n", "old\n"), "new\nold\n");
    assert_eq!(prepend_file("", "old"), "old");
    assert_eq!(prepend_file("new", ""), "new");
    assert_eq!(prepend_file(" this is not json ", "nor this"), " this is not json nor this");
}

#[test]
fn a_new_record_goes_in_front_of_the_store() {
    let old = write_all_tasks(&three());
    let fresh = task("2023-09-09", "getting coffee", "1000", None, 0);
    let new = output_task_to_file(fresh.clone(), &old);
    let mut expected = three();
    expected.insert(0, fresh.clone());
    assert_eq!(read_all_tasks(&new), Ok(expected.clone()));
    assert_eq!(new, write_all_tasks(&expected));
    assert_eq!(new, format!("{}{}", fresh.to_json_string(), old));
}

#[test]
fn replacing_under_an_identity_that_is_not_stored_changes_nothing() {
    for stranger in [
        task("2023-09-08", "debugging", "0901", Some("1000"), 59),
        task("2023-09-09", "debugging", "0900", Some("1000"), 60),
        task("2023-09-08", "Debugging", "0900", Some("1000"), 60),
        task("", "", "", None, 0),
    ] {
        let mut tasks = three();
        assert_eq!(find_identity(&tasks, &stranger), None);
        assert_eq!(replace_by_identity(&mut tasks, stranger.clone()), Err(TaskError::RecordMismatch));
        assert_eq!(tasks, three());
        assert_eq!(update_task(stranger.clone(), &mut tasks), Err(TaskError::RecordMismatch));
        assert_eq!(tasks, three());
        let text = write_all_tasks(&three());
        assert_eq!(update_task_in_file(stranger, &text), Err(TaskError::RecordMismatch));
    }
    let mut none: Vec<Task> = Vec::new();
    let any = task("2023-09-08", "debugging", "0900", None, 0);
    assert_eq!(replace_by_identity(&mut none, any), Err(TaskError::RecordMismatch));
    assert!(none.is_empty());
}

#[test]
fn replacing_puts_the_task_in_the_place_of_the_first_record_of_its_identity() {
    let mut tasks = three();
    tasks.push(task("2023-09-08", "debugging", "0900", Some("0930"), 30));
    let closed = task("2023-09-08", "debugging", "0900", Some("1730"), 7);
    assert_eq!(find_identity(&tasks, &closed), Some(0));
    assert_eq!(replace_by_identity(&mut tasks, closed.clone()), Ok(()));
    let mut expected = three();
    expected.push(task("2023-09-08", "debugging", "0900", Some("0930"), 30));
    expected[0] = closed;
    assert_eq!(tasks, expected);

    let mut tasks = three();
    let last = task("2023-09-07", "debugging", "0900", None, 0);
    assert_eq!(find_identity(&tasks, &last), Some(2));
    assert_eq!(replace_by_identity(&mut tasks, last.clone()), Ok(()));
    assert_eq!(tasks[2], last);
    assert_eq!(tasks[..2], three()[..2]);
}

#[test]
fn an_update_computes_the_total_anew() {
    let mut tasks = three();
    let stale = task("2023-09-08", "debugging", "0900", Some("1730"), -12345);
    assert_eq!(update_task(stale.clone(), &mut tasks), Ok(()));
    assert_eq!(tasks[0], task("2023-09-08", "debugging", "0900", Some("1730"), 510));
    assert_eq!(tasks[1..], three()[1..]);

    let reopened = task("2023-09-07", "test", "0800", None, 240);
    assert_eq!(update_task(reopened, &mut tasks), Ok(()));
    assert_eq!(tasks[1], task("2023-09-07", "test", "0800", None, 0));

    let text = write_all_tasks(&three());
    let after = update_task_in_file(stale, &text).unwrap();
    let mut expected = three();
    expected[0] = task("2023-09-08", "debugging", "0900", Some("1730"), 510);
    assert_eq!(after, write_all_tasks(&expected));
}

#[test]
fn an_update_reports_what_stops_it() {
    let mut tasks = three();
    let bad_end = task("2023-09-08", "debugging", "0900", Some("17:30"), 0);
    assert_eq!(update_task(bad_end.clone(), &mut tasks), Err(TaskError::InvalidTimeFormat));
    assert_eq!(tasks, three());
    let text = write_all_tasks(&three());
    assert_eq!(update_task_in_file(bad_end.clone(), &text), Err(TaskError::InvalidTimeFormat));
    assert_eq!(
        update_task_in_file(bad_end, &format!("{}oops\n", text)),
        Err(TaskError::CorruptRecord)
    );
    let missing = task("2023-09-08", "nothing", "0900", Some("17:30"), 0);
    assert_eq!(update_task_in_file(missing, &text), Err(TaskError::RecordMismatch));
}
