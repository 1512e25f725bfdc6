use timr::calendar::Date;
use timr::clock::ClockTime;
use timr::error::TaskError;
use timr::service::{
    check_if_task_exists, end_task, find_task, fix_task, generate_sample_task, get_task,
    get_tasks_by_name, list_by_date, list_for_date, read_answer, read_incomplete_tasks,
    read_tasks_from_day_range, read_tasks_this_week, sample_task, start_task, Answer, DateRule,
};
use timr::system::{get_date, get_time, monday_of_current_iso_week, now, today};
use timr::task::Task;

fn task(date: &str, name: &str, start: &str, end: Option<&str>, total: i64) -> Task {
    Task::new(
        date.to_string(),
        name.to_string(),
        start.to_string(),
        end.map(|e| e.to_string()),
        total,
    )
}

fn three() -> Vec<Task> {
    vec![
        task("2023-09-08", "debugging", "0900", None, 0),
        task("2023-09-07", "test", "0800", Some("1200"), 240),
        task("2023-09-07", "debugging", "0900", Some("1000"), 60),
    ]
}

fn at(hour: u8, minute: u8) -> ClockTime {
    ClockTime::new(hour, minute).unwrap()
}

fn day(year: u16, month: u8, day: u8) -> Date {
    Date::new(year, month, day).unwrap()
}

#[test]
fn an_open_task_of_a_name_is_found() {
    assert!(check_if_task_exists("debugging".to_string(), &three()));
    assert!(!check_if_task_exists("test".to_string(), &three()));
    assert!(!check_if_task_exists("nothing".to_string(), &three()));
    assert!(!check_if_task_exists("debugging".to_string(), &Vec::new()));
}

#[test]
fn the_first_record_of_a_name_is_handed_out() {
    assert_eq!(get_task("debugging", &three(), true), Some(three()[0].clone()));
    assert_eq!(get_task("debugging", &three(), false), Some(three()[0].clone()));
    assert_eq!(get_task("test", &three(), true), Some(three()[1].clone()));
    assert_eq!(get_task("test", &three(), false), None);
    assert_eq!(get_task("nothing", &three(), true), None);
    assert_eq!(find_task("debugging", &three(), true), Some(0));
    assert_eq!(find_task("test", &three(), true), Some(1));
    let mut tasks = three();
    tasks[0].time_end = Some("0930".to_string());
    tasks.push(task("2023-09-01", "debugging", "0700", None, 0));
    assert_eq!(get_task("debugging", &tasks, true), Some(tasks[0].clone()));
    assert_eq!(get_task("debugging", &tasks, false), Some(tasks[3].clone()));
    assert_eq!(find_task("debugging", &tasks, false), Some(3));
}

#[test]
fn records_are_listed_by_name_and_by_being_open() {
    assert_eq!(
        get_tasks_by_name("debugging".to_string(), &three()),
        vec![three()[0].clone(), three()[2].clone()]
    );
    assert_eq!(get_tasks_by_name("nothing".to_string(), &three()), Vec::new());
    assert_eq!(read_incomplete_tasks(&three()), vec![three()[0].clone()]);
    assert_eq!(read_incomplete_tasks(&Vec::new()), Vec::new());
}

#[test]
fn a_task_dated_today_is_listed_and_one_of_eight_days_ago_is_not() {
    let today = today().unwrap();
    let mut earlier = today;
    for _ in 0..8 {
        earlier = earlier.previous_day().unwrap();
    }
    let mut tasks: Vec<Task> = Vec::new();
    let fresh = start_task("debugging".to_string(), None, now(), &today, &mut tasks);
    assert_eq!(read_tasks_from_day_range(0, &tasks, &today), Ok(vec![fresh.clone()]));
    let old = start_task("sleeping".to_string(), Some(at(1, 0)), now(), &earlier, &mut tasks);
    assert_eq!(tasks, vec![old.clone(), fresh.clone()]);
    assert_eq!(read_tasks_from_day_range(0, &tasks, &today), Ok(vec![fresh.clone()]));
    assert_eq!(read_tasks_from_day_range(7, &tasks, &today), Ok(vec![fresh.clone()]));
    assert_eq!(read_tasks_from_day_range(8, &tasks, &today), Ok(vec![old, fresh]));
}

#[test]
fn a_range_of_days_reaches_both_ways() {
    let tasks = vec![
        task("2023-09-10", "after", "0900", None, 0),
        task("2023-9-8", "today", "0900", None, 0),
        task("", "undated", "0900", None, 0),
        task("2023-09-06", "before", "0900", None, 0),
        task("2023-09-01", "long before", "0900", None, 0),
    ];
    let today = day(2023, 9, 8);
    let names = |found: Vec<Task>| found.into_iter().map(|t| t.task_name).collect::<Vec<_>>();
    assert_eq!(read_tasks_from_day_range(0, &tasks, &today).map(names), Ok(vec!["today".into()]));
    assert_eq!(read_tasks_from_day_range(1, &tasks, &today).map(names), Ok(vec!["today".into()]));
    assert_eq!(
        read_tasks_from_day_range(2, &tasks, &today).map(names),
        Ok(vec!["after".into(), "today".into(), "before".into()])
    );
    assert_eq!(
        read_tasks_from_day_range(7, &tasks, &today).map(names),
        Ok(vec!["after".into(), "today".into(), "before".into(), "long before".into()])
    );
    assert_eq!(read_tasks_from_day_range(-1, &tasks, &today).map(names), Ok(vec![]));
    assert_eq!(
        list_by_date(&tasks, DateRule::Within { today: today.day_number(), days: 0 }).map(names),
        Ok(vec!["today".into()])
    );
    assert_eq!(list_for_date(&today, &tasks).map(names), Ok(vec!["today".into()]));
    assert_eq!(list_for_date(&day(2023, 9, 1), &tasks).map(names), Ok(vec!["long before".into()]));
    assert_eq!(list_for_date(&day(2023, 9, 2), &tasks).map(names), Ok(vec![]));
}

#[test]
fn a_date_that_cannot_be_read_stops_a_listing_by_date() {
    let mut tasks = three();
    tasks.push(task("date", "task1", "0600", Some("0800"), 120));
    let today = day(2023, 9, 8);
    assert_eq!(read_tasks_from_day_range(30, &tasks, &today), Err(TaskError::InvalidDateFormat));
    assert_eq!(read_tasks_this_week(&tasks, &today), Err(TaskError::InvalidDateFormat));
    assert_eq!(
        fix_task("test", 30, &today, 0, None, Some(at(13, 0)), &mut tasks),
        Err(TaskError::InvalidDateFormat)
    );
}

#[test]
fn this_week_starts_on_its_monday() {
    let tasks = vec![
        task("2023-09-17", "next week", "0900", None, 0),
        task("2023-09-10", "sunday", "0900", None, 0),
        task("2023-09-08", "friday", "0900", None, 0),
        task("", "undated", "0900", None, 0),
        task("2023-09-04", "monday", "0900", None, 0),
        task("2023-09-03", "last sunday", "0900", None, 0),
    ];
    let names = |found: Vec<Task>| found.into_iter().map(|t| t.task_name).collect::<Vec<_>>();
    for today in [day(2023, 9, 4), day(2023, 9, 8), day(2023, 9, 10)] {
        assert_eq!(
            read_tasks_this_week(&tasks, &today).map(names),
            Ok(vec!["next week".into(), "sunday".into(), "friday".into(), "monday".into()])
        );
    }
    assert_eq!(
        read_tasks_this_week(&tasks, &day(2023, 9, 11)).map(names),
        Ok(vec!["next week".into()])
    );
}

#[test]
fn a_started_task_is_open_and_comes_first() {
    let mut tasks = three();
    let today = day(2023, 9, 9);
    let given = start_task("test".to_string(), Some(at(7, 5)), at(23, 59), &today, &mut tasks);
    assert_eq!(given, task("2023-09-09", "test", "0705", None, 0));
    let timed = start_task("test".to_string(), None, at(23, 59), &today, &mut tasks);
    assert_eq!(timed, task("2023-09-09", "test", "2359", None, 0));
    let mut expected = three();
    expected.insert(0, given);
    expected.insert(0, timed);
    assert_eq!(tasks, expected);
}

#[test]
fn a_task_that_is_started_and_ended_is_stored_as_ended() {
    let mut tasks = three();
    let today = day(2023, 9, 9);
    let begun = now();
    let open = start_task("debugging".to_string(), None, begun, &today, &mut tasks);
    let finished = now();
    let closed = end_task("debugging", None, finished, &mut tasks).unwrap();
    let stored = get_task("debugging", &tasks, true).unwrap();
    assert_eq!(stored, closed);
    assert_eq!(stored, tasks[0]);
    assert_eq!(stored.time_start, open.time_start);
    assert_eq!(stored.time_end, Some(finished.to_hhmm()));
    let minutes = timr::clock::calc_time_diff(
        &stored.time_start,
        stored.time_end.as_deref().unwrap(),
    )
    .unwrap()
    .1;
    assert_eq!(stored.time_total, minutes);
    assert_eq!(stored.time_total, timr::clock::duration_between(begun, finished).1);
    assert_eq!(tasks[1..], three()[..]);
}

#[test]
fn ending_closes_the_first_open_task_of_the_name() {
    let mut tasks = three();
    tasks.push(task("2023-09-01", "debugging", "0700", None, 0));
    let closed = end_task("debugging", Some(at(17, 30)), at(0, 0), &mut tasks).unwrap();
    assert_eq!(closed, task("2023-09-08", "debugging", "0900", Some("1730"), 510));
    assert_eq!(tasks[0], closed);
    assert_eq!(tasks[1..3], three()[1..]);
    let closed = end_task("debugging", None, at(6, 0), &mut tasks).unwrap();
    assert_eq!(closed, task("2023-09-01", "debugging", "0700", Some("0600"), -60));
    assert_eq!(tasks[3], closed);
    assert_eq!(end_task("debugging", None, at(6, 0), &mut tasks), Err(TaskError::TaskNotFound));
}

#[test]
fn ending_replaces_the_first_record_of_the_same_identity() {
    let mut tasks = vec![
        task("2023-09-08", "debugging", "0900", Some("0930"), 30),
        task("2023-09-08", "debugging", "0900", None, 0),
    ];
    let closed = end_task("debugging", Some(at(10, 0)), at(0, 0), &mut tasks).unwrap();
    assert_eq!(closed, task("2023-09-08", "debugging", "0900", Some("1000"), 60));
    assert_eq!(tasks, vec![closed, task("2023-09-08", "debugging", "0900", None, 0)]);
}

#[test]
fn ending_reports_what_stops_it() {
    let mut tasks = three();
    assert_eq!(end_task("test", None, at(12, 0), &mut tasks), Err(TaskError::TaskNotFound));
    assert_eq!(end_task("nothing", None, at(12, 0), &mut tasks), Err(TaskError::TaskNotFound));
    assert_eq!(tasks, three());
    tasks.insert(0, task("2023-9-1", "odd", "11:07:32", None, 0));
    let before = tasks.clone();
    assert_eq!(end_task("odd", None, at(12, 0), &mut tasks), Err(TaskError::InvalidTimeFormat));
    assert_eq!(tasks, before);
    let mut none: Vec<Task> = Vec::new();
    assert_eq!(end_task("debugging", None, at(12, 0), &mut none), Err(TaskError::TaskNotFound));
}

#[test]
fn a_task_is_set_right_by_its_place_in_the_listing() {
    let today = day(2023, 9, 8);
    let mut tasks = three();
    let fixed = fix_task("debugging", 1, &today, 1, Some(at(8, 30)), None, &mut tasks).unwrap();
    assert_eq!(fixed, task("2023-09-07", "debugging", "0830", Some("1000"), 90));
    let mut expected = three();
    expected[2] = fixed;
    assert_eq!(tasks, expected);

    let mut tasks = three();
    let fixed = fix_task("debugging", 1, &today, 0, None, Some(at(9, 45)), &mut tasks).unwrap();
    assert_eq!(fixed, task("2023-09-08", "debugging", "0900", Some("0945"), 45));
    assert_eq!(tasks[0], fixed);

    let mut tasks = three();
    let fixed =
        fix_task("test", 1, &today, 0, Some(at(7, 0)), Some(at(7, 1)), &mut tasks).unwrap();
    assert_eq!(fixed, task("2023-09-07", "test", "0700", Some("0701"), 1));
    assert_eq!(tasks[1], fixed);

    let mut tasks = three();
    let fixed = fix_task("debugging", 0, &today, 0, Some(at(10, 0)), None, &mut tasks).unwrap();
    assert_eq!(fixed, task("2023-09-08", "debugging", "1000", None, 0));
}

#[test]
fn setting_right_reports_what_stops_it() {
    let today = day(2023, 9, 8);
    let mut tasks = three();
    for (name, days, index) in [("debugging", 0, 1), ("debugging", 1, 2), ("nothing", 9, 0)] {
        assert_eq!(
            fix_task(name, days, &today, index, None, Some(at(9, 0)), &mut tasks),
            Err(TaskError::TaskNotFound)
        );
        assert_eq!(tasks, three());
    }
    tasks[1].time_start = "8 o'clock".to_string();
    let before = tasks.clone();
    assert_eq!(
        fix_task("test", 1, &today, 0, None, Some(at(9, 0)), &mut tasks),
        Err(TaskError::InvalidTimeFormat)
    );
    assert_eq!(tasks, before);
    assert!(fix_task("test", 1, &today, 0, Some(at(8, 0)), None, &mut tasks).is_ok());
}

#[test]
fn a_sample_task_is_a_closed_task_of_today() {
    let today = day(2023, 9, 8);
    let names = [
        "sleeping",
        "refactoring",
        "writing software",
        "fixing bugs",
        "creating new feature",
        "debugging",
        "stuck, pls help",
        "getting coffee",
    ];
    for (pick, name) in names.iter().enumerate() {
        assert_eq!(
            sample_task(&today, at(5, 7), at(13, 0), pick as u32),
            task("2023-09-08", name, "0507", Some("1300"), 473)
        );
    }
    assert_eq!(sample_task(&today, at(5, 7), at(13, 0), 8).task_name, "getting coffee");
    let mut starts = std::collections::BTreeSet::new();
    for _ in 0..200 {
        let sample = generate_sample_task(&today);
        assert_eq!(sample.date, "2023-09-08");
        assert!(names.contains(&sample.task_name.as_str()));
        let start = ClockTime::parse(&sample.time_start).unwrap();
        let end = ClockTime::parse(sample.time_end.as_deref().unwrap()).unwrap();
        assert!(5 <= start.hour() && start.hour() <= 11 && start.minute() <= 58);
        assert!(13 <= end.hour() && end.hour() <= 17 && end.minute() <= 58);
        assert_eq!(sample.computed_total(), Ok(sample.time_total));
        starts.insert(sample.time_start);
    }
    assert!(starts.len() > 1);
}

#[test]
fn the_clock_is_read_as_chrono_reads_it() {
    for _ in 0..3 {
        let before = chrono::Local::now();
        let time = get_time().unwrap();
        let date = get_date().unwrap();
        let after = chrono::Local::now();
        if before.format("%Y-%m-%d %H%M").to_string() == after.format("%Y-%m-%d %H%M").to_string() {
            assert_eq!(time, before.format("%H%M").to_string());
            assert_eq!(date, before.format("%Y-%m-%d").to_string());
            assert_eq!(now().to_hhmm(), time);
            assert_eq!(today().unwrap().to_text(), date);
            assert_eq!(Task::new_task_today(), Ok(task(&date, "", "", None, 0)));
            assert_eq!(
                monday_of_current_iso_week().unwrap().to_text(),
                before.date_naive().week(chrono::Weekday::Mon).first_day().to_string()
            );
            return;
        }
    }
    panic!("the minute changed three times in a row");
}

#[test]
fn a_record_of_a_date_holds_nothing_else() {
    assert_eq!(Task::new_task_from_date(day(2023, 9, 1)), task("2023-09-01", "", "", None, 0));
}

#[test]
fn answers_are_read_from_replies() {
    assert_eq!(read_answer("y"), Answer::Yes);
    assert_eq!(read_answer("yes"), Answer::Yes);
    assert_eq!(read_answer("n"), Answer::No);
    assert_eq!(read_answer("no"), Answer::No);
    for reply in ["", "Y", "Yes", "yes ", " y", "nope", "maybe", "yn"] {
        assert_eq!(read_answer(reply), Answer::Unclear, "{:?}", reply);
    }
}

#[test]
fn every_failure_says_what_it_is() {
    let all = [
        TaskError::InvalidTimeFormat,
        TaskError::InvalidDateFormat,
        TaskError::TaskNotFound,
        TaskError::RecordMismatch,
        TaskError::CorruptRecord,
        TaskError::IoFailure,
    ];
    for (i, e) in all.iter().enumerate() {
        assert!(!e.message().is_empty());
        for other in &all[i + 1..] {
            assert_ne!(e.message(), other.message());
        }
    }
}
