use timr::clock::calc_time_diff;
use timr::error::TaskError;
use timr::service::{compare_dates, generate_sample_task, sum_task_total_time};
use timr::store::{output_task_to_file, prepend_file};
use timr::system::{get_date, today};
use timr::task::Task;

#[test]
fn test_calc_time_diff() {
    let start = "0700";
    let end = "1200";
    let res = calc_time_diff(start, end).unwrap().0;
    assert_eq!(res, "0500".to_string());

    let start = "0700";
    let end = "1900";
    let res = calc_time_diff(start, end).unwrap().0;
    assert_eq!(res, "1200".to_string());

    let start = "2300";
    let end = "0100";
    let res = calc_time_diff(start, end).unwrap().0;
    // the date plays no part: the two times are taken on one day.
    assert_eq!(res, "2200".to_string());
}

#[test]
fn test_get_task() {
    let t: Task = Task::new(
        get_date().unwrap(),
        "debugging".to_string(),
        "1230".to_string(),
        Some("1330".to_string()),
        60,
    );
    let content = output_task_to_file(t.clone(), "");
    assert!(content.starts_with("{\"date\":\""));
    assert!(content.ends_with(
        "\",\"task_name\":\"debugging\",\"time_start\":\"1230\",\"time_end\":\"1330\",\"time_total\":60}\n"
    ));
}

#[test]
fn utility_test_compare_dates() {
    let t1: Task = Task::new(
        "2023-9-1".to_string(),
        "debugging".to_string(),
        "11:07:32".to_string(),
        Some("16:00:53".to_string()),
        293,
    );
    let t2: Task = Task::new(
        "2023-9-7".to_string(),
        "debugging".to_string(),
        "11:07:32".to_string(),
        Some("16:00:53".to_string()),
        293,
    );

    let comparison = compare_dates(&t2, &t1);
    assert_eq!(comparison, Ok(6));
}

#[test]
fn lib_test_compare_dates() {
    // 293 minutes are "4 hours 53 minutes".
    let t1: Task = Task::new(
        "2023-9-1".to_string(),
        "debugging".to_string(),
        "11:07:32".to_string(),
        Some("16:00:53".to_string()),
        4 * 60 + 53,
    );
    let t2: Task = Task::new(
        "2023-9-7".to_string(),
        "debugging".to_string(),
        "11:07:32".to_string(),
        Some("16:00:53".to_string()),
        4 * 60 + 53,
    );

    let comparison = compare_dates(&t2, &t1);
    assert_eq!(comparison, Ok(6));
}

#[test]
fn test_sum_task_total_time() {
    let task1 = Task::new(
        "2023-9-7".to_string(),
        "test".to_string(),
        "0800".to_string(),
        Some("1200".to_string()),
        240,
    );
    let task2 = Task::new(
        "2023-9-8".to_string(),
        "test".to_string(),
        "0800".to_string(),
        Some("1200".to_string()),
        240,
    );

    let result = sum_task_total_time(task1, task2);
    assert_eq!(result, 480);

    let t1: Task = Task::new(
        String::from("date"),
        String::from("task1"),
        String::from("0600"),
        Some(String::from("0800")),
        120,
    );

    let t2: Task = Task::new(
        String::from("date"),
        String::from("task1"),
        String::from("0700"),
        Some(String::from("1000")),
        180,
    );

    assert_eq!(300, sum_task_total_time(t1, t2));
}

#[test]
fn test_serde_json() {
    let t: Task = generate_sample_task(&today().unwrap());
    let json_str = format!("{}\r\n", t.clone().to_json_string().trim_end());
    let content = prepend_file(json_str.as_str(), "");
    assert_eq!(content, json_str);
    assert_eq!(Task::task_from_string(json_str.trim_end().to_string()), Ok(t));
}

#[test]
fn sum_of_two_different_tasks_is_minus_one() {
    let a = Task::new("2023-09-07".to_string(), "one".to_string(), "0800".to_string(), None, 5);
    let b = Task::new("2023-09-07".to_string(), "two".to_string(), "0800".to_string(), None, 7);
    assert_eq!(sum_task_total_time(a, b), -1);
}

#[test]
fn compare_dates_reports_an_unreadable_date() {
    let a = Task::new("2023-09-07".to_string(), "one".to_string(), "0800".to_string(), None, 0);
    let b = Task::new("yesterday".to_string(), "one".to_string(), "0800".to_string(), None, 0);
    assert_eq!(compare_dates(&a, &b), Err(TaskError::InvalidDateFormat));
}
