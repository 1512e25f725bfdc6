use chrono::{NaiveTime, Timelike};
use timr::clock::{calc_time_diff, duration_between, ClockTime};
use timr::error::TaskError;

#[test]
fn parse_reads_every_minute_of_the_day() {
    for hour in 0..24u8 {
        for minute in 0..60u8 {
            let text = format!("{:02}{:02}", hour, minute);
            let time = ClockTime::parse(&text).unwrap();
            assert_eq!(time.hour(), hour);
            assert_eq!(time.minute(), minute);
            assert_eq!(time, ClockTime::new(hour, minute).unwrap());
            assert_eq!(time.to_hhmm(), text);
        }
    }
}

#[test]
fn parse_agrees_with_chrono_on_four_digits() {
    for n in 0..10000u32 {
        let text = format!("{:04}", n);
        let ours = ClockTime::parse(&text);
        match NaiveTime::parse_from_str(&text, "%H%M") {
            Ok(theirs) => {
                let time = ours.unwrap();
                assert_eq!(time.hour() as u32, theirs.hour());
                assert_eq!(time.minute() as u32, theirs.minute());
            }
            Err(_) => assert_eq!(ours, Err(TaskError::InvalidTimeFormat)),
        }
    }
}

#[test]
fn parse_rejects_what_is_not_four_digits() {
    for text in [
        "", "7", "700", "07000", "07:00", "7:00", " 700", "700 ", "ab12", "12ab", "+700", "-100",
        "07 0", "0７00", "٠٧٠٠", "2400", "2360", "0060", "9999",
    ] {
        assert_eq!(ClockTime::parse(text), Err(TaskError::InvalidTimeFormat), "{:?}", text);
    }
}

#[test]
fn new_rejects_hours_and_minutes_out_of_range() {
    assert!(ClockTime::new(23, 59).is_ok());
    assert_eq!(ClockTime::new(24, 0), Err(TaskError::InvalidTimeFormat));
    assert_eq!(ClockTime::new(0, 60), Err(TaskError::InvalidTimeFormat));
    assert_eq!(ClockTime::new(255, 255), Err(TaskError::InvalidTimeFormat));
}

#[test]
fn duration_is_the_difference_in_minutes() {
    for start in (0..1440u32).step_by(7) {
        for end in (0..1440u32).step_by(11) {
            let from = ClockTime::new((start / 60) as u8, (start % 60) as u8).unwrap();
            let to = ClockTime::new((end / 60) as u8, (end % 60) as u8).unwrap();
            let (text, minutes) = duration_between(from, to);
            assert_eq!(minutes, end as i64 - start as i64);
            let span = minutes.abs();
            assert_eq!(text, format!("{:02}{:02}", span / 60, span % 60));
        }
    }
}

#[test]
fn duration_agrees_with_chrono() {
    for (start, end) in [("0700", "1200"), ("2300", "0100"), ("0000", "2359"), ("1234", "1234")] {
        let from = NaiveTime::parse_from_str(start, "%H%M").unwrap();
        let to = NaiveTime::parse_from_str(end, "%H%M").unwrap();
        let (_, minutes) = calc_time_diff(start, end).unwrap();
        assert_eq!(minutes, (to - from).num_minutes());
    }
}

#[test]
fn five_hours_from_seven_to_twelve() {
    let (text, minutes) = calc_time_diff("0700", "1200").unwrap();
    assert_eq!(text, "0500");
    assert_eq!(minutes, 300);
}

#[test]
fn an_end_before_the_start_crosses_no_midnight() {
    let (text, minutes) = calc_time_diff("2300", "0100").unwrap();
    assert_eq!(text, "2200");
    assert_eq!(minutes.abs(), 1320);
    assert_eq!(minutes, -1320);
    assert_ne!(minutes.abs(), 120);
}

#[test]
fn minutes_of_a_backward_span_are_written_without_a_sign() {
    let (text, minutes) = calc_time_diff("2305", "0100").unwrap();
    assert_eq!(minutes, -1325);
    assert_eq!(text, "2205");
}

#[test]
fn calc_time_diff_reports_a_bad_time() {
    assert_eq!(calc_time_diff("700", "1200"), Err(TaskError::InvalidTimeFormat));
    assert_eq!(calc_time_diff("0700", "12:00"), Err(TaskError::InvalidTimeFormat));
    assert_eq!(calc_time_diff("", ""), Err(TaskError::InvalidTimeFormat));
}
