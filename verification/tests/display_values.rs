use track::display::{
    checked_duration_str, duration_parts, duration_str, logged_str, status, Status,
    MAX_DURATION_SECONDS,
};
use track::task::Task;

#[test]
fn duration_parts_splits_hours_minutes_seconds() {
    assert_eq!(duration_parts(0), (0, 0, 0));
    assert_eq!(duration_parts(59), (0, 0, 59));
    assert_eq!(duration_parts(60), (0, 1, 0));
    assert_eq!(duration_parts(3_725), (1, 2, 5));
    assert_eq!(duration_parts(86_399), (23, 59, 59));
    assert_eq!(duration_parts(360_000), (100, 0, 0));
}

#[test]
fn duration_parts_of_a_negative_duration_are_not_positive() {
    assert_eq!(duration_parts(-1), (0, 0, -1));
    assert_eq!(duration_parts(-61), (0, -1, -1));
    assert_eq!(duration_parts(-3_725), (-1, -2, -5));
}

#[test]
fn duration_parts_at_the_edges_of_the_range() {
    let (hours, minutes, seconds) = duration_parts(MAX_DURATION_SECONDS);
    assert_eq!(hours * 3_600 + minutes * 60 + seconds, MAX_DURATION_SECONDS);
    assert_eq!((hours, minutes, seconds), (2_562_047_788_015, 12, 55));
    assert_eq!(duration_parts(-MAX_DURATION_SECONDS), (-2_562_047_788_015, -12, -55));
}

#[test]
fn duration_str_writes_the_parts() {
    assert_eq!(duration_str(0), "0h, 0m, 0s");
    assert_eq!(duration_str(60), "0h, 1m, 0s");
    assert_eq!(duration_str(3_725), "1h, 2m, 5s");
    assert_eq!(duration_str(360_010), "100h, 0m, 10s");
    assert_eq!(duration_str(-3_725), "-1h, -2m, -5s");
}

#[test]
fn checked_duration_str_refuses_what_cannot_be_displayed() {
    assert_eq!(checked_duration_str(61), Some(String::from("0h, 1m, 1s")));
    assert_eq!(
        checked_duration_str(MAX_DURATION_SECONDS),
        Some(String::from("2562047788015h, 12m, 55s"))
    );
    assert_eq!(checked_duration_str(MAX_DURATION_SECONDS + 1), None);
    assert_eq!(checked_duration_str(-MAX_DURATION_SECONDS - 1), None);
    assert_eq!(checked_duration_str(i64::MAX), None);
    assert_eq!(checked_duration_str(i64::MIN), None);
}

#[test]
fn status_of_each_state() {
    let mut task = Task::new(1, String::from("a"));
    assert_eq!(status(&task), Status::Stopped);
    task.start(10);
    assert_eq!(status(&task), Status::Running);
    task.stop(20).unwrap();
    assert_eq!(status(&task), Status::Stopped);
    task.complete(30).unwrap();
    assert_eq!(status(&task), Status::Complete);
    task.start(40);
    assert_eq!(status(&task), Status::Running);
}

#[test]
fn status_of_a_stored_task_that_is_complete_and_started_is_complete() {
    let task = Task::from_parts(1, String::from("a"), Some(5), None, true);
    assert_eq!(status(&task), Status::Complete);
}

#[test]
fn logged_str_of_a_task_that_never_ran_is_none_in_words() {
    let task = Task::new(1, String::from("a"));
    assert_eq!(logged_str(&task, 100), Some(String::from("NONE")));
}

#[test]
fn logged_str_counts_the_running_interval() {
    let mut task = Task::from_parts(1, String::from("a"), None, Some(3_600), false);
    assert_eq!(logged_str(&task, 100), Some(String::from("1h, 0m, 0s")));
    task.start(100);
    assert_eq!(logged_str(&task, 100), Some(String::from("1h, 0m, 0s")));
    assert_eq!(logged_str(&task, 225), Some(String::from("1h, 2m, 5s")));
}

#[test]
fn logged_str_of_a_running_task_without_logged_time() {
    let mut task = Task::new(1, String::from("a"));
    task.start(1_000);
    assert_eq!(logged_str(&task, 1_061), Some(String::from("0h, 1m, 1s")));
}

#[test]
fn logged_str_beyond_the_range_is_none() {
    let huge = Task::from_parts(1, String::from("a"), None, Some(i64::MAX), false);
    assert_eq!(logged_str(&huge, 0), None);
    let overflowing = Task::from_parts(1, String::from("a"), Some(-1), Some(i64::MAX), false);
    assert_eq!(logged_str(&overflowing, 0), None);
}
