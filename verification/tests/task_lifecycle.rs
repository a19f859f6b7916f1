use track::task::Task;
use track::Error;

#[test]
fn new_task_is_at_rest() {
    let task = Task::new(7, String::from("write"));
    assert_eq!(task.id(), 7);
    assert_eq!(task.name(), "write");
    assert_eq!(task.started_at(), None);
    assert_eq!(task.logged(), None);
    assert!(!task.is_complete());
    assert!(!task.is_running());
}

#[test]
fn stop_after_start_logs_the_elapsed_time() {
    let mut task = Task::new(1, String::from("a"));
    task.start(500);
    assert_eq!(task.started_at(), Some(500));
    assert!(task.is_running());
    assert_eq!(task.stop(530), Ok(()));
    assert_eq!(task.logged(), Some(30));
    assert_eq!(task.started_at(), None);

    task.start(1_000);
    assert_eq!(task.stop(1_012), Ok(()));
    assert_eq!(task.logged(), Some(42));
}

#[test]
fn stop_of_a_task_that_never_ran_changes_nothing() {
    let mut task = Task::new(1, String::from("a"));
    assert_eq!(task.stop(1_000), Ok(()));
    assert_eq!(task.logged(), None);
    assert_eq!(task.started_at(), None);
    assert!(!task.is_complete());
}

#[test]
fn stop_of_a_task_at_rest_keeps_the_logged_time() {
    let mut task = Task::from_parts(4, String::from("a"), None, Some(77), false);
    assert_eq!(task.stop(9_999), Ok(()));
    assert_eq!(task.logged(), Some(77));
}

#[test]
fn start_of_a_running_task_drops_the_open_interval() {
    let mut task = Task::new(1, String::from("a"));
    task.start(100);
    task.start(150);
    assert_eq!(task.started_at(), Some(150));
    assert_eq!(task.logged(), None);
    assert_eq!(task.stop(160), Ok(()));
    assert_eq!(task.logged(), Some(10));
}

#[test]
fn clock_that_went_back_gives_a_negative_interval() {
    let mut task = Task::new(1, String::from("a"));
    task.start(200);
    assert_eq!(task.stop(150), Ok(()));
    assert_eq!(task.logged(), Some(-50));
}

#[test]
fn complete_stops_and_marks() {
    let mut task = Task::new(1, String::from("a"));
    task.start(10);
    assert_eq!(task.complete(25), Ok(()));
    assert!(task.is_complete());
    assert!(!task.is_running());
    assert_eq!(task.logged(), Some(15));
}

#[test]
fn complete_of_a_task_at_rest_only_marks() {
    let mut task = Task::new(1, String::from("a"));
    assert_eq!(task.complete(25), Ok(()));
    assert!(task.is_complete());
    assert_eq!(task.logged(), None);
}

#[test]
fn start_reopens_a_complete_task() {
    let mut task = Task::new(1, String::from("a"));
    task.start(10);
    assert_eq!(task.complete(20), Ok(()));
    task.start(30);
    assert!(!task.is_complete());
    assert!(task.is_running());
    assert_eq!(task.logged(), Some(10));
}

#[test]
fn stop_beyond_the_range_fails_and_changes_nothing() {
    let mut task = Task::from_parts(1, String::from("a"), Some(i64::MIN), None, false);
    assert!(!task.fits(i64::MAX));
    assert_eq!(task.stop(i64::MAX), Err(Error::DurationOverflow));
    assert_eq!(task.started_at(), Some(i64::MIN));
    assert_eq!(task.logged(), None);
    assert_eq!(task.complete(i64::MAX), Err(Error::DurationOverflow));
    assert!(!task.is_complete());
    assert!(task.is_running());
}

#[test]
fn stop_at_the_edge_of_the_range_succeeds() {
    let mut task = Task::from_parts(1, String::from("a"), Some(0), Some(i64::MAX - 5), false);
    assert!(task.fits(5));
    assert!(!task.fits(6));
    assert_eq!(task.stop(5), Ok(()));
    assert_eq!(task.logged(), Some(i64::MAX));
}

#[test]
fn intermediate_overflow_does_not_fail_a_sum_that_fits() {
    // now - started leaves the range, the sum with the logged time does not
    let mut task = Task::from_parts(1, String::from("a"), Some(i64::MIN), Some(i64::MIN), false);
    assert!(task.fits(i64::MAX - 5));
    assert_eq!(task.stop(i64::MAX - 5), Ok(()));
    assert_eq!(task.logged(), Some(i64::MAX - 5));
}

#[test]
fn logged_total_counts_the_running_interval() {
    let mut task = Task::from_parts(1, String::from("a"), None, Some(40), false);
    assert_eq!(task.logged_total(1_000), Some(40));
    task.start(1_000);
    assert_eq!(task.logged_total(1_000), Some(40));
    assert_eq!(task.logged_total(1_025), Some(65));
    // reading the total does not change the task
    assert_eq!(task.logged(), Some(40));
    assert_eq!(task.started_at(), Some(1_000));
}

#[test]
fn logged_total_of_a_task_that_never_ran_is_zero() {
    let task = Task::new(1, String::from("a"));
    assert_eq!(task.logged_total(1_000), Some(0));
}

#[test]
fn logged_total_of_a_running_task_without_logged_time_is_the_interval() {
    let mut task = Task::new(1, String::from("a"));
    task.start(1_000);
    assert_eq!(task.logged_total(1_090), Some(90));
    assert_eq!(task.logged_total(990), Some(-10));
}

#[test]
fn logged_total_beyond_the_range_is_none() {
    let task = Task::from_parts(1, String::from("a"), Some(-1), Some(i64::MAX), false);
    assert_eq!(task.logged_total(0), None);
}

#[test]
fn clone_of_a_task_is_detached() {
    let mut task = Task::new(3, String::from("a"));
    let copy = task.clone();
    task.start(10);
    assert_eq!(copy.started_at(), None);
    assert_eq!(copy.id(), 3);
    assert_eq!(copy.name(), "a");
}

#[test]
fn from_parts_keeps_every_field() {
    let task = Task::from_parts(9, String::from("n"), Some(5), Some(6), true);
    assert_eq!(task.id(), 9);
    assert_eq!(task.name(), "n");
    assert_eq!(task.started_at(), Some(5));
    assert_eq!(task.logged(), Some(6));
    assert!(task.is_complete());
    assert!(task.is_running());
}
