use track::group::Group;
use track::task::Task;
use track::Error;

fn group_with_three() -> Group {
    let mut group = Group::new(1, String::from("03-17-2024"));
    group.add_task(String::from("a")).unwrap();
    group.add_task(String::from("b")).unwrap();
    group.add_task(String::from("c")).unwrap();
    group
}

fn running_ids(group: &Group) -> Vec<usize> {
    let mut ids = Vec::new();
    for task in group.tasks() {
        if task.is_running() {
            ids.push(task.id());
        }
    }
    ids
}

#[test]
fn new_group_is_empty() {
    let group = Group::new(4, String::from("g"));
    assert_eq!(group.id(), 4);
    assert_eq!(group.name(), "g");
    assert_eq!(group.next_task(), 1);
    assert_eq!(group.current_task(), None);
    assert!(group.tasks().is_empty());
}

#[test]
fn add_task_allocates_ids_from_one() {
    let mut group = Group::new(1, String::from("g"));
    let first = group.add_task(String::from("a")).unwrap();
    let second = group.add_task(String::from("b")).unwrap();
    assert_eq!(first.id(), 1);
    assert_eq!(first.name(), "a");
    assert_eq!(first.logged(), None);
    assert_eq!(first.started_at(), None);
    assert!(!first.is_complete());
    assert_eq!(second.id(), 2);
    assert_eq!(group.next_task(), 3);
    assert_eq!(group.tasks().len(), 2);
    assert_eq!(group.tasks()[0].name(), "a");
    assert_eq!(group.tasks()[1].name(), "b");
}

#[test]
fn ids_are_not_reused_after_removal() {
    let mut group = group_with_three();
    group.remove_task(3).unwrap();
    let next = group.add_task(String::from("d")).unwrap();
    assert_eq!(next.id(), 4);
}

#[test]
fn add_task_fails_when_ids_are_exhausted() {
    let mut group = Group::from_parts(1, usize::MAX, None, String::from("g"), Vec::new());
    assert_eq!(group.add_task(String::from("a")).unwrap_err(), Error::IdSpaceExhausted);
    assert_eq!(group.next_task(), usize::MAX);
    assert!(group.tasks().is_empty());
}

#[test]
fn find_task_is_a_linear_scan_for_the_first() {
    let tasks = vec![
        Task::new(5, String::from("x")),
        Task::new(2, String::from("y")),
        Task::new(5, String::from("z")),
    ];
    let group = Group::from_parts(1, 6, None, String::from("g"), tasks);
    assert_eq!(group.find_task(5), Some(0));
    assert_eq!(group.find_task(2), Some(1));
    assert_eq!(group.find_task(3), None);
}

#[test]
fn remove_task_hands_the_task_back() {
    let mut group = group_with_three();
    let removed = group.remove_task(2).unwrap();
    assert_eq!(removed.id(), 2);
    assert_eq!(removed.name(), "b");
    assert_eq!(group.tasks().len(), 2);
    assert_eq!(group.tasks()[0].id(), 1);
    assert_eq!(group.tasks()[1].id(), 3);
}

#[test]
fn remove_task_of_an_unknown_id_fails() {
    let mut group = group_with_three();
    assert_eq!(group.remove_task(9).unwrap_err(), Error::TaskNotFound);
    assert_eq!(group.tasks().len(), 3);
}

#[test]
fn remove_of_the_current_task_clears_the_current() {
    let mut group = group_with_three();
    group.start_task(2, 100).unwrap();
    group.remove_task(2).unwrap();
    assert_eq!(group.current_task(), None);
    assert!(running_ids(&group).is_empty());
}

#[test]
fn remove_of_another_task_keeps_the_current() {
    let mut group = group_with_three();
    group.start_task(2, 100).unwrap();
    group.remove_task(1).unwrap();
    assert_eq!(group.current_task(), Some(2));
    assert_eq!(running_ids(&group), vec![2]);
}

#[test]
fn start_task_returns_the_started_task() {
    let mut group = group_with_three();
    let started = group.start_task(2, 100).unwrap();
    assert_eq!(started.id(), 2);
    assert_eq!(started.started_at(), Some(100));
    assert_eq!(group.current_task(), Some(2));
}

#[test]
fn start_task_of_an_unknown_id_fails() {
    let mut group = group_with_three();
    group.start_task(1, 100).unwrap();
    assert_eq!(group.start_task(9, 200).unwrap_err(), Error::TaskNotFound);
    assert_eq!(group.current_task(), Some(1));
    assert_eq!(group.tasks()[0].started_at(), Some(100));
    assert_eq!(group.tasks()[0].logged(), None);
}

#[test]
fn starting_b_stops_a_first() {
    let mut group = group_with_three();
    group.start_task(1, 100).unwrap();
    let b = group.start_task(2, 160).unwrap();
    assert_eq!(b.started_at(), Some(160));
    let a = &group.tasks()[0];
    assert_eq!(a.logged(), Some(60));
    assert_eq!(a.started_at(), None);
    assert_eq!(group.current_task(), Some(2));
    assert_eq!(running_ids(&group), vec![2]);
}

#[test]
fn at_most_one_task_runs_through_a_sequence_of_operations() {
    let mut group = group_with_three();
    assert!(running_ids(&group).len() <= 1);
    group.start_task(1, 10).unwrap();
    assert_eq!(running_ids(&group), vec![1]);
    group.start_task(3, 20).unwrap();
    assert_eq!(running_ids(&group), vec![3]);
    group.start_task(3, 30).unwrap();
    assert_eq!(running_ids(&group), vec![3]);
    group.complete_task(Some(2), 40).unwrap();
    assert_eq!(running_ids(&group), vec![3]);
    group.start_task(2, 50).unwrap();
    assert_eq!(running_ids(&group), vec![2]);
    group.stop_current(60).unwrap();
    assert!(running_ids(&group).is_empty());
    assert_eq!(group.tasks()[0].logged(), Some(10));
    assert_eq!(group.tasks()[1].logged(), Some(10));
    // task 3 was restarted at 30, which dropped the interval open since 20
    assert_eq!(group.tasks()[2].logged(), Some(20));
}

#[test]
fn restarting_the_current_task_resets_its_interval() {
    let mut group = group_with_three();
    group.start_task(1, 100).unwrap();
    let again = group.start_task(1, 130).unwrap();
    assert_eq!(again.started_at(), Some(130));
    assert_eq!(again.logged(), None);
    assert_eq!(group.current_task(), Some(1));
    assert!(group.tasks()[0].is_running());
}

#[test]
fn start_task_fails_where_the_running_task_cannot_be_stopped() {
    let tasks = vec![
        Task::from_parts(1, String::from("a"), Some(i64::MIN), None, false),
        Task::new(2, String::from("b")),
    ];
    let mut group = Group::from_parts(1, 3, Some(1), String::from("g"), tasks);
    assert_eq!(group.start_task(2, i64::MAX).unwrap_err(), Error::DurationOverflow);
    assert_eq!(group.current_task(), Some(1));
    assert!(!group.tasks()[1].is_running());
    assert_eq!(group.tasks()[0].started_at(), Some(i64::MIN));
}

#[test]
fn stop_current_returns_the_stopped_task() {
    let mut group = group_with_three();
    group.start_task(3, 1_000).unwrap();
    let stopped = group.stop_current(1_060).unwrap();
    assert_eq!(stopped.id(), 3);
    assert_eq!(stopped.logged(), Some(60));
    assert_eq!(stopped.started_at(), None);
    assert_eq!(group.current_task(), None);
}

#[test]
fn stop_current_without_a_current_task_fails() {
    let mut group = group_with_three();
    assert_eq!(group.stop_current(10).unwrap_err(), Error::NoCurrentTask);
}

#[test]
fn stop_current_with_a_current_task_that_is_gone_fails() {
    let mut group =
        Group::from_parts(1, 5, Some(4), String::from("g"), vec![Task::new(1, String::from("a"))]);
    assert_eq!(group.stop_current(10).unwrap_err(), Error::NoCurrentTask);
    assert_eq!(group.current_task(), Some(4));
}

#[test]
fn stop_current_beyond_the_range_fails() {
    let tasks = vec![Task::from_parts(1, String::from("a"), Some(-1), Some(i64::MAX), false)];
    let mut group = Group::from_parts(1, 2, Some(1), String::from("g"), tasks);
    assert_eq!(group.stop_current(0).unwrap_err(), Error::DurationOverflow);
    assert_eq!(group.current_task(), Some(1));
    assert_eq!(group.tasks()[0].logged(), Some(i64::MAX));
}

#[test]
fn complete_task_without_id_and_without_current_fails() {
    let mut group = group_with_three();
    assert_eq!(group.complete_task(None, 10).unwrap_err(), Error::NoTaskSpecifiedForComplete);
}

#[test]
fn complete_task_of_an_unknown_id_fails() {
    let mut group = group_with_three();
    assert_eq!(group.complete_task(Some(9), 10).unwrap_err(), Error::TaskNotFound);
}

#[test]
fn complete_task_by_id_leaves_the_running_task_alone() {
    let mut group = group_with_three();
    group.start_task(1, 100).unwrap();
    let done = group.complete_task(Some(2), 150).unwrap();
    assert_eq!(done.id(), 2);
    assert!(done.is_complete());
    assert_eq!(done.logged(), None);
    assert_eq!(group.current_task(), Some(1));
    assert!(group.tasks()[0].is_running());
}

#[test]
fn complete_task_without_id_completes_the_current() {
    let mut group = group_with_three();
    group.start_task(2, 100).unwrap();
    let done = group.complete_task(None, 145).unwrap();
    assert_eq!(done.id(), 2);
    assert!(done.is_complete());
    assert!(!done.is_running());
    assert_eq!(done.logged(), Some(45));
    assert_eq!(group.current_task(), None);
    assert!(running_ids(&group).is_empty());
}

#[test]
fn complete_task_beyond_the_range_fails() {
    let tasks = vec![Task::from_parts(1, String::from("a"), Some(-1), Some(i64::MAX), false)];
    let mut group = Group::from_parts(1, 2, Some(1), String::from("g"), tasks);
    assert_eq!(group.complete_task(Some(1), 0).unwrap_err(), Error::DurationOverflow);
    assert!(!group.tasks()[0].is_complete());
}

#[test]
fn returned_task_is_a_copy() {
    let mut group = group_with_three();
    let mut copy = group.add_task(String::from("d")).unwrap();
    copy.start(5);
    assert!(!group.tasks()[3].is_running());
}

#[test]
fn clone_of_a_group_keeps_everything() {
    let mut group = group_with_three();
    group.start_task(2, 7).unwrap();
    let copy = group.clone();
    assert_eq!(copy.id(), group.id());
    assert_eq!(copy.name(), group.name());
    assert_eq!(copy.next_task(), 4);
    assert_eq!(copy.current_task(), Some(2));
    assert_eq!(copy.tasks().len(), 3);
    assert_eq!(copy.tasks()[1].started_at(), Some(7));
}
