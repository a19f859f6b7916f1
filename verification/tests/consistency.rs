use track::group::Group;
use track::manager::Manager;
use track::task::Task;
use track::ClockReading;

fn stopped(id: usize) -> Task {
    Task::new(id, format!("task {}", id))
}

fn running(id: usize) -> Task {
    Task::from_parts(id, format!("task {}", id), Some(100), None, false)
}

fn group_of(next: usize, current: Option<usize>, tasks: Vec<Task>) -> Group {
    Group::from_parts(1, next, current, String::from("g"), tasks)
}

#[test]
fn task_is_consistent_unless_complete_and_running() {
    assert!(Task::new(1, String::from("a")).is_consistent());
    assert!(Task::from_parts(1, String::from("a"), Some(1), Some(2), false).is_consistent());
    assert!(Task::from_parts(1, String::from("a"), None, Some(2), true).is_consistent());
    assert!(!Task::from_parts(1, String::from("a"), Some(1), None, true).is_consistent());
}

#[test]
fn groups_that_the_operations_make_are_consistent() {
    let mut group = Group::new(1, String::from("g"));
    assert!(group.is_consistent());
    group.add_task(String::from("a")).unwrap();
    group.add_task(String::from("b")).unwrap();
    group.add_task(String::from("c")).unwrap();
    assert!(group.is_consistent());
    group.start_task(2, 10).unwrap();
    assert!(group.is_consistent());
    group.start_task(3, 20).unwrap();
    assert!(group.is_consistent());
    group.start_task(3, 25).unwrap();
    assert!(group.is_consistent());
    group.complete_task(None, 30).unwrap();
    assert!(group.is_consistent());
    group.start_task(1, 40).unwrap();
    group.remove_task(1).unwrap();
    assert!(group.is_consistent());
    group.start_task(2, 50).unwrap();
    group.stop_current(60).unwrap();
    assert!(group.is_consistent());
}

#[test]
fn group_with_a_counter_of_zero_is_inconsistent() {
    assert!(!group_of(0, None, Vec::new()).is_consistent());
    assert!(group_of(1, None, Vec::new()).is_consistent());
}

#[test]
fn group_with_an_id_at_or_above_the_counter_is_inconsistent() {
    assert!(!group_of(2, None, vec![stopped(1), stopped(2)]).is_consistent());
    assert!(group_of(3, None, vec![stopped(1), stopped(2)]).is_consistent());
}

#[test]
fn group_with_the_id_zero_is_inconsistent() {
    assert!(!group_of(3, None, vec![stopped(0), stopped(1)]).is_consistent());
}

#[test]
fn group_with_ids_out_of_order_is_inconsistent() {
    assert!(!group_of(4, None, vec![stopped(2), stopped(1)]).is_consistent());
    assert!(!group_of(4, None, vec![stopped(1), stopped(3), stopped(2)]).is_consistent());
    assert!(!group_of(4, None, vec![stopped(2), stopped(2)]).is_consistent());
    assert!(group_of(9, None, vec![stopped(2), stopped(5), stopped(8)]).is_consistent());
}

#[test]
fn group_with_two_running_tasks_is_inconsistent() {
    assert!(!group_of(3, Some(1), vec![running(1), running(2)]).is_consistent());
    assert!(group_of(3, Some(2), vec![stopped(1), running(2)]).is_consistent());
}

#[test]
fn group_with_a_running_task_that_is_not_current_is_inconsistent() {
    assert!(!group_of(3, None, vec![stopped(1), running(2)]).is_consistent());
    assert!(!group_of(3, Some(1), vec![stopped(1), running(2)]).is_consistent());
}

#[test]
fn group_whose_current_task_is_at_rest_or_gone_is_inconsistent() {
    assert!(!group_of(3, Some(1), vec![stopped(1), stopped(2)]).is_consistent());
    assert!(!group_of(5, Some(4), vec![stopped(1), stopped(2)]).is_consistent());
}

#[test]
fn group_with_a_task_complete_and_running_is_inconsistent() {
    let task = Task::from_parts(1, String::from("a"), Some(1), None, true);
    assert!(!group_of(2, Some(1), vec![task]).is_consistent());
}

#[test]
fn managers_that_the_operations_make_are_consistent() {
    let clock = ClockReading::new(0, String::from("03-17-2024"));
    assert!(Manager::new().is_consistent());
    let (mut manager, _) = Manager::init_at(None, &clock);
    assert!(manager.is_consistent());
    manager.add_task_at(String::from("a"), &clock).unwrap();
    manager.start_task_at(1, &clock).unwrap();
    manager.add_group(String::from("x")).unwrap();
    manager.add_group(String::from("y")).unwrap();
    manager.use_group(3).unwrap();
    assert!(manager.is_consistent());
    manager.add_task_at(String::from("b"), &clock).unwrap();
    manager.complete_task_at(Some(1), &clock).unwrap();
    assert!(manager.is_consistent());
    manager.extract_groups_at(false, vec![1, 2], &clock).unwrap();
    assert!(manager.is_consistent());
    manager.minimize_ids();
    assert!(manager.is_consistent());
    manager.reset_group();
    assert!(manager.is_consistent());
}

#[test]
fn manager_with_a_duplicate_name_is_inconsistent() {
    let groups = vec![
        Group::new(1, String::from("a")),
        Group::new(2, String::from("b")),
        Group::new(3, String::from("a")),
    ];
    assert!(!Manager::from_parts(4, None, groups).is_consistent());
}

#[test]
fn manager_with_ids_out_of_order_or_range_is_inconsistent() {
    let swapped = vec![Group::new(2, String::from("a")), Group::new(1, String::from("b"))];
    assert!(!Manager::from_parts(3, None, swapped).is_consistent());
    let beyond = vec![Group::new(1, String::from("a")), Group::new(2, String::from("b"))];
    assert!(!Manager::from_parts(2, None, beyond).is_consistent());
    let zero = vec![Group::new(0, String::from("a"))];
    assert!(!Manager::from_parts(2, None, zero).is_consistent());
    assert!(!Manager::from_parts(0, None, Vec::new()).is_consistent());
}

#[test]
fn manager_whose_selected_group_is_gone_is_inconsistent() {
    let groups = vec![Group::new(1, String::from("a"))];
    assert!(!Manager::from_parts(5, Some(4), groups).is_consistent());
    let groups = vec![Group::new(1, String::from("a"))];
    assert!(Manager::from_parts(5, Some(1), groups).is_consistent());
}

#[test]
fn manager_with_an_inconsistent_group_is_inconsistent() {
    let broken = Group::from_parts(1, 3, None, String::from("a"), vec![running(1)]);
    assert!(!Manager::from_parts(2, None, vec![broken]).is_consistent());
}
