//! A snapshot that is taken apart into plain values, as a store holds
//! them, and put together again is the snapshot it was.

use vstd::prelude::*;
use crate::group::{group_of_parts, opt_nat, task_models, Group};
use crate::manager::{group_models, manager_of_parts, Manager};
use crate::task::{opt_int, task_of_parts, Task};

verus! {

/// A task put together from what the accessors of another hand out has
/// the value of that task.
pub proof fn lemma_task_round_trip(
    source: Task,
    id: usize,
    name: String,
    started_at: Option<i64>,
    logged: Option<i64>,
    is_complete: bool,
)
    requires
        id == source@.id,
        name@ == source@.name,
        opt_int(started_at) == source@.started_at,
        opt_int(logged) == source@.logged,
        is_complete == source@.is_complete,
    ensures
        task_of_parts(id, name@, started_at, logged, is_complete) == source@,
{
}

/// A group put together from what the accessors of another hand out,
/// with tasks of the same values in the same order, has the value of
/// that group.
pub proof fn lemma_group_round_trip(
    source: Group,
    id: usize,
    next_task: usize,
    current_task: Option<usize>,
    name: String,
    tasks: Vec<Task>,
)
    requires
        id == source@.id,
        next_task == source@.next_task,
        opt_nat(current_task) == source@.current_task,
        name@ == source@.name,
        tasks@.len() == source@.tasks.len(),
        forall|i: int| 0 <= i < tasks@.len() ==> (#[trigger] tasks@[i])@ == source@.tasks[i],
    ensures
        group_of_parts(id, next_task, current_task, name@, tasks@) == source@,
{
    assert(task_models(tasks@) =~= source@.tasks);
}

/// A manager put together from what the accessors of another hand out,
/// with groups of the same values in the same order, has the value of
/// that manager. Every operation is specified over that value alone, so
/// the two behave alike: on every day they have the same current group,
/// and every operation has the same outcome on both.
pub proof fn lemma_manager_round_trip(
    source: Manager,
    next_group: usize,
    current_group: Option<usize>,
    groups: Vec<Group>,
    today: Seq<char>,
    now: int,
    id: nat,
)
    requires
        next_group == source@.next_group,
        opt_nat(current_group) == source@.current_group,
        groups@.len() == source@.groups.len(),
        forall|i: int| 0 <= i < groups@.len() ==> (#[trigger] groups@[i])@ == source@.groups[i],
    ensures
        manager_of_parts(next_group, current_group, groups@) == source@,
        manager_of_parts(next_group, current_group, groups@).group(today) == source@.group(
            today,
        ),
        manager_of_parts(next_group, current_group, groups@).start_task(id, now, today)
            == source@.start_task(id, now, today),
        manager_of_parts(next_group, current_group, groups@).stop_current(now, today)
            == source@.stop_current(now, today),
{
    assert(group_models(groups@) =~= source@.groups);
}

} // verus!
