//! What holds of every group: its invariant, and that each operation
//! keeps it.

use vstd::prelude::*;
use crate::error::Error;
use crate::group::GroupModel;
use crate::lookup::{is_first_at, lemma_first_index_of, lemma_found};
use crate::task::TaskModel;

verus! {

/// Where the ids grow with the order, a lookup by the id of a task finds
/// that very task.
pub proof fn lemma_find_own(group: GroupModel, i: int)
    requires
        group.ordered(),
        0 <= i < group.tasks.len(),
    ensures
        group.find(group.tasks[i].id) == Some(i),
{
    let ids = group.task_ids();
    assert forall|j: int| 0 <= j < i implies ids[j] != group.tasks[i].id by {
        assert(group.tasks[j].id < group.tasks[i].id);
    }
    assert(is_first_at(ids, group.tasks[i].id, i));
    lemma_found(ids, group.tasks[i].id, i);
}

/// What a lookup by id finds lies among the tasks and has that id.
pub proof fn lemma_find(group: GroupModel, id: nat)
    ensures
        match group.find(id) {
            Some(i) => 0 <= i < group.tasks.len() && group.tasks[i].id == id,
            None => forall|j: int| 0 <= j < group.tasks.len() ==> group.tasks[j].id != id,
        },
{
    lemma_first_index_of(group.task_ids(), id);
    if group.find(id) is None {
        assert forall|j: int| 0 <= j < group.tasks.len() implies group.tasks[j].id != id by {
            assert(group.task_ids()[j] != id);
        }
    }
}

/// At most one task of a group runs, and the one that runs is the current
/// task.
pub proof fn lemma_one_running(group: GroupModel, i: int, j: int)
    requires
        group.wf(),
        0 <= i < group.tasks.len(),
        0 <= j < group.tasks.len(),
        group.tasks[i].is_running(),
        group.tasks[j].is_running(),
    ensures
        i == j,
        group.current_task == Some(group.tasks[i].id),
{
    if i < j {
        assert(group.tasks[i].id < group.tasks[j].id);
    } else if j < i {
        assert(group.tasks[j].id < group.tasks[i].id);
    }
}

/// A new group meets the invariant.
pub proof fn lemma_fresh_wf(id: nat, name: Seq<char>)
    ensures
        GroupModel::fresh(id, name).wf(),
{
}

/// Adding a task keeps the invariant.
pub proof fn lemma_add_task_wf(group: GroupModel, name: Seq<char>)
    requires
        group.wf(),
    ensures
        group.add_task(name).0.wf(),
{
    let after = group.add_task(name).0;
    if group.add_task(name).1 is Ok {
        let n = group.tasks.len() as int;
        assert forall|i: int| 0 <= i < after.tasks.len() implies (#[trigger] after.tasks[i]).wf()
            && 1 <= after.tasks[i].id < after.next_task by {
            if i < n {
                assert(after.tasks[i] == group.tasks[i]);
            }
        }
        assert forall|i: int, j: int| 0 <= i < j < after.tasks.len() implies (
        #[trigger] after.tasks[i]).id < (#[trigger] after.tasks[j]).id by {
            assert(after.tasks[i] == group.tasks[i]);
            if j < n {
                assert(after.tasks[j] == group.tasks[j]);
            }
        }
        assert forall|i: int| 0 <= i < after.tasks.len() implies ((
        #[trigger] after.tasks[i]).is_running() <==> after.current_task == Some(
            after.tasks[i].id,
        )) by {
            if i < n {
                assert(after.tasks[i] == group.tasks[i]);
            } else {
                if group.current_task is Some {
                    let c = group.current_task.unwrap();
                    lemma_find(group, c);
                    let k = group.find(c).unwrap();
                    assert(group.tasks[k].id < group.next_task);
                }
            }
        }
        if group.current_task is Some {
            let c = group.current_task.unwrap();
            lemma_find(group, c);
            let k = group.find(c).unwrap();
            assert(after.tasks[k] == group.tasks[k]);
            lemma_find_own(after, k);
        }
    }
}

/// Removing a task keeps the invariant.
pub proof fn lemma_remove_task_wf(group: GroupModel, id: nat)
    requires
        group.wf(),
    ensures
        group.remove_task(id).0.wf(),
{
    let after = group.remove_task(id).0;
    lemma_find(group, id);
    if group.find(id) is Some {
        let r = group.find(id).unwrap();
        assert forall|i: int| 0 <= i < after.tasks.len() implies #[trigger] after.tasks[i]
            == group.tasks[if i < r {
            i
        } else {
            i + 1
        }] by {}
        assert forall|i: int| 0 <= i < after.tasks.len() implies (#[trigger] after.tasks[i]).wf()
            && 1 <= after.tasks[i].id < after.next_task by {
            assert(after.tasks[i] == group.tasks[if i < r { i } else { i + 1 }]);
        }
        assert forall|i: int, j: int| 0 <= i < j < after.tasks.len() implies (
        #[trigger] after.tasks[i]).id < (#[trigger] after.tasks[j]).id by {
            assert(after.tasks[i] == group.tasks[if i < r { i } else { i + 1 }]);
            assert(after.tasks[j] == group.tasks[if j < r { j } else { j + 1 }]);
        }
        assert forall|i: int| 0 <= i < after.tasks.len() implies ((
        #[trigger] after.tasks[i]).is_running() <==> after.current_task == Some(
            after.tasks[i].id,
        )) by {
            let k = if i < r { i } else { i + 1 };
            assert(after.tasks[i] == group.tasks[k]);
            if k < r {
                assert(group.tasks[k].id < group.tasks[r].id);
            } else {
                assert(group.tasks[r].id < group.tasks[k].id);
            }
        }
        if after.current_task is Some {
            let c = after.current_task.unwrap();
            lemma_find(group, c);
            let k = group.find(c).unwrap();
            let k2 = if k < r { k } else { k - 1 };
            assert(after.tasks[k2] == group.tasks[k]);
            lemma_find_own(after, k2);
        }
    }
}

/// The tasks of `after` are those of `before` but for what a step did to
/// each: same ids in the same places.
pub open spec fn same_ids(before: Seq<TaskModel>, after: Seq<TaskModel>) -> bool {
    &&& after.len() == before.len()
    &&& forall|i: int| 0 <= i < before.len() ==> (#[trigger] after[i]).id == before[i].id
}

/// Starting a task keeps the invariant. After a start that succeeds the
/// started task runs and is the current one, and the task that ran before,
/// if it is another, is at rest with the time up to `now` logged.
pub proof fn lemma_start_task_wf(group: GroupModel, id: nat, now: int)
    requires
        group.wf(),
    ensures
        group.start_task(id, now).0.wf(),
        group.start_task(id, now).1 is Ok ==> {
            let after = group.start_task(id, now).0;
            let i = group.find(id).unwrap();
            &&& same_ids(group.tasks, after.tasks)
            &&& after.current_task == Some(id)
            &&& after.tasks[i].is_running()
            &&& after.tasks[i].started_at == Some(now)
            &&& forall|j: int|
                0 <= j < after.tasks.len() && j != i ==> !(#[trigger] after.tasks[j]).is_running()
            &&& forall|j: int|
                0 <= j < after.tasks.len() && j != i && group.tasks[j].is_running() ==> (
                #[trigger] after.tasks[j]) == group.tasks[j].stopped(now)
            &&& forall|j: int|
                0 <= j < after.tasks.len() && j != i && !group.tasks[j].is_running() ==> (
                #[trigger] after.tasks[j]) == group.tasks[j]
        },
{
    let after = group.start_task(id, now).0;
    lemma_find(group, id);
    if group.start_task(id, now).1 is Ok {
        let i = group.find(id).unwrap();
        if group.current_task is Some {
            let c = group.current_task.unwrap();
            lemma_find(group, c);
        }
        assert forall|k: int| 0 <= k < after.tasks.len() implies (#[trigger] after.tasks[k]).id
            == group.tasks[k].id && after.tasks[k].wf() && (after.tasks[k].is_running() <==> k
            == i) by {
            assert(group.tasks[k].wf());
            if k != i {
                if k < i {
                    assert(group.tasks[k].id < group.tasks[i].id);
                } else {
                    assert(group.tasks[i].id < group.tasks[k].id);
                }
                if group.tasks[k].is_running() {
                    lemma_find_own(group, k);
                }
            }
        }
        assert forall|a: int, b: int| 0 <= a < b < after.tasks.len() implies (
        #[trigger] after.tasks[a]).id < (#[trigger] after.tasks[b]).id by {
            assert(group.tasks[a].id < group.tasks[b].id);
        }
        assert forall|k: int| 0 <= k < after.tasks.len() implies ((
        #[trigger] after.tasks[k]).is_running() <==> after.current_task == Some(
            after.tasks[k].id,
        )) by {
            if k < i {
                assert(group.tasks[k].id < group.tasks[i].id);
            } else if i < k {
                assert(group.tasks[i].id < group.tasks[k].id);
            }
        }
        assert(after.tasks[i].id == id);
        lemma_find_own(after, i);
        assert forall|j: int|
            0 <= j < after.tasks.len() && j != i && group.tasks[j].is_running() implies (
        #[trigger] after.tasks[j]) == group.tasks[j].stopped(now) by {
            lemma_find_own(group, j);
        }
        assert forall|j: int|
            0 <= j < after.tasks.len() && j != i && !group.tasks[j].is_running() implies (
        #[trigger] after.tasks[j]) == group.tasks[j] by {
            if group.running_other(id) is Some {
                let o = group.running_other(id).unwrap();
                if o == j {
                    assert(group.tasks[j].stopped(now) == group.tasks[j]);
                }
            }
        }
    }
}

/// Stopping the current task keeps the invariant; afterwards no task of
/// the group runs.
pub proof fn lemma_stop_current_wf(group: GroupModel, now: int)
    requires
        group.wf(),
    ensures
        group.stop_current(now).0.wf(),
        group.stop_current(now).1 is Ok ==> forall|j: int|
            0 <= j < group.tasks.len() ==> !(#[trigger] group.stop_current(
                now,
            ).0.tasks[j]).is_running(),
{
    let after = group.stop_current(now).0;
    if group.stop_current(now).1 is Ok {
        let c = group.current_task.unwrap();
        lemma_find(group, c);
        let j = group.find(c).unwrap();
        assert forall|k: int| 0 <= k < after.tasks.len() implies (#[trigger] after.tasks[k]).id
            == group.tasks[k].id && after.tasks[k].wf() && !after.tasks[k].is_running() by {
            assert(group.tasks[k].wf());
            if k != j && group.tasks[k].is_running() {
                lemma_find_own(group, k);
            }
        }
        assert forall|a: int, b: int| 0 <= a < b < after.tasks.len() implies (
        #[trigger] after.tasks[a]).id < (#[trigger] after.tasks[b]).id by {
            assert(group.tasks[a].id < group.tasks[b].id);
        }
    }
}

/// Completing a task keeps the invariant; the completed task is at rest
/// and complete.
pub proof fn lemma_complete_task_wf(group: GroupModel, id: Option<nat>, now: int)
    requires
        group.wf(),
    ensures
        group.complete_task(id, now).0.wf(),
        group.complete_task(id, now).1 matches Ok(task) ==> task.is_complete && !task.is_running(),
{
    let after = group.complete_task(id, now).0;
    if group.complete_task(id, now).1 is Ok {
        let t = group.completion_target(id).unwrap();
        lemma_find(group, t);
        let i = group.find(t).unwrap();
        assert forall|k: int| 0 <= k < after.tasks.len() implies (#[trigger] after.tasks[k]).id
            == group.tasks[k].id && after.tasks[k].wf() && (after.tasks[k].is_running()
            <==> after.current_task == Some(after.tasks[k].id)) by {
            assert(group.tasks[k].wf());
            if k < i {
                assert(group.tasks[k].id < group.tasks[i].id);
            } else if i < k {
                assert(group.tasks[i].id < group.tasks[k].id);
            }
        }
        assert forall|a: int, b: int| 0 <= a < b < after.tasks.len() implies (
        #[trigger] after.tasks[a]).id < (#[trigger] after.tasks[b]).id by {
            assert(group.tasks[a].id < group.tasks[b].id);
        }
        if after.current_task is Some {
            let c = after.current_task.unwrap();
            lemma_find(group, c);
            let k = group.find(c).unwrap();
            assert(after.tasks[k].id == c);
            lemma_find_own(after, k);
        }
    }
}

/// What a completion refuses: without an id and without a current task
/// it fails with `NoTaskSpecifiedForComplete`, and with an id that no task
/// has it fails with `TaskNotFound`; either way the group stays as it is.
pub proof fn lemma_complete_task_refused(group: GroupModel, id: nat, now: int)
    ensures
        group.current_task is None ==> group.complete_task(None, now) == (
            group,
            Err::<TaskModel, Error>(Error::NoTaskSpecifiedForComplete),
        ),
        group.find(id) is None ==> group.complete_task(Some(id), now) == (
            group,
            Err::<TaskModel, Error>(Error::TaskNotFound),
        ),
{
}

} // verus!
