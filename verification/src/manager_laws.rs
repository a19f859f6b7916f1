//! What holds of every manager: its invariant, that each operation keeps
//! it, and the laws of selection, archival and renumbering.

use vstd::prelude::*;
use crate::error::Error;
use crate::group::GroupModel;
use crate::group_laws::{
    lemma_add_task_wf, lemma_complete_task_wf, lemma_remove_task_wf, lemma_start_task_wf,
    lemma_stop_current_wf,
};
use crate::lookup::{is_first_at, lemma_first_index_of, lemma_found, lemma_some_first};
use crate::manager::ManagerModel;
use crate::task::TaskModel;

verus! {

/// What a lookup by id finds lies among the groups and has that id.
pub proof fn lemma_find_by_id(manager: ManagerModel, id: nat)
    ensures
        match manager.find_by_id(id) {
            Some(i) => 0 <= i < manager.groups.len() && manager.groups[i].id == id,
            None => forall|j: int| 0 <= j < manager.groups.len() ==> manager.groups[j].id != id,
        },
{
    lemma_first_index_of(manager.group_ids(), id);
    if manager.find_by_id(id) is None {
        assert forall|j: int| 0 <= j < manager.groups.len() implies manager.groups[j].id
            != id by {
            assert(manager.group_ids()[j] != id);
        }
    }
}

/// What a lookup by name finds lies among the groups and has that name.
pub proof fn lemma_find_by_name(manager: ManagerModel, name: Seq<char>)
    ensures
        match manager.find_by_name(name) {
            Some(i) => 0 <= i < manager.groups.len() && manager.groups[i].name == name,
            None => forall|j: int|
                0 <= j < manager.groups.len() ==> manager.groups[j].name != name,
        },
{
    lemma_first_index_of(manager.group_names(), name);
    if manager.find_by_name(name) is None {
        assert forall|j: int| 0 <= j < manager.groups.len() implies manager.groups[j].name
            != name by {
            assert(manager.group_names()[j] != name);
        }
    }
}

/// Where the ids grow with the order, a lookup by the id of a group finds
/// that very group.
pub proof fn lemma_find_own_id(manager: ManagerModel, i: int)
    requires
        manager.ordered(),
        0 <= i < manager.groups.len(),
    ensures
        manager.find_by_id(manager.groups[i].id) == Some(i),
{
    let ids = manager.group_ids();
    assert forall|j: int| 0 <= j < i implies ids[j] != manager.groups[i].id by {
        assert(manager.groups[j].id < manager.groups[i].id);
    }
    assert(is_first_at(ids, manager.groups[i].id, i));
    lemma_found(ids, manager.groups[i].id, i);
}

/// A group with the id `id` at position `i` makes a lookup by `id`
/// succeed.
pub proof fn lemma_id_present(manager: ManagerModel, i: int)
    requires
        0 <= i < manager.groups.len(),
    ensures
        manager.find_by_id(manager.groups[i].id) is Some,
{
    let ids = manager.group_ids();
    assert(ids[i] == manager.groups[i].id);
    lemma_some_first(ids, manager.groups[i].id, i);
}

/// A group named `name` at position `i` makes a lookup by that name
/// succeed.
pub proof fn lemma_name_present(manager: ManagerModel, i: int)
    requires
        0 <= i < manager.groups.len(),
    ensures
        manager.find_by_name(manager.groups[i].name) is Some,
{
    let names = manager.group_names();
    assert(names[i] == manager.groups[i].name);
    lemma_some_first(names, manager.groups[i].name, i);
}

/// A new manager meets the invariant.
pub proof fn lemma_fresh_wf()
    ensures
        ManagerModel::fresh().wf(),
{
}

/// Selecting a group and dropping the selection keep the invariant.
pub proof fn lemma_selection_wf(manager: ManagerModel, id: nat)
    requires
        manager.wf(),
    ensures
        manager.use_group(id).0.wf(),
        manager.reset_group().wf(),
{
    let used = manager.use_group(id).0;
    assert(used.groups == manager.groups);
    assert(used.group_ids() == manager.group_ids());
    let reset = manager.reset_group();
    assert(reset.groups == manager.groups);
}

/// After a group was selected it is the current group, on every day.
pub proof fn lemma_use_group_selects(manager: ManagerModel, id: nat, today: Seq<char>)
    requires
        manager.use_group(id).1 is Ok,
    ensures
        manager.use_group(id).0.group(today) == manager.use_group(id).1,
{
    let used = manager.use_group(id).0;
    assert(used.group_ids() == manager.group_ids());
}

/// Adding a group keeps the invariant.
pub proof fn lemma_add_group_wf(manager: ManagerModel, name: Seq<char>)
    requires
        manager.wf(),
    ensures
        manager.add_group(name).0.wf(),
{
    let after = manager.add_group(name).0;
    if manager.add_group(name).1 is Ok {
        let n = manager.groups.len() as int;
        lemma_find_by_name(manager, name);
        assert forall|i: int| 0 <= i < after.groups.len() implies (
        #[trigger] after.groups[i]).wf() && 1 <= after.groups[i].id < after.next_group by {
            if i < n {
                assert(after.groups[i] == manager.groups[i]);
            }
        }
        assert forall|i: int, j: int| 0 <= i < j < after.groups.len() implies (
        #[trigger] after.groups[i]).id < (#[trigger] after.groups[j]).id by {
            assert(after.groups[i] == manager.groups[i]);
            if j < n {
                assert(after.groups[j] == manager.groups[j]);
            }
        }
        assert forall|i: int, j: int| 0 <= i < j < after.groups.len() implies (
        #[trigger] after.groups[i]).name != (#[trigger] after.groups[j]).name by {
            assert(after.groups[i] == manager.groups[i]);
            if j < n {
                assert(after.groups[j] == manager.groups[j]);
            }
        }
        if after.current_group is Some {
            let c = after.current_group.unwrap();
            lemma_find_by_id(manager, c);
            let k = manager.find_by_id(c).unwrap();
            assert(after.groups[k] == manager.groups[k]);
            lemma_id_present(after, k);
        }
    }
}

/// A name can be given to one group only: after a group was added under
/// a name, adding another under the same name fails with
/// `DuplicateGroupName` and leaves the manager, and so the number of its
/// groups, as it is.
pub proof fn lemma_add_group_twice(manager: ManagerModel, name: Seq<char>)
    requires
        manager.add_group(name).1 is Ok,
    ensures
        manager.add_group(name).0.add_group(name) == (
            manager.add_group(name).0,
            Err::<GroupModel, Error>(Error::DuplicateGroupName),
        ),
        manager.add_group(name).0.groups.len() == manager.groups.len() + 1,
{
    let after = manager.add_group(name).0;
    let n = manager.groups.len() as int;
    assert(after.groups[n].name == name);
    lemma_name_present(after, n);
}

/// A manager that holds a group of some name refuses another of that
/// name, whatever else it holds.
pub proof fn lemma_duplicate_refused(manager: ManagerModel, i: int)
    requires
        0 <= i < manager.groups.len(),
    ensures
        manager.add_group(manager.groups[i].name) == (
            manager,
            Err::<GroupModel, Error>(Error::DuplicateGroupName),
        ),
{
    lemma_name_present(manager, i);
}

/// Putting a group that meets its invariant in the place of one with the
/// same id and name keeps the invariant of the manager.
pub proof fn lemma_with_group_wf(manager: ManagerModel, i: int, group: GroupModel)
    requires
        manager.wf(),
        0 <= i < manager.groups.len(),
        group.wf(),
        group.id == manager.groups[i].id,
        group.name == manager.groups[i].name,
    ensures
        manager.with_group(i, group).wf(),
{
    let after = manager.with_group(i, group);
    assert forall|k: int| 0 <= k < after.groups.len() implies (#[trigger] after.groups[k]).wf()
        && 1 <= after.groups[k].id < after.next_group && after.groups[k].id
        == manager.groups[k].id && after.groups[k].name == manager.groups[k].name by {
        assert(manager.groups[k].wf());
    }
    assert forall|a: int, b: int| 0 <= a < b < after.groups.len() implies (
    #[trigger] after.groups[a]).id < (#[trigger] after.groups[b]).id by {
        assert(manager.groups[a].id < manager.groups[b].id);
    }
    assert forall|a: int, b: int| 0 <= a < b < after.groups.len() implies (
    #[trigger] after.groups[a]).name != (#[trigger] after.groups[b]).name by {
        assert(manager.groups[a].name != manager.groups[b].name);
    }
    if after.current_group is Some {
        let c = after.current_group.unwrap();
        lemma_find_by_id(manager, c);
        let k = manager.find_by_id(c).unwrap();
        assert(after.groups[k].id == c);
        lemma_id_present(after, k);
    }
}

/// The position of the current group lies among the groups.
pub proof fn lemma_resolve(manager: ManagerModel, today: Seq<char>)
    ensures
        manager.resolve(today) matches Some(i) ==> 0 <= i < manager.groups.len(),
{
    match manager.current_group {
        Some(c) => lemma_find_by_id(manager, c),
        None => lemma_find_by_name(manager, today),
    }
}

/// Every operation on the tasks of the current group keeps the invariant
/// of the manager, and so at most one task of each group runs at any
/// time.
pub proof fn lemma_task_operations_wf(
    manager: ManagerModel,
    name: Seq<char>,
    id: nat,
    target: Option<nat>,
    now: int,
    today: Seq<char>,
)
    requires
        manager.wf(),
    ensures
        manager.add_task(name, today).0.wf(),
        manager.remove_task(id, today).0.wf(),
        manager.start_task(id, now, today).0.wf(),
        manager.stop_current(now, today).0.wf(),
        manager.complete_task(target, now, today).0.wf(),
{
    lemma_resolve(manager, today);
    if manager.resolve(today) is Some {
        let i = manager.resolve(today).unwrap();
        let group = manager.groups[i];
        assert(group.wf());
        lemma_add_task_wf(group, name);
        lemma_with_group_wf(manager, i, group.add_task(name).0);
        lemma_remove_task_wf(group, id);
        lemma_with_group_wf(manager, i, group.remove_task(id).0);
        lemma_start_task_wf(group, id, now);
        lemma_with_group_wf(manager, i, group.start_task(id, now).0);
        lemma_stop_current_wf(group, now);
        lemma_with_group_wf(manager, i, group.stop_current(now).0);
        lemma_complete_task_wf(group, target, now);
        lemma_with_group_wf(manager, i, group.complete_task(target, now).0);
    }
}

/// An operation that fails leaves the manager as it was.
pub proof fn lemma_failure_changes_nothing(
    manager: ManagerModel,
    name: Seq<char>,
    id: nat,
    target: Option<nat>,
    retain: bool,
    ids: Set<nat>,
    now: int,
    today: Seq<char>,
)
    ensures
        manager.use_group(id).1 is Err ==> manager.use_group(id).0 == manager,
        manager.add_group(name).1 is Err ==> manager.add_group(name).0 == manager,
        manager.add_task(name, today).1 is Err ==> manager.add_task(name, today).0 == manager,
        manager.remove_task(id, today).1 is Err ==> manager.remove_task(id, today).0 == manager,
        manager.start_task(id, now, today).1 is Err ==> manager.start_task(id, now, today).0
            == manager,
        manager.stop_current(now, today).1 is Err ==> manager.stop_current(now, today).0
            == manager,
        manager.complete_task(target, now, today).1 is Err ==> manager.complete_task(
            target,
            now,
            today,
        ).0 == manager,
        manager.extract_groups(retain, ids, today).1 is Err ==> manager.extract_groups(
            retain,
            ids,
            today,
        ).0 == manager,
{
    lemma_resolve(manager, today);
    if manager.resolve(today) is Some {
        let i = manager.resolve(today).unwrap();
        assert(manager.groups.update(i, manager.groups[i]) =~= manager.groups);
    }
}

/// What a completion through the manager refuses: in a current group
/// without a running task a completion without an id fails with
/// `NoTaskSpecifiedForComplete`, and one with an id that no task of the
/// group has fails with `TaskNotFound`; either way the manager stays as
/// it is.
pub proof fn lemma_complete_task_refused(
    manager: ManagerModel,
    id: nat,
    now: int,
    today: Seq<char>,
)
    requires
        manager.group(today) is Ok,
    ensures
        manager.group(today)->Ok_0.current_task is None ==> manager.complete_task(
            None,
            now,
            today,
        ) == (manager, Err::<TaskModel, Error>(Error::NoTaskSpecifiedForComplete)),
        manager.group(today)->Ok_0.find(id) is None ==> manager.complete_task(
            Some(id),
            now,
            today,
        ) == (manager, Err::<TaskModel, Error>(Error::TaskNotFound)),
{
    lemma_resolve(manager, today);
    let i = manager.resolve(today).unwrap();
    assert(manager.groups.update(i, manager.groups[i]) =~= manager.groups);
}

} // verus!
