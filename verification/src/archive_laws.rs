//! The laws of archival, of renumbering and of getting ready for a day.

use vstd::prelude::*;
use crate::filter::{lemma_filter_origin, origin};
use crate::group::GroupModel;
use crate::lookup::{is_first_at, lemma_first_index_of, lemma_found};
use crate::manager::{dense_id, leaves, stays, ManagerModel};
use crate::manager_laws::{
    lemma_add_group_wf, lemma_find_by_id, lemma_find_by_name, lemma_find_own_id,
    lemma_id_present, lemma_name_present, lemma_resolve,
};

verus! {

/// Of the groups of a sequence each either leaves or stays: the two
/// results of an extraction have together as many groups as there were.
pub proof fn lemma_extraction_splits(groups: Seq<GroupModel>, retain: bool, ids: Set<nat>)
    ensures
        groups.filter(stays(retain, ids)).len() + groups.filter(leaves(retain, ids)).len()
            == groups.len(),
    decreases groups.len(),
{
    reveal(Seq::filter);
    if groups.len() > 0 {
        lemma_extraction_splits(groups.drop_last(), retain, ids);
    }
}

/// An extraction never takes the current group out. Where it succeeds,
/// the current group is afterwards the group it was before, none of the
/// groups handed back has its id, and every group either stays or is
/// handed back.
pub proof fn lemma_extract_keeps_current(
    manager: ManagerModel,
    retain: bool,
    ids: Set<nat>,
    today: Seq<char>,
)
    requires
        manager.extract_groups(retain, ids, today).1 is Ok,
    ensures
        manager.group(today) is Ok,
        manager.extract_groups(retain, ids, today).0.group(today) == manager.group(today),
        forall|k: int|
            0 <= k < manager.extract_groups(retain, ids, today).1->Ok_0.len() ==> (
            #[trigger] manager.extract_groups(retain, ids, today).1->Ok_0[k]).id
                != manager.group(today)->Ok_0.id,
        manager.extract_groups(retain, ids, today).0.groups.len() + manager.extract_groups(
            retain,
            ids,
            today,
        ).1->Ok_0.len() == manager.groups.len(),
{
    let after = manager.extract_groups(retain, ids, today).0;
    let out = manager.extract_groups(retain, ids, today).1->Ok_0;
    let s = manager.groups;
    lemma_resolve(manager, today);
    let i = manager.resolve(today).unwrap();
    lemma_filter_origin(s, stays(retain, ids));
    lemma_filter_origin(s, leaves(retain, ids));
    lemma_extraction_splits(s, retain, ids);
    assert(stays(retain, ids)(s[i]));
    let k = choose|k: int| 0 <= k < after.groups.len() && origin(s, stays(retain, ids), k) == i;
    assert(after.groups[k] == s[i]);
    match manager.current_group {
        Some(c) => {
            lemma_find_by_id(manager, c);
            lemma_first_index_of(manager.group_ids(), c);
            assert forall|j: int| 0 <= j < k implies after.group_ids()[j] != c by {
                let o = origin(s, stays(retain, ids), j);
                assert(o < origin(s, stays(retain, ids), k));
                assert(manager.group_ids()[o] != c);
                assert(after.groups[j] == s[o]);
            }
            assert(is_first_at(after.group_ids(), c, k));
            lemma_found(after.group_ids(), c, k);
        },
        None => {
            lemma_find_by_name(manager, today);
            lemma_first_index_of(manager.group_names(), today);
            assert forall|j: int| 0 <= j < k implies after.group_names()[j] != today by {
                let o = origin(s, stays(retain, ids), j);
                assert(o < origin(s, stays(retain, ids), k));
                assert(manager.group_names()[o] != today);
                assert(after.groups[j] == s[o]);
            }
            assert(is_first_at(after.group_names(), today, k));
            lemma_found(after.group_names(), today, k);
        },
    }
    assert forall|j: int| 0 <= j < out.len() implies (#[trigger] out[j]).id != s[i].id by {
        assert(leaves(retain, ids)(out[j]));
    }
}

/// An extraction keeps the invariant of the manager.
pub proof fn lemma_extract_wf(manager: ManagerModel, retain: bool, ids: Set<nat>, today: Seq<char>)
    requires
        manager.wf(),
    ensures
        manager.extract_groups(retain, ids, today).0.wf(),
{
    let after = manager.extract_groups(retain, ids, today).0;
    if manager.extract_groups(retain, ids, today).1 is Ok {
        let s = manager.groups;
        let pred = stays(retain, ids);
        lemma_filter_origin(s, pred);
        assert forall|k: int| 0 <= k < after.groups.len() implies (
        #[trigger] after.groups[k]).wf() && 1 <= after.groups[k].id < after.next_group by {
            let o = origin(s, pred, k);
            assert(after.groups[k] == s[o]);
            assert(s[o].wf());
        }
        assert forall|a: int, b: int| 0 <= a < b < after.groups.len() implies (
        #[trigger] after.groups[a]).id < (#[trigger] after.groups[b]).id by {
            let oa = origin(s, pred, a);
            let ob = origin(s, pred, b);
            assert(oa < ob);
            assert(s[oa].id < s[ob].id);
        }
        assert forall|a: int, b: int| 0 <= a < b < after.groups.len() implies (
        #[trigger] after.groups[a]).name != (#[trigger] after.groups[b]).name by {
            let oa = origin(s, pred, a);
            let ob = origin(s, pred, b);
            assert(oa < ob);
            assert(s[oa].name != s[ob].name);
        }
        if after.current_group is Some {
            lemma_extract_keeps_current(manager, retain, ids, today);
        }
    }
}

/// Ids that grow with the order and start at 1 or above are renumbered
/// to 1, 2, 3 and so on.
pub proof fn lemma_dense_ids(ids: Seq<nat>, i: int)
    requires
        0 <= i < ids.len(),
        ids[0] >= 1,
        forall|a: int, b: int| 0 <= a < b < ids.len() ==> ids[a] < ids[b],
    ensures
        dense_id(ids, i) == i + 1,
        ids[i] >= i + 1,
    decreases i,
{
    if i > 0 {
        lemma_dense_ids(ids, i - 1);
        assert(ids[i - 1] < ids[i]);
    }
}

/// Renumbering is order-preserving and id-dense. The groups keep their
/// places, names and tasks; in a manager that meets its invariant the new
/// ids are 1, 2, 3 and so on, the next new group gets the number after
/// the last, and the selection follows the selected group: where the
/// group at position `k` was selected, it is selected afterwards under
/// its new id `k + 1`. The invariant is kept.
pub proof fn lemma_minimize_dense(manager: ManagerModel)
    requires
        manager.wf(),
    ensures
        manager.minimized().groups.len() == manager.groups.len(),
        forall|i: int|
            0 <= i < manager.groups.len() ==> #[trigger] manager.minimized().groups[i] == (
            GroupModel { id: (i + 1) as nat, ..manager.groups[i] }),
        manager.minimized().next_group == manager.groups.len() + 1,
        manager.current_group is None ==> manager.minimized().current_group is None,
        forall|k: int|
            0 <= k < manager.groups.len() && manager.current_group == Some(
                manager.groups[k].id,
            ) ==> manager.minimized().current_group == Some((k + 1) as nat),
        manager.minimized().wf(),
{
    let after = manager.minimized();
    let ids = manager.group_ids();
    let n = manager.groups.len() as int;
    assert forall|i: int| 0 <= i < n implies #[trigger] after.groups[i] == (GroupModel {
        id: (i + 1) as nat,
        ..manager.groups[i]
    }) by {
        assert(manager.groups[0].wf());
        assert forall|a: int, b: int| 0 <= a < b < ids.len() implies ids[a] < ids[b] by {
            assert(manager.groups[a].id < manager.groups[b].id);
        }
        lemma_dense_ids(ids, i);
    }
    if n > 0 {
        assert(after.groups[n - 1].id == n);
        assert(dense_id(ids, n - 1) == n);
    }
    assert forall|k: int|
        0 <= k < n && manager.current_group == Some(
            manager.groups[k].id,
        ) implies after.current_group == Some((k + 1) as nat) by {
        lemma_find_own_id(manager, k);
        assert(after.groups[k].id == k + 1);
    }
    assert forall|i: int| 0 <= i < n implies (#[trigger] after.groups[i]).wf() && 1
        <= after.groups[i].id < after.next_group by {
        assert(manager.groups[i].wf());
        assert(after.groups[i] == (GroupModel { id: (i + 1) as nat, ..manager.groups[i] }));
        assert(after.groups[i].task_ids() =~= manager.groups[i].task_ids());
    }
    assert forall|a: int, b: int| 0 <= a < b < n implies (#[trigger] after.groups[a]).name != (
    #[trigger] after.groups[b]).name by {
        assert(manager.groups[a].name != manager.groups[b].name);
    }
    if manager.current_group is Some {
        let c = manager.current_group.unwrap();
        lemma_find_by_id(manager, c);
        let k = manager.find_by_id(c).unwrap();
        assert(after.groups[k].id == k + 1);
        lemma_id_present(after, k);
    }
}

/// Renumbering leaves the current group in place: on every day the
/// current group is afterwards at the position at which it was before.
pub proof fn lemma_minimize_keeps_current(manager: ManagerModel, today: Seq<char>)
    requires
        manager.wf(),
    ensures
        manager.minimized().resolve(today) == manager.resolve(today),
{
    let after = manager.minimized();
    lemma_minimize_dense(manager);
    match manager.current_group {
        Some(c) => {
            lemma_find_by_id(manager, c);
            let k = manager.find_by_id(c).unwrap();
            lemma_find_own_id(manager, k);
            lemma_find_own_id(after, k);
        },
        None => {
            assert(after.group_names() =~= manager.group_names());
        },
    }
}

/// Getting ready for a day keeps the invariant. Afterwards a group of
/// that day exists unless the counter of ids is exhausted, and it is the
/// current group where none is selected. A group is added exactly where
/// none of that name was there and the counter could advance.
pub proof fn lemma_init(manager: ManagerModel, today: Seq<char>)
    requires
        manager.wf(),
    ensures
        manager.init(today).0.wf(),
        manager.next_group < usize::MAX ==> manager.init(today).0.find_by_name(today) is Some,
        manager.next_group < usize::MAX && manager.current_group is None ==> manager.init(
            today,
        ).0.group(today) is Ok,
        manager.init(today).1 <==> manager.find_by_name(today) is None && manager.next_group
            < usize::MAX,
        !manager.init(today).1 ==> manager.init(today).0 == manager,
{
    lemma_add_group_wf(manager, today);
    let after = manager.init(today).0;
    if manager.init(today).1 {
        let n = manager.groups.len() as int;
        assert(after.groups[n].name == today);
        lemma_name_present(after, n);
    }
}

/// A new manager made ready for a day holds one group, named after the
/// day, empty and with the id 1, and that group is the current one.
pub proof fn lemma_init_fresh(today: Seq<char>)
    ensures
        ManagerModel::fresh().init(today).1,
        ManagerModel::fresh().init(today).0.groups == seq![GroupModel::fresh(1, today)],
        ManagerModel::fresh().init(today).0.group(today) == Ok::<GroupModel, crate::error::Error>(
            GroupModel::fresh(1, today),
        ),
{
    let fresh = ManagerModel::fresh();
    lemma_find_by_name(fresh, today);
    let after = fresh.init(today).0;
    assert(after.groups =~= seq![GroupModel::fresh(1, today)]);
    assert(after.groups[0].name == today);
    assert(is_first_at(after.group_names(), today, 0));
    lemma_found(after.group_names(), today, 0);
}

} // verus!
