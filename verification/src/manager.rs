//! The owner of all groups: it selects the current group and forwards the
//! task operations to it.

use vstd::prelude::*;
use crate::clock::ClockReading;
use crate::error::Error;
use crate::group::{opt_index, opt_nat, Group, GroupModel};
use crate::filter::lemma_filter_take_step;
use crate::lookup::{first_index_of, is_first_at, lemma_absent, lemma_first_index_of, lemma_found};
use crate::manager_laws::lemma_resolve;
use crate::task::{outcome, Task, TaskModel};

verus! {

/// The mathematical value of a [`Manager`].
pub ghost struct ManagerModel {
    /// The id that the next new group gets.
    pub next_group: nat,
    /// The id of the selected group; `None` selects the group of today.
    pub current_group: Option<nat>,
    /// The groups in the order in which they were added.
    pub groups: Seq<GroupModel>,
}

/// The ids of a list, as a set.
pub open spec fn id_set(ids: Seq<usize>) -> Set<nat> {
    Set::new(|n: nat| exists|i: int| 0 <= i < ids.len() && ids[i] as nat == n)
}

/// Whether an extraction by `ids` takes the group with the id `id` out:
/// with `retain` the listed groups stay and all others leave, without it
/// the listed groups leave.
pub open spec fn is_extracted(retain: bool, ids: Set<nat>, id: nat) -> bool {
    ids.contains(id) != retain
}

/// The groups that an extraction takes out.
pub open spec fn leaves(retain: bool, ids: Set<nat>) -> spec_fn(GroupModel) -> bool {
    |group: GroupModel| is_extracted(retain, ids, group.id)
}

/// The groups that an extraction leaves in place.
pub open spec fn stays(retain: bool, ids: Set<nat>) -> spec_fn(GroupModel) -> bool {
    |group: GroupModel| !is_extracted(retain, ids, group.id)
}

/// The smaller of two ids.
pub open spec fn smaller(a: nat, b: nat) -> nat {
    if a <= b {
        a
    } else {
        b
    }
}

/// The id that renumbering gives to the group at position `i` of groups
/// with the ids `ids`: the smaller of its own id and the number after the
/// new id of the group before it, the first group being measured
/// against 1.
pub open spec fn dense_id(ids: Seq<nat>, i: int) -> nat
    decreases i,
{
    if i <= 0 {
        smaller(ids[0], 1)
    } else {
        smaller(ids[i], dense_id(ids, i - 1) + 1)
    }
}

/// The number after the new id of the group before position `i`: what
/// the group at `i` is measured against, and after the last group the
/// id that the next new group gets.
pub open spec fn dense_bound(ids: Seq<nat>, i: int) -> nat {
    if i <= 0 {
        1
    } else {
        dense_id(ids, i - 1) + 1
    }
}

impl ManagerModel {
    /// A manager without groups, whose first group will get the id 1.
    pub open spec fn fresh() -> ManagerModel {
        ManagerModel { next_group: 1, current_group: None, groups: Seq::empty() }
    }

    /// The ids of the groups, in the order of the groups.
    pub open spec fn group_ids(self) -> Seq<nat> {
        Seq::new(self.groups.len(), |i: int| self.groups[i].id)
    }

    /// The names of the groups, in the order of the groups.
    pub open spec fn group_names(self) -> Seq<Seq<char>> {
        Seq::new(self.groups.len(), |i: int| self.groups[i].name)
    }

    /// The position of the first group with the id `id`.
    pub open spec fn find_by_id(self, id: nat) -> Option<int> {
        first_index_of(self.group_ids(), id)
    }

    /// The position of the first group named `name`.
    pub open spec fn find_by_name(self, name: Seq<char>) -> Option<int> {
        first_index_of(self.group_names(), name)
    }

    /// The ids of the groups grow with their order, so that no two groups
    /// share one.
    pub open spec fn ordered(self) -> bool {
        forall|i: int, j: int|
            0 <= i < j < self.groups.len() ==> (#[trigger] self.groups[i]).id
                < (#[trigger] self.groups[j]).id
    }

    /// No two groups share a name.
    pub open spec fn distinct_names(self) -> bool {
        forall|i: int, j: int|
            0 <= i < j < self.groups.len() ==> (#[trigger] self.groups[i]).name
                != (#[trigger] self.groups[j]).name
    }

    /// The invariant of a manager: every group meets its own invariant;
    /// the ids of the groups grow with their order, start at 1 or above
    /// and lie below the counter; no two groups share a name; and the
    /// selected group exists.
    pub open spec fn wf(self) -> bool {
        &&& 1 <= self.next_group
        &&& forall|i: int|
            0 <= i < self.groups.len() ==> (#[trigger] self.groups[i]).wf() && 1
                <= self.groups[i].id < self.next_group
        &&& self.ordered()
        &&& self.distinct_names()
        &&& self.current_group matches Some(c) ==> self.find_by_id(c) is Some
    }

    /// The position of the current group on the day labelled `today`: the
    /// selected group, or without a selection the group named `today`.
    pub open spec fn resolve(self, today: Seq<char>) -> Option<int> {
        match self.current_group {
            Some(c) => self.find_by_id(c),
            None => self.find_by_name(today),
        }
    }

    /// The current group on the day labelled `today`.
    pub open spec fn group(self, today: Seq<char>) -> Result<GroupModel, Error> {
        match self.resolve(today) {
            Some(i) => Ok(self.groups[i]),
            None => Err(Error::GroupResolutionFailed),
        }
    }

    /// Selects the group with the id `id`.
    pub open spec fn use_group(self, id: nat) -> (ManagerModel, Result<GroupModel, Error>) {
        match self.find_by_id(id) {
            Some(i) => (ManagerModel { current_group: Some(id), ..self }, Ok(self.groups[i])),
            None => (self, Err(Error::GroupNotFound)),
        }
    }

    /// Drops the selection: the current group is that of today again.
    pub open spec fn reset_group(self) -> ManagerModel {
        ManagerModel { current_group: None, ..self }
    }

    /// Adds an empty group named `name` under the next free id. Fails
    /// where a group of that name exists, and where the counter cannot
    /// advance.
    pub open spec fn add_group(self, name: Seq<char>) -> (ManagerModel, Result<GroupModel, Error>) {
        if self.find_by_name(name) is Some {
            (self, Err(Error::DuplicateGroupName))
        } else if self.next_group >= usize::MAX {
            (self, Err(Error::IdSpaceExhausted))
        } else {
            let group = GroupModel::fresh(self.next_group, name);
            (
                ManagerModel {
                    next_group: self.next_group + 1,
                    groups: self.groups.push(group),
                    ..self
                },
                Ok(group),
            )
        }
    }

    /// The manager with `group` in place of the group at position `i`.
    pub open spec fn with_group(self, i: int, group: GroupModel) -> ManagerModel {
        ManagerModel { groups: self.groups.update(i, group), ..self }
    }

    /// What an operation on the group at position `i` makes of the
    /// manager, `step` being what it makes of that group.
    pub open spec fn place(self, i: int, step: (GroupModel, Result<TaskModel, Error>)) -> (
        ManagerModel,
        Result<TaskModel, Error>,
    ) {
        (self.with_group(i, step.0), step.1)
    }

    /// Adds a task named `name` to the current group.
    pub open spec fn add_task(self, name: Seq<char>, today: Seq<char>) -> (
        ManagerModel,
        Result<TaskModel, Error>,
    ) {
        match self.resolve(today) {
            Some(i) => self.place(i, self.groups[i].add_task(name)),
            None => (self, Err(Error::GroupResolutionFailed)),
        }
    }

    /// Removes the task with the id `id` from the current group.
    pub open spec fn remove_task(self, id: nat, today: Seq<char>) -> (
        ManagerModel,
        Result<TaskModel, Error>,
    ) {
        match self.resolve(today) {
            Some(i) => self.place(i, self.groups[i].remove_task(id)),
            None => (self, Err(Error::GroupResolutionFailed)),
        }
    }

    /// Starts the task with the id `id` of the current group at `now`.
    pub open spec fn start_task(self, id: nat, now: int, today: Seq<char>) -> (
        ManagerModel,
        Result<TaskModel, Error>,
    ) {
        match self.resolve(today) {
            Some(i) => self.place(i, self.groups[i].start_task(id, now)),
            None => (self, Err(Error::GroupResolutionFailed)),
        }
    }

    /// Stops the running task of the current group at `now`.
    pub open spec fn stop_current(self, now: int, today: Seq<char>) -> (
        ManagerModel,
        Result<TaskModel, Error>,
    ) {
        match self.resolve(today) {
            Some(i) => self.place(i, self.groups[i].stop_current(now)),
            None => (self, Err(Error::GroupResolutionFailed)),
        }
    }

    /// Completes at `now` the task with the given id, or without one the
    /// running task, of the current group.
    pub open spec fn complete_task(self, id: Option<nat>, now: int, today: Seq<char>) -> (
        ManagerModel,
        Result<TaskModel, Error>,
    ) {
        match self.resolve(today) {
            Some(i) => self.place(i, self.groups[i].complete_task(id, now)),
            None => (self, Err(Error::GroupResolutionFailed)),
        }
    }

    /// Takes groups out of the manager: with `retain` all but those
    /// listed in `ids`, without it those listed. The groups taken out are
    /// handed back in their order, and so stay the others. Fails, taking
    /// nothing out, where there is no current group and where the current
    /// group would leave.
    pub open spec fn extract_groups(self, retain: bool, ids: Set<nat>, today: Seq<char>) -> (
        ManagerModel,
        Result<Seq<GroupModel>, Error>,
    ) {
        match self.resolve(today) {
            None => (self, Err(Error::GroupResolutionFailed)),
            Some(c) => if is_extracted(retain, ids, self.groups[c].id) {
                (self, Err(Error::CannotArchiveCurrentGroup))
            } else {
                (
                    ManagerModel { groups: self.groups.filter(stays(retain, ids)), ..self },
                    Ok(self.groups.filter(leaves(retain, ids))),
                )
            },
        }
    }

    /// The manager with its groups renumbered: each group keeps its place
    /// and all but its id, which becomes its [`dense_id`]. The selection
    /// follows the selected group to its new id, and the next new group
    /// gets the number after the last new id.
    pub open spec fn minimized(self) -> ManagerModel {
        let ids = self.group_ids();
        ManagerModel {
            next_group: dense_bound(ids, self.groups.len() as int),
            current_group: match self.current_group {
                Some(c) => match self.find_by_id(c) {
                    Some(k) => Some(dense_id(ids, k)),
                    None => Some(c),
                },
                None => None,
            },
            groups: Seq::new(
                self.groups.len(),
                |i: int| GroupModel { id: dense_id(ids, i), ..self.groups[i] },
            ),
        }
    }

    /// The manager made ready for the day labelled `today`: a group of
    /// that name is added where there is none. The flag says whether a
    /// group was added.
    pub open spec fn init(self, today: Seq<char>) -> (ManagerModel, bool) {
        (self.add_group(today).0, self.add_group(today).1 is Ok)
    }

    /// Whether a list of the groups marks `group` as the current one on
    /// the day labelled `today`.
    pub open spec fn marks_current(self, group: GroupModel, today: Seq<char>) -> bool {
        match self.current_group {
            Some(c) => group.id == c,
            None => group.name == today,
        }
    }
}

/// A manager: the groups, the counter of their ids, and the selection.
#[derive(Debug)]
pub struct Manager {
    next_group: usize,
    current_group: Option<usize>,
    groups: Vec<Group>,
}

/// The mathematical values of a vector of groups.
pub open spec fn group_models(groups: Seq<Group>) -> Seq<GroupModel> {
    Seq::new(groups.len(), |i: int| groups[i]@)
}

/// What an operation that hands back a group returns, with the group as
/// its mathematical value.
pub open spec fn group_outcome(result: Result<Group, Error>) -> Result<GroupModel, Error> {
    match result {
        Ok(group) => Ok(group@),
        Err(e) => Err(e),
    }
}

/// The value of a stored snapshot, and that of a new manager where
/// nothing is stored.
pub open spec fn stored_or_fresh(snapshot: Option<Manager>) -> ManagerModel {
    match snapshot {
        Some(stored) => stored@,
        None => ManagerModel::fresh(),
    }
}

/// What an extraction hands back, with the groups as their mathematical
/// values.
pub open spec fn groups_outcome(result: Result<Vec<Group>, Error>) -> Result<
    Seq<GroupModel>,
    Error,
> {
    match result {
        Ok(groups) => Ok(group_models(groups@)),
        Err(e) => Err(e),
    }
}

/// Whether `id` is in the list `ids`.
pub fn contains_id(ids: &Vec<usize>, id: usize) -> (found: bool)
    ensures
        found == id_set(ids@).contains(id as nat),
{
    let mut i: usize = 0;
    while i < ids.len()
        invariant
            i <= ids.len(),
            forall|j: int| 0 <= j < i ==> ids[j] != id,
        decreases ids.len() - i,
    {
        if ids[i] == id {
            return true;
        }
        i += 1;
    }
    false
}

/// The value that [`Manager::from_parts`] gives to the parts.
pub open spec fn manager_of_parts(
    next_group: usize,
    current_group: Option<usize>,
    groups: Seq<Group>,
) -> ManagerModel {
    ManagerModel {
        next_group: next_group as nat,
        current_group: opt_nat(current_group),
        groups: group_models(groups),
    }
}

impl View for Manager {
    type V = ManagerModel;

    closed spec fn view(&self) -> ManagerModel {
        ManagerModel {
            next_group: self.next_group as nat,
            current_group: opt_nat(self.current_group),
            groups: group_models(self.groups@),
        }
    }
}

impl Manager {
    /// A manager without groups.
    pub fn new() -> (manager: Manager)
        ensures
            manager@ == ManagerModel::fresh(),
    {
        let manager = Manager { next_group: 1, current_group: None, groups: Vec::new() };
        assert(manager@.groups =~= Seq::empty());
        manager
    }

    /// A manager with exactly the given field values, as a stored snapshot
    /// holds them.
    pub fn from_parts(next_group: usize, current_group: Option<usize>, groups: Vec<Group>) -> (manager:
        Manager)
        ensures
            manager@ == manager_of_parts(next_group, current_group, groups@),
    {
        Manager { next_group, current_group, groups }
    }

    /// The position of the first group with the id `group_id`, by linear
    /// scan.
    pub fn group_by_id(&self, group_id: usize) -> (found: Option<usize>)
        ensures
            opt_index(found) == self@.find_by_id(group_id as nat),
    {
        let mut i: usize = 0;
        while i < self.groups.len()
            invariant
                i <= self.groups.len(),
                forall|j: int| 0 <= j < i ==> self@.group_ids()[j] != group_id as nat,
            decreases self.groups.len() - i,
        {
            if self.groups[i].id() == group_id {
                proof {
                    assert(is_first_at(self@.group_ids(), group_id as nat, i as int));
                    lemma_found(self@.group_ids(), group_id as nat, i as int);
                }
                return Some(i);
            }
            i += 1;
        }
        proof {
            lemma_absent(self@.group_ids(), group_id as nat);
        }
        None
    }

    /// The position of the first group named `group_name`, by linear scan.
    pub fn group_by_name(&self, group_name: &String) -> (found: Option<usize>)
        ensures
            opt_index(found) == self@.find_by_name(group_name@),
    {
        let mut i: usize = 0;
        while i < self.groups.len()
            invariant
                i <= self.groups.len(),
                forall|j: int| 0 <= j < i ==> self@.group_names()[j] != group_name@,
            decreases self.groups.len() - i,
        {
            if *self.groups[i].name() == *group_name {
                proof {
                    assert(is_first_at(self@.group_names(), group_name@, i as int));
                    lemma_found(self@.group_names(), group_name@, i as int);
                }
                return Some(i);
            }
            i += 1;
        }
        proof {
            lemma_absent(self@.group_names(), group_name@);
        }
        None
    }

    /// The position of the current group at the reading `clock`.
    pub fn resolve_group(&self, clock: &ClockReading) -> (found: Option<usize>)
        ensures
            opt_index(found) == self@.resolve(clock.today@),
    {
        match self.current_group {
            Some(current) => self.group_by_id(current),
            None => self.group_by_name(&clock.today),
        }
    }

    /// The current group at the reading `clock`. Fails with
    /// `GroupResolutionFailed` where there is none.
    pub fn group_at(&self, clock: &ClockReading) -> (result: Result<&Group, Error>)
        ensures
            match result {
                Ok(group) => self@.group(clock.today@) == Ok::<GroupModel, Error>(group@),
                Err(e) => self@.group(clock.today@) == Err::<GroupModel, Error>(e),
            },
    {
        match self.resolve_group(clock) {
            Some(i) => {
                proof {
                    match self@.current_group {
                        Some(c) => lemma_first_index_of(self@.group_ids(), c),
                        None => lemma_first_index_of(self@.group_names(), clock.today@),
                    }
                }
                Ok(&self.groups[i])
            },
            None => Err(Error::GroupResolutionFailed),
        }
    }

    /// Selects the group with the id `group_id` and hands back a copy of
    /// it. Fails with `GroupNotFound` where no group has that id.
    pub fn use_group(&mut self, group_id: usize) -> (result: Result<Group, Error>)
        ensures
            (final(self)@, group_outcome(result)) == old(self)@.use_group(group_id as nat),
    {
        match self.group_by_id(group_id) {
            Some(i) => {
                proof {
                    lemma_first_index_of(self@.group_ids(), group_id as nat);
                }
                let copy = self.groups[i].clone();
                self.current_group = Some(group_id);
                Ok(copy)
            },
            None => Err(Error::GroupNotFound),
        }
    }

    /// Drops the selection: the current group is that of today again.
    pub fn reset_group(&mut self)
        ensures
            final(self)@ == old(self)@.reset_group(),
    {
        self.current_group = None;
    }

    /// Adds an empty group named `name` and hands back a copy of it. Fails
    /// with `DuplicateGroupName` where a group of that name exists, and
    /// with `IdSpaceExhausted` where the counter cannot advance.
    pub fn add_group(&mut self, name: String) -> (result: Result<Group, Error>)
        ensures
            (final(self)@, group_outcome(result)) == old(self)@.add_group(name@),
    {
        if self.group_by_name(&name).is_some() {
            return Err(Error::DuplicateGroupName);
        }
        if self.next_group == usize::MAX {
            return Err(Error::IdSpaceExhausted);
        }
        let group = Group::new(self.next_group, name);
        let copy = group.clone();
        self.next_group += 1;
        self.groups.push(group);
        assert(self@.groups =~= old(self)@.groups.push(copy@));
        Ok(copy)
    }

    /// Adds a task named `task_name` to the current group at the reading
    /// `clock` and hands back a copy of it. Fails with
    /// `GroupResolutionFailed` where there is no current group, and where
    /// the group refuses.
    pub fn add_task_at(&mut self, task_name: String, clock: &ClockReading) -> (result: Result<
        Task,
        Error,
    >)
        ensures
            (final(self)@, outcome(result)) == old(self)@.add_task(task_name@, clock.today@),
    {
        proof {
            lemma_resolve(self@, clock.today@);
        }
        match self.resolve_group(clock) {
            Some(i) => {
                let result = self.groups[i].add_task(task_name);
                assert(self@.groups =~= old(self)@.groups.update(i as int, self.groups[i as int]@));
                result
            },
            None => Err(Error::GroupResolutionFailed),
        }
    }

    /// Removes the task with the id `task_id` from the current group at
    /// the reading `clock` and hands it back.
    pub fn remove_task_at(&mut self, task_id: usize, clock: &ClockReading) -> (result: Result<
        Task,
        Error,
    >)
        ensures
            (final(self)@, outcome(result)) == old(self)@.remove_task(task_id as nat, clock.today@),
    {
        proof {
            lemma_resolve(self@, clock.today@);
        }
        match self.resolve_group(clock) {
            Some(i) => {
                let result = self.groups[i].remove_task(task_id);
                assert(self@.groups =~= old(self)@.groups.update(i as int, self.groups[i as int]@));
                result
            },
            None => Err(Error::GroupResolutionFailed),
        }
    }

    /// Starts the task with the id `task_id` of the current group at the
    /// reading `clock`, after stopping the task that ran, and hands back a
    /// copy of the started task.
    pub fn start_task_at(&mut self, task_id: usize, clock: &ClockReading) -> (result: Result<
        Task,
        Error,
    >)
        ensures
            (final(self)@, outcome(result)) == old(self)@.start_task(
                task_id as nat,
                clock.now as int,
                clock.today@,
            ),
    {
        proof {
            lemma_resolve(self@, clock.today@);
        }
        match self.resolve_group(clock) {
            Some(i) => {
                let result = self.groups[i].start_task(task_id, clock.now);
                assert(self@.groups =~= old(self)@.groups.update(i as int, self.groups[i as int]@));
                result
            },
            None => Err(Error::GroupResolutionFailed),
        }
    }

    /// Stops the running task of the current group at the reading `clock`
    /// and hands back a copy of the stopped task.
    pub fn stop_current_at(&mut self, clock: &ClockReading) -> (result: Result<Task, Error>)
        ensures
            (final(self)@, outcome(result)) == old(self)@.stop_current(
                clock.now as int,
                clock.today@,
            ),
    {
        proof {
            lemma_resolve(self@, clock.today@);
        }
        match self.resolve_group(clock) {
            Some(i) => {
                let result = self.groups[i].stop_current(clock.now);
                assert(self@.groups =~= old(self)@.groups.update(i as int, self.groups[i as int]@));
                result
            },
            None => Err(Error::GroupResolutionFailed),
        }
    }

    /// Completes at the reading `clock` the task with the id `task_id`,
    /// or without an id the running task, of the current group, and hands
    /// back a copy of the completed task.
    pub fn complete_task_at(&mut self, task_id: Option<usize>, clock: &ClockReading) -> (result:
        Result<Task, Error>)
        ensures
            (final(self)@, outcome(result)) == old(self)@.complete_task(
                opt_nat(task_id),
                clock.now as int,
                clock.today@,
            ),
    {
        proof {
            lemma_resolve(self@, clock.today@);
        }
        match self.resolve_group(clock) {
            Some(i) => {
                let result = self.groups[i].complete_task(task_id, clock.now);
                assert(self@.groups =~= old(self)@.groups.update(i as int, self.groups[i as int]@));
                result
            },
            None => Err(Error::GroupResolutionFailed),
        }
    }

    /// Takes groups out of the manager at the reading `clock` and hands
    /// them back in their order: with `retain` all groups but those whose
    /// ids `group_ids` lists, without it the listed ones. Fails, taking
    /// nothing out, with `GroupResolutionFailed` where there is no
    /// current group, and with `CannotArchiveCurrentGroup` where the
    /// current group would leave.
    pub fn extract_groups_at(&mut self, retain: bool, group_ids: Vec<usize>, clock: &ClockReading) -> (result:
        Result<Vec<Group>, Error>)
        ensures
            (final(self)@, groups_outcome(result)) == old(self)@.extract_groups(
                retain,
                id_set(group_ids@),
                clock.today@,
            ),
    {
        proof {
            lemma_resolve(self@, clock.today@);
        }
        let current = match self.resolve_group(clock) {
            Some(c) => c,
            None => {
                return Err(Error::GroupResolutionFailed);
            },
        };
        if contains_id(&group_ids, self.groups[current].id()) != retain {
            return Err(Error::CannotArchiveCurrentGroup);
        }
        let ghost before = self@.groups;
        let ghost ids = id_set(group_ids@);
        let mut kept: Vec<Group> = Vec::new();
        let mut extracted: Vec<Group> = Vec::new();
        let mut i: usize = 0;
        proof {
            reveal(Seq::filter);
            assert(before.take(0).filter(stays(retain, ids)) =~= Seq::empty());
            assert(before.take(0).filter(leaves(retain, ids)) =~= Seq::empty());
            assert(group_models(kept@) =~= Seq::empty());
            assert(group_models(extracted@) =~= Seq::empty());
        }
        while i < self.groups.len()
            invariant
                i <= self.groups.len(),
                self@.groups == before,
                ids == id_set(group_ids@),
                group_models(kept@) == before.take(i as int).filter(stays(retain, ids)),
                group_models(extracted@) == before.take(i as int).filter(leaves(retain, ids)),
            decreases self.groups.len() - i,
        {
            let group = self.groups[i].clone();
            let ghost kept_before = group_models(kept@);
            let ghost extracted_before = group_models(extracted@);
            proof {
                lemma_filter_take_step(before, stays(retain, ids), i as int);
                lemma_filter_take_step(before, leaves(retain, ids), i as int);
            }
            if contains_id(&group_ids, group.id()) != retain {
                extracted.push(group);
                assert(group_models(extracted@) =~= extracted_before.push(before[i as int]));
                assert(group_models(kept@) =~= kept_before);
            } else {
                kept.push(group);
                assert(group_models(kept@) =~= kept_before.push(before[i as int]));
                assert(group_models(extracted@) =~= extracted_before);
            }
            i += 1;
        }
        assert(before.take(i as int) =~= before);
        self.groups = kept;
        Ok(extracted)
    }

    /// Renumbers the groups so that their ids are as small as their order
    /// allows: each group in turn gets the smaller of its id and the
    /// number after the new id of the group before it, the first being
    /// measured against 1. Order, names and tasks stay; the selection
    /// follows the selected group to its new id; the next new group gets
    /// the number after the last new id.
    pub fn minimize_ids(&mut self)
        requires
            old(self)@.groups.len() < usize::MAX,
        ensures
            final(self)@ == old(self)@.minimized(),
    {
        let selected = match self.current_group {
            Some(current) => self.group_by_id(current),
            None => None,
        };
        let ghost before = self@;
        let ghost ids = before.group_ids();
        let mut next_min: usize = 1;
        let mut i: usize = 0;
        while i < self.groups.len()
            invariant
                i <= self.groups.len(),
                self.groups.len() == before.groups.len(),
                before.groups.len() < usize::MAX,
                ids == before.group_ids(),
                next_min == dense_bound(ids, i as int),
                next_min <= i + 1,
                self@.next_group == before.next_group,
                opt_index(selected) == (match before.current_group {
                    Some(c) => before.find_by_id(c),
                    None => None,
                }),
                self@.current_group == (match selected {
                    Some(k) if k < i => Some(dense_id(ids, k as int)),
                    _ => before.current_group,
                }),
                forall|j: int|
                    0 <= j < i ==> #[trigger] self@.groups[j] == (GroupModel {
                        id: dense_id(ids, j),
                        ..before.groups[j]
                    }),
                forall|j: int|
                    i <= j < self.groups.len() ==> #[trigger] self@.groups[j] == before.groups[j],
            decreases self.groups.len() - i,
        {
            let own = self.groups[i].id();
            let new_id = if own <= next_min {
                own
            } else {
                next_min
            };
            assert(self@.groups[i as int] == before.groups[i as int]);
            assert(ids[i as int] == before.groups[i as int].id);
            assert(new_id == dense_id(ids, i as int));
            let ghost reached = self@.groups;
            self.groups[i].renumber(new_id);
            assert(self@.groups =~= reached.update(
                i as int,
                GroupModel { id: new_id as nat, ..reached[i as int] },
            ));
            if selected == Some(i) {
                self.current_group = Some(new_id);
            }
            next_min = new_id + 1;
            i += 1;
        }
        let ghost renumbered = self@.groups;
        self.next_group = next_min;
        assert(self@.groups == renumbered);
        assert forall|j: int| 0 <= j < before.groups.len() implies renumbered[j]
            == before.minimized().groups[j] by {
            assert(renumbered[j] == (GroupModel { id: dense_id(ids, j), ..before.groups[j] }));
        }
        assert(renumbered =~= before.minimized().groups);
    }

    /// Makes a manager ready for use at the reading `clock`: takes the
    /// stored snapshot, or a new manager where there is none, and adds
    /// the group of today where it is missing. The flag says whether a
    /// group was added, so that the caller stores the snapshot.
    pub fn init_at(snapshot: Option<Manager>, clock: &ClockReading) -> (ready: (Manager, bool))
        ensures
            (ready.0@, ready.1) == stored_or_fresh(snapshot).init(clock.today@),
    {
        let mut manager = match snapshot {
            Some(stored) => stored,
            None => Manager::new(),
        };
        let added = manager.add_group(clock.today.clone()).is_ok();
        (manager, added)
    }

    /// Whether a list of the groups marks `group` as the current one at
    /// the reading `clock`: the selected group, or without a selection
    /// the group of today.
    pub fn is_current_at(&self, group: &Group, clock: &ClockReading) -> (current: bool)
        ensures
            current == self@.marks_current(group@, clock.today@),
    {
        match self.current_group {
            Some(c) => group.id() == c,
            None => *group.name() == clock.today,
        }
    }

    /// Makes a manager ready for use now: [`Manager::init_at`] at a
    /// reading of the system clock. Whatever the clock said, the outcome
    /// is that of `init_at` on some day's label.
    pub fn init(snapshot: Option<Manager>) -> (ready: (Manager, bool))
        ensures
            exists|today: Seq<char>|
                (ready.0@, ready.1) == #[trigger] stored_or_fresh(snapshot).init(today),
    {
        let clock = ClockReading::sample();
        Manager::init_at(snapshot, &clock)
    }

    /// The current group now: [`Manager::group_at`] at a reading of the
    /// system clock.
    pub fn group(&mut self) -> (result: Result<&Group, Error>)
        ensures
            final(self)@ == old(self)@,
            exists|today: Seq<char>|
                match result {
                    Ok(group) => #[trigger] old(self)@.group(today) == Ok::<GroupModel, Error>(
                        group@,
                    ),
                    Err(e) => old(self)@.group(today) == Err::<GroupModel, Error>(e),
                },
    {
        let clock = ClockReading::sample();
        self.group_at(&clock)
    }

    /// Adds a task to the current group: [`Manager::add_task_at`] at a
    /// reading of the system clock.
    pub fn add_task(&mut self, task_name: String) -> (result: Result<Task, Error>)
        ensures
            exists|today: Seq<char>|
                (final(self)@, outcome(result)) == #[trigger] old(self)@.add_task(task_name@, today),
    {
        let clock = ClockReading::sample();
        self.add_task_at(task_name, &clock)
    }

    /// Removes a task from the current group: [`Manager::remove_task_at`]
    /// at a reading of the system clock.
    pub fn remove_task(&mut self, task_id: usize) -> (result: Result<Task, Error>)
        ensures
            exists|today: Seq<char>|
                (final(self)@, outcome(result)) == #[trigger] old(self)@.remove_task(
                    task_id as nat,
                    today,
                ),
    {
        let clock = ClockReading::sample();
        self.remove_task_at(task_id, &clock)
    }

    /// Starts a task of the current group: [`Manager::start_task_at`] at
    /// a reading of the system clock.
    pub fn start_task(&mut self, task_id: usize) -> (result: Result<Task, Error>)
        ensures
            exists|now: i64, today: Seq<char>|
                (final(self)@, outcome(result)) == #[trigger] old(self)@.start_task(
                    task_id as nat,
                    now as int,
                    today,
                ),
    {
        let clock = ClockReading::sample();
        self.start_task_at(task_id, &clock)
    }

    /// Stops the running task of the current group:
    /// [`Manager::stop_current_at`] at a reading of the system clock.
    pub fn stop_current(&mut self) -> (result: Result<Task, Error>)
        ensures
            exists|now: i64, today: Seq<char>|
                (final(self)@, outcome(result)) == #[trigger] old(self)@.stop_current(
                    now as int,
                    today,
                ),
    {
        let clock = ClockReading::sample();
        self.stop_current_at(&clock)
    }

    /// Completes a task of the current group:
    /// [`Manager::complete_task_at`] at a reading of the system clock.
    pub fn complete_task(&mut self, task_id: Option<usize>) -> (result: Result<Task, Error>)
        ensures
            exists|now: i64, today: Seq<char>|
                (final(self)@, outcome(result)) == #[trigger] old(self)@.complete_task(
                    opt_nat(task_id),
                    now as int,
                    today,
                ),
    {
        let clock = ClockReading::sample();
        self.complete_task_at(task_id, &clock)
    }

    /// Takes groups out of the manager: [`Manager::extract_groups_at`] at
    /// a reading of the system clock.
    pub fn extract_groups(&mut self, retain: bool, group_ids: Vec<usize>) -> (result: Result<
        Vec<Group>,
        Error,
    >)
        ensures
            exists|today: Seq<char>|
                (final(self)@, groups_outcome(result)) == #[trigger] old(self)@.extract_groups(
                    retain,
                    id_set(group_ids@),
                    today,
                ),
    {
        let clock = ClockReading::sample();
        self.extract_groups_at(retain, group_ids, &clock)
    }

    /// The id that the next new group gets.
    pub fn next_group(&self) -> (next: usize)
        ensures
            next == self@.next_group,
    {
        self.next_group
    }

    /// The id of the selected group, if one is selected.
    pub fn current_group(&self) -> (current: Option<usize>)
        ensures
            opt_nat(current) == self@.current_group,
    {
        self.current_group
    }

    /// The groups in the order in which they were added.
    pub fn groups(&self) -> (groups: &Vec<Group>)
        ensures
            group_models(groups@) == self@.groups,
    {
        &self.groups
    }
}

} // verus!
