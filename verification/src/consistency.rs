//! Whether a snapshot that was read from a store meets the invariants of
//! its types. The operations keep the invariants of a snapshot that
//! meets them; a stored one has to be tested.

use vstd::prelude::*;
use crate::group::{opt_nat, task_models, Group};
use crate::manager::{group_models, Manager};
use crate::task::Task;

verus! {

impl Task {
    /// Whether the task meets its invariant: not both complete and
    /// running.
    pub fn is_consistent(&self) -> (ok: bool)
        ensures
            ok == self@.wf(),
    {
        !(self.is_complete() && self.is_running())
    }
}

impl Group {
    /// Whether the group meets its invariant.
    pub fn is_consistent(&self) -> (ok: bool)
        ensures
            ok == self@.wf(),
    {
        let next = self.next_task();
        if next < 1 {
            return false;
        }
        let current = self.current_task();
        let tasks = self.tasks();
        let mut i: usize = 0;
        while i < tasks.len()
            invariant
                i <= tasks.len(),
                task_models(tasks@) == self@.tasks,
                opt_nat(current) == self@.current_task,
                next == self@.next_task,
                1 <= next,
                forall|k: int|
                    0 <= k < i ==> (#[trigger] self@.tasks[k]).wf() && 1 <= self@.tasks[k].id
                        < next,
                forall|a: int, b: int|
                    0 <= a < b < i ==> (#[trigger] self@.tasks[a]).id < (
                    #[trigger] self@.tasks[b]).id,
                forall|k: int|
                    0 <= k < i ==> ((#[trigger] self@.tasks[k]).is_running()
                        <==> self@.current_task == Some(self@.tasks[k].id)),
            decreases tasks.len() - i,
        {
            let task = &tasks[i];
            assert(task@ == self@.tasks[i as int]);
            if !task.is_consistent() {
                return false;
            }
            if task.id() < 1 || task.id() >= next {
                return false;
            }
            if i > 0 {
                assert(tasks[i - 1]@ == self@.tasks[i - 1]);
                if tasks[i - 1].id() >= task.id() {
                    assert(!(self@.tasks[i - 1].id < self@.tasks[i as int].id));
                    return false;
                }
            }
            let is_current = match current {
                Some(c) => c == task.id(),
                None => false,
            };
            if task.is_running() != is_current {
                return false;
            }
            proof {
                assert forall|a: int, b: int| 0 <= a < b < i + 1 implies (
                #[trigger] self@.tasks[a]).id < (#[trigger] self@.tasks[b]).id by {
                    if b == i && a < i - 1 {
                        assert(self@.tasks[a].id < self@.tasks[i - 1].id);
                    }
                }
            }
            i += 1;
        }
        match current {
            Some(c) => self.find_task(c).is_some(),
            None => true,
        }
    }
}

impl Manager {
    /// Whether the name of the group at position `i` is the name of no
    /// group before it.
    fn name_is_new(&self, i: usize) -> (fresh: bool)
        requires
            i < self@.groups.len(),
        ensures
            fresh == (forall|j: int| 0 <= j < i ==> (#[trigger] self@.groups[j]).name
                != self@.groups[i as int].name),
    {
        let groups = self.groups();
        assert(groups[i as int]@ == self@.groups[i as int]);
        let mut j: usize = 0;
        while j < i
            invariant
                j <= i < groups.len(),
                group_models(groups@) == self@.groups,
                forall|k: int|
                    0 <= k < j ==> (#[trigger] self@.groups[k]).name != self@.groups[i as int].name,
            decreases i - j,
        {
            assert(groups[j as int]@ == self@.groups[j as int]);
            assert(groups[i as int]@ == self@.groups[i as int]);
            if *groups[j].name() == *groups[i].name() {
                return false;
            }
            j += 1;
        }
        true
    }

    /// Whether the manager meets its invariant: what a caller tests of a
    /// snapshot that it has read, before it works on it.
    pub fn is_consistent(&self) -> (ok: bool)
        ensures
            ok == self@.wf(),
    {
        let next = self.next_group();
        if next < 1 {
            return false;
        }
        let current = self.current_group();
        let groups = self.groups();
        let mut i: usize = 0;
        while i < groups.len()
            invariant
                i <= groups.len(),
                group_models(groups@) == self@.groups,
                opt_nat(current) == self@.current_group,
                next == self@.next_group,
                1 <= next,
                forall|k: int|
                    0 <= k < i ==> (#[trigger] self@.groups[k]).wf() && 1 <= self@.groups[k].id
                        < next,
                forall|a: int, b: int|
                    0 <= a < b < i ==> (#[trigger] self@.groups[a]).id < (
                    #[trigger] self@.groups[b]).id,
                forall|a: int, b: int|
                    0 <= a < b < i ==> (#[trigger] self@.groups[a]).name != (
                    #[trigger] self@.groups[b]).name,
            decreases groups.len() - i,
        {
            let group = &groups[i];
            assert(group@ == self@.groups[i as int]);
            if !group.is_consistent() {
                return false;
            }
            if group.id() < 1 || group.id() >= next {
                return false;
            }
            if i > 0 {
                assert(groups[i - 1]@ == self@.groups[i - 1]);
                if groups[i - 1].id() >= group.id() {
                    assert(!(self@.groups[i - 1].id < self@.groups[i as int].id));
                    return false;
                }
            }
            if !self.name_is_new(i) {
                let ghost j = choose|j: int|
                    0 <= j < i && self@.groups[j].name == self@.groups[i as int].name;
                assert(!(self@.groups[j].name != self@.groups[i as int].name));
                return false;
            }
            proof {
                assert forall|a: int, b: int| 0 <= a < b < i + 1 implies (
                #[trigger] self@.groups[a]).id < (#[trigger] self@.groups[b]).id by {
                    if b == i && a < i - 1 {
                        assert(self@.groups[a].id < self@.groups[i - 1].id);
                    }
                }
            }
            i += 1;
        }
        match current {
            Some(c) => self.group_by_id(c).is_some(),
            None => true,
        }
    }
}

} // verus!
