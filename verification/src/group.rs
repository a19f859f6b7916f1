//! A named collection of tasks with at most one of them running.

use vstd::prelude::*;
use crate::error::Error;
use crate::lookup::{first_index_of, is_first_at, lemma_absent, lemma_first_index_of, lemma_found};
use crate::task::{outcome, Task, TaskModel};

verus! {

/// The mathematical value of a [`Group`].
pub ghost struct GroupModel {
    /// Unique within the manager.
    pub id: nat,
    /// Unique among the groups of a manager.
    pub name: Seq<char>,
    /// The id that the next new task gets.
    pub next_task: nat,
    /// The id of the running task, if one runs.
    pub current_task: Option<nat>,
    /// The tasks in the order in which they were added.
    pub tasks: Seq<TaskModel>,
}

impl GroupModel {
    /// A group without tasks, whose first task will get the id 1.
    pub open spec fn fresh(id: nat, name: Seq<char>) -> GroupModel {
        GroupModel { id, name, next_task: 1, current_task: None, tasks: Seq::empty() }
    }

    /// The ids of the tasks, in the order of the tasks.
    pub open spec fn task_ids(self) -> Seq<nat> {
        Seq::new(self.tasks.len(), |i: int| self.tasks[i].id)
    }

    /// The position of the first task with the id `id`.
    pub open spec fn find(self, id: nat) -> Option<int> {
        first_index_of(self.task_ids(), id)
    }

    /// The ids of the tasks grow with their order, so that no two tasks
    /// share one.
    pub open spec fn ordered(self) -> bool {
        forall|i: int, j: int|
            0 <= i < j < self.tasks.len() ==> (#[trigger] self.tasks[i]).id
                < (#[trigger] self.tasks[j]).id
    }

    /// The invariant of a group: the ids of its tasks grow with their
    /// order, start at 1 or above and lie below the counter; no task is
    /// both complete and running; the current task exists; and a task
    /// runs exactly if it is the current one, so that at most one runs.
    pub open spec fn wf(self) -> bool {
        &&& 1 <= self.next_task
        &&& forall|i: int|
            0 <= i < self.tasks.len() ==> (#[trigger] self.tasks[i]).wf() && 1
                <= self.tasks[i].id < self.next_task
        &&& self.ordered()
        &&& forall|i: int|
            0 <= i < self.tasks.len() ==> ((#[trigger] self.tasks[i]).is_running()
                <==> self.current_task == Some(self.tasks[i].id))
        &&& self.current_task matches Some(c) ==> self.find(c) is Some
    }

    /// Adds a task at rest under the next free id. Fails where the
    /// counter cannot advance.
    pub open spec fn add_task(self, name: Seq<char>) -> (GroupModel, Result<TaskModel, Error>) {
        if self.next_task >= usize::MAX {
            (self, Err(Error::IdSpaceExhausted))
        } else {
            let task = TaskModel::fresh(self.next_task, name);
            (
                GroupModel {
                    next_task: self.next_task + 1,
                    tasks: self.tasks.push(task),
                    ..self
                },
                Ok(task),
            )
        }
    }

    /// Removes the task with the id `id`. Where that task was the current
    /// one, the group has no current task afterwards.
    pub open spec fn remove_task(self, id: nat) -> (GroupModel, Result<TaskModel, Error>) {
        match self.find(id) {
            None => (self, Err(Error::TaskNotFound)),
            Some(i) => (
                GroupModel {
                    tasks: self.tasks.remove(i),
                    current_task: if self.current_task == Some(id) {
                        None
                    } else {
                        self.current_task
                    },
                    ..self
                },
                Ok(self.tasks[i]),
            ),
        }
    }

    /// The position of the current task where it is another task than
    /// `id`: the task that a start of `id` has to stop first.
    pub open spec fn running_other(self, id: nat) -> Option<int> {
        match self.current_task {
            Some(c) if c != id => self.find(c),
            _ => None,
        }
    }

    /// Starts the task with the id `id` at `now` and makes it the current
    /// one. Another task that was current is stopped at `now` first.
    pub open spec fn start_task(self, id: nat, now: int) -> (GroupModel, Result<TaskModel, Error>) {
        match self.find(id) {
            None => (self, Err(Error::TaskNotFound)),
            Some(i) => {
                let rested = match self.running_other(id) {
                    Some(j) => self.tasks.update(j, self.tasks[j].stopped(now)),
                    None => self.tasks,
                };
                let task = rested[i].started(now);
                if self.running_other(id) matches Some(j) && !self.tasks[j].fits(now) {
                    (self, Err(Error::DurationOverflow))
                } else {
                    (
                        GroupModel {
                            tasks: rested.update(i, task),
                            current_task: Some(id),
                            ..self
                        },
                        Ok(task),
                    )
                }
            },
        }
    }

    /// Stops the current task at `now`; the group has no current task
    /// afterwards.
    pub open spec fn stop_current(self, now: int) -> (GroupModel, Result<TaskModel, Error>) {
        match self.current_task {
            None => (self, Err(Error::NoCurrentTask)),
            Some(c) => match self.find(c) {
                None => (self, Err(Error::NoCurrentTask)),
                Some(j) => if !self.tasks[j].fits(now) {
                    (self, Err(Error::DurationOverflow))
                } else {
                    let task = self.tasks[j].stopped(now);
                    (
                        GroupModel {
                            tasks: self.tasks.update(j, task),
                            current_task: None,
                            ..self
                        },
                        Ok(task),
                    )
                },
            },
        }
    }

    /// The id that a completion is aimed at: the one given, else that of
    /// the current task.
    pub open spec fn completion_target(self, id: Option<nat>) -> Option<nat> {
        match id {
            Some(t) => Some(t),
            None => self.current_task,
        }
    }

    /// Completes at `now` the task with the given id or, without one, the
    /// current task. Where the completed task was the current one, the
    /// group has no current task afterwards.
    pub open spec fn complete_task(self, id: Option<nat>, now: int) -> (
        GroupModel,
        Result<TaskModel, Error>,
    ) {
        match self.completion_target(id) {
            None => (self, Err(Error::NoTaskSpecifiedForComplete)),
            Some(t) => match self.find(t) {
                None => (self, Err(Error::TaskNotFound)),
                Some(i) => if !self.tasks[i].fits(now) {
                    (self, Err(Error::DurationOverflow))
                } else {
                    let task = self.tasks[i].completed(now);
                    (
                        GroupModel {
                            tasks: self.tasks.update(i, task),
                            current_task: if self.current_task == Some(t) {
                                None
                            } else {
                                self.current_task
                            },
                            ..self
                        },
                        Ok(task),
                    )
                },
            },
        }
    }
}

/// A group: a name, its tasks, and which of them runs.
#[derive(Debug)]
pub struct Group {
    id: usize,
    next_task: usize,
    current_task: Option<usize>,
    name: String,
    tasks: Vec<Task>,
}

/// An optional id as a natural number.
pub open spec fn opt_nat(v: Option<usize>) -> Option<nat> {
    match v {
        Some(x) => Some(x as nat),
        None => None,
    }
}

/// An optional position as a mathematical integer.
pub open spec fn opt_index(v: Option<usize>) -> Option<int> {
    match v {
        Some(x) => Some(x as int),
        None => None,
    }
}

/// The mathematical values of a vector of tasks.
pub open spec fn task_models(tasks: Seq<Task>) -> Seq<TaskModel> {
    Seq::new(tasks.len(), |i: int| tasks[i]@)
}

/// The value that [`Group::from_parts`] gives to the parts.
pub open spec fn group_of_parts(
    id: usize,
    next_task: usize,
    current_task: Option<usize>,
    name: Seq<char>,
    tasks: Seq<Task>,
) -> GroupModel {
    GroupModel {
        id: id as nat,
        name,
        next_task: next_task as nat,
        current_task: opt_nat(current_task),
        tasks: task_models(tasks),
    }
}

impl View for Group {
    type V = GroupModel;

    closed spec fn view(&self) -> GroupModel {
        GroupModel {
            id: self.id as nat,
            name: self.name@,
            next_task: self.next_task as nat,
            current_task: opt_nat(self.current_task),
            tasks: task_models(self.tasks@),
        }
    }
}

impl Clone for Group {
    fn clone(&self) -> (copy: Group)
        ensures
            copy@ == self@,
    {
        let mut tasks: Vec<Task> = Vec::new();
        let mut i: usize = 0;
        while i < self.tasks.len()
            invariant
                i <= self.tasks.len(),
                tasks.len() == i,
                forall|j: int| 0 <= j < i ==> tasks[j]@ == self.tasks[j]@,
            decreases self.tasks.len() - i,
        {
            tasks.push(self.tasks[i].clone());
            i += 1;
        }
        let copy = Group {
            id: self.id,
            next_task: self.next_task,
            current_task: self.current_task,
            name: self.name.clone(),
            tasks,
        };
        assert(copy@.tasks =~= self@.tasks);
        copy
    }
}

impl Group {
    /// A group without tasks.
    pub fn new(id: usize, name: String) -> (group: Group)
        ensures
            group@ == GroupModel::fresh(id as nat, name@),
    {
        let group = Group { id, next_task: 1, current_task: None, name, tasks: Vec::new() };
        assert(group@.tasks =~= Seq::empty());
        group
    }

    /// A group with exactly the given field values, as a stored snapshot
    /// holds them.
    pub fn from_parts(
        id: usize,
        next_task: usize,
        current_task: Option<usize>,
        name: String,
        tasks: Vec<Task>,
    ) -> (group: Group)
        ensures
            group@ == group_of_parts(id, next_task, current_task, name@, tasks@),
    {
        Group { id, next_task, current_task, name, tasks }
    }

    /// The position of the first task with the id `task_id`, by linear scan.
    pub fn find_task(&self, task_id: usize) -> (found: Option<usize>)
        ensures
            opt_index(found) == self@.find(task_id as nat),
    {
        let mut i: usize = 0;
        while i < self.tasks.len()
            invariant
                i <= self.tasks.len(),
                forall|j: int| 0 <= j < i ==> self@.task_ids()[j] != task_id as nat,
            decreases self.tasks.len() - i,
        {
            if self.tasks[i].id() == task_id {
                proof {
                    assert(is_first_at(self@.task_ids(), task_id as nat, i as int));
                    lemma_found(self@.task_ids(), task_id as nat, i as int);
                }
                return Some(i);
            }
            i += 1;
        }
        proof {
            lemma_absent(self@.task_ids(), task_id as nat);
        }
        None
    }

    /// Adds a task at rest named `task_name` under the next free id and
    /// hands back a copy of it.
    pub fn add_task(&mut self, task_name: String) -> (result: Result<Task, Error>)
        ensures
            (final(self)@, outcome(result)) == old(self)@.add_task(task_name@),
    {
        if self.next_task == usize::MAX {
            return Err(Error::IdSpaceExhausted);
        }
        let task = Task::new(self.next_task, task_name);
        let copy = task.clone();
        self.next_task += 1;
        self.tasks.push(task);
        assert(self@.tasks =~= old(self)@.tasks.push(copy@));
        Ok(copy)
    }

    /// Removes the task with the id `task_id` and hands it back.
    pub fn remove_task(&mut self, task_id: usize) -> (result: Result<Task, Error>)
        ensures
            (final(self)@, outcome(result)) == old(self)@.remove_task(task_id as nat),
    {
        let i = match self.find_task(task_id) {
            Some(i) => i,
            None => {
                return Err(Error::TaskNotFound);
            },
        };
        proof {
            lemma_first_index_of(self@.task_ids(), task_id as nat);
        }
        let task = self.tasks.remove(i);
        if self.current_task == Some(task_id) {
            self.current_task = None;
        }
        assert(self@.tasks =~= old(self)@.tasks.remove(i as int));
        Ok(task)
    }

    /// Starts the task with the id `task_id` at `now`, after stopping
    /// another task that was current, and hands back a copy of the started
    /// task. Fails with `TaskNotFound` where no task has that id, and with
    /// `DurationOverflow` where the task to stop cannot be stopped at `now`.
    pub fn start_task(&mut self, task_id: usize, now: i64) -> (result: Result<Task, Error>)
        ensures
            (final(self)@, outcome(result)) == old(self)@.start_task(task_id as nat, now as int),
    {
        let i = match self.find_task(task_id) {
            Some(i) => i,
            None => {
                return Err(Error::TaskNotFound);
            },
        };
        proof {
            lemma_first_index_of(self@.task_ids(), task_id as nat);
        }
        if let Some(current) = self.current_task {
            if current != task_id {
                if let Some(j) = self.find_task(current) {
                    proof {
                        lemma_first_index_of(self@.task_ids(), current as nat);
                    }
                    if !self.tasks[j].fits(now) {
                        return Err(Error::DurationOverflow);
                    }
                    let _ = self.tasks[j].stop(now);
                }
            }
        }
        let ghost rested = self@.tasks;
        self.tasks[i].start(now);
        self.current_task = Some(task_id);
        let copy = self.tasks[i].clone();
        proof {
            let before = old(self)@;
            match before.running_other(task_id as nat) {
                Some(j) => {
                    assert(rested =~= before.tasks.update(j, before.tasks[j].stopped(now as int)));
                },
                None => {
                    assert(rested =~= before.tasks);
                },
            }
            assert(self@.tasks =~= rested.update(i as int, rested[i as int].started(now as int)));
        }
        Ok(copy)
    }

    /// Stops the current task at `now` and hands back a copy of the
    /// stopped task. Fails with `NoCurrentTask` where the group has none,
    /// and with `DurationOverflow` where it cannot be stopped at `now`.
    pub fn stop_current(&mut self, now: i64) -> (result: Result<Task, Error>)
        ensures
            (final(self)@, outcome(result)) == old(self)@.stop_current(now as int),
    {
        let current = match self.current_task {
            Some(c) => c,
            None => {
                return Err(Error::NoCurrentTask);
            },
        };
        let j = match self.find_task(current) {
            Some(j) => j,
            None => {
                return Err(Error::NoCurrentTask);
            },
        };
        proof {
            lemma_first_index_of(self@.task_ids(), current as nat);
        }
        if !self.tasks[j].fits(now) {
            return Err(Error::DurationOverflow);
        }
        let _ = self.tasks[j].stop(now);
        self.current_task = None;
        let copy = self.tasks[j].clone();
        assert(self@.tasks =~= old(self)@.tasks.update(j as int, copy@));
        Ok(copy)
    }

    /// Completes at `now` the task with the id `task_id` or, without an
    /// id, the current task, and hands back a copy of the completed task.
    /// Fails with `NoTaskSpecifiedForComplete` where no id is given and no
    /// task is current, with `TaskNotFound` where no task has the id, and
    /// with `DurationOverflow` where the task cannot be stopped at `now`.
    pub fn complete_task(&mut self, task_id: Option<usize>, now: i64) -> (result: Result<
        Task,
        Error,
    >)
        ensures
            (final(self)@, outcome(result)) == old(self)@.complete_task(
                opt_nat(task_id),
                now as int,
            ),
    {
        let target = match task_id {
            Some(t) => t,
            None => match self.current_task {
                Some(c) => c,
                None => {
                    return Err(Error::NoTaskSpecifiedForComplete);
                },
            },
        };
        let i = match self.find_task(target) {
            Some(i) => i,
            None => {
                return Err(Error::TaskNotFound);
            },
        };
        proof {
            lemma_first_index_of(self@.task_ids(), target as nat);
        }
        if !self.tasks[i].fits(now) {
            return Err(Error::DurationOverflow);
        }
        let _ = self.tasks[i].complete(now);
        if self.current_task == Some(target) {
            self.current_task = None;
        }
        let copy = self.tasks[i].clone();
        assert(self@.tasks =~= old(self)@.tasks.update(i as int, copy@));
        Ok(copy)
    }

    /// Gives the group the id `id`; everything else stays.
    pub(crate) fn renumber(&mut self, id: usize)
        ensures
            final(self)@ == (GroupModel { id: id as nat, ..old(self)@ }),
    {
        self.id = id;
    }

    pub fn id(&self) -> (id: usize)
        ensures
            id == self@.id,
    {
        self.id
    }

    pub fn name(&self) -> (name: &String)
        ensures
            name@ == self@.name,
    {
        &self.name
    }

    /// The id that the next new task gets.
    pub fn next_task(&self) -> (next: usize)
        ensures
            next == self@.next_task,
    {
        self.next_task
    }

    /// The id of the running task, if one runs.
    pub fn current_task(&self) -> (current: Option<usize>)
        ensures
            opt_nat(current) == self@.current_task,
    {
        self.current_task
    }

    /// The tasks in the order in which they were added.
    pub fn tasks(&self) -> (tasks: &Vec<Task>)
        ensures
            task_models(tasks@) == self@.tasks,
    {
        &self.tasks
    }
}

} // verus!
