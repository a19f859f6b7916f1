//! One timed unit of work and its state machine.

use vstd::prelude::*;
use crate::error::Error;

verus! {

/// The mathematical value of a [`Task`].
pub ghost struct TaskModel {
    /// Unique within the owning group.
    pub id: nat,
    /// Free text, fixed at creation.
    pub name: Seq<char>,
    /// The instant at which the running interval began, if the task runs.
    pub started_at: Option<int>,
    /// The sum of all finished intervals; `None` if there was none.
    pub logged: Option<int>,
    /// Set by completion, cleared by a start.
    pub is_complete: bool,
}

impl TaskModel {
    /// A task that was never started.
    pub open spec fn fresh(id: nat, name: Seq<char>) -> TaskModel {
        TaskModel { id, name, started_at: None, logged: None, is_complete: false }
    }

    pub open spec fn is_running(self) -> bool {
        self.started_at is Some
    }

    /// The finished intervals, zero where there was none.
    pub open spec fn logged_or_zero(self) -> int {
        match self.logged {
            Some(t) => t,
            None => 0,
        }
    }

    /// The length of the running interval at `now`, zero for a task at rest.
    pub open spec fn elapsed(self, now: int) -> int {
        match self.started_at {
            Some(s) => now - s,
            None => 0,
        }
    }

    /// Everything logged up to `now`: the finished intervals and the
    /// running one.
    pub open spec fn total(self, now: int) -> int {
        self.logged_or_zero() + self.elapsed(now)
    }

    /// Whether stopping at `now` keeps the logged time a 64-bit value.
    pub open spec fn fits(self, now: int) -> bool {
        self.is_running() ==> i64::MIN <= self.total(now) <= i64::MAX
    }

    /// The task after a start at `now`: running from `now`, not complete.
    /// A running interval that was open is dropped, not folded in.
    pub open spec fn started(self, now: int) -> TaskModel {
        TaskModel { started_at: Some(now), is_complete: false, ..self }
    }

    /// The task after a stop at `now`: at rest, the running interval folded
    /// into the logged time. A task at rest keeps its logged time.
    pub open spec fn stopped(self, now: int) -> TaskModel {
        TaskModel {
            started_at: None,
            logged: if self.is_running() {
                Some(self.total(now))
            } else {
                self.logged
            },
            ..self
        }
    }

    /// The task after completion at `now`: stopped, then marked complete.
    pub open spec fn completed(self, now: int) -> TaskModel {
        TaskModel { is_complete: true, ..self.stopped(now) }
    }

    /// A task is never complete and running at once.
    pub open spec fn wf(self) -> bool {
        self.is_complete ==> !self.is_running()
    }
}

/// A stop after a start adds exactly the time between the two to the
/// logged time, whatever the task was before; where the clock did not go
/// back, the logged time does not shrink.
pub proof fn lemma_stop_after_start(task: TaskModel, start: int, stop: int)
    ensures
        task.started(start).stopped(stop).logged == Some(
            task.logged_or_zero() + (stop - start),
        ),
        start <= stop ==> task.started(start).stopped(stop).logged_or_zero()
            >= task.logged_or_zero(),
        !task.started(start).stopped(stop).is_running(),
{
}

/// A stop of a task at rest changes nothing: the logged time in
/// particular stays what it was.
pub proof fn lemma_stop_at_rest(task: TaskModel, now: int)
    requires
        !task.is_running(),
    ensures
        task.stopped(now) == task,
        task.fits(now),
{
}

/// A start, a stop and a completion each leave a task that is not both
/// complete and running, and none of them touches id or name.
pub proof fn lemma_task_steps(task: TaskModel, now: int)
    ensures
        TaskModel::fresh(task.id, task.name).wf(),
        task.started(now).wf(),
        task.stopped(now).wf(),
        task.completed(now).wf(),
        task.started(now).is_running() && !task.started(now).is_complete,
        !task.stopped(now).is_running(),
        task.completed(now).is_complete && !task.completed(now).is_running(),
        task.started(now).id == task.id && task.started(now).name == task.name,
        task.stopped(now).id == task.id && task.stopped(now).name == task.name,
        task.completed(now).id == task.id && task.completed(now).name == task.name,
{
}

/// A task: a name, the running interval if there is one, and the time
/// logged so far.
#[derive(Debug)]
pub struct Task {
    id: usize,
    name: String,
    started_date: Option<i64>,
    logged: Option<i64>,
    is_complete: bool,
}

/// An optional instant or duration as a mathematical integer.
pub open spec fn opt_int(v: Option<i64>) -> Option<int> {
    match v {
        Some(x) => Some(x as int),
        None => None,
    }
}

/// The value that [`Task::from_parts`] gives to the parts.
pub open spec fn task_of_parts(
    id: usize,
    name: Seq<char>,
    started_at: Option<i64>,
    logged: Option<i64>,
    is_complete: bool,
) -> TaskModel {
    TaskModel {
        id: id as nat,
        name,
        started_at: opt_int(started_at),
        logged: opt_int(logged),
        is_complete,
    }
}

/// What an operation hands back, with the task as its mathematical value.
pub open spec fn outcome(result: Result<Task, Error>) -> Result<TaskModel, Error> {
    match result {
        Ok(task) => Ok(task@),
        Err(e) => Err(e),
    }
}

impl View for Task {
    type V = TaskModel;

    closed spec fn view(&self) -> TaskModel {
        TaskModel {
            id: self.id as nat,
            name: self.name@,
            started_at: opt_int(self.started_date),
            logged: opt_int(self.logged),
            is_complete: self.is_complete,
        }
    }
}

impl Clone for Task {
    fn clone(&self) -> (copy: Task)
        ensures
            copy@ == self@,
    {
        Task {
            id: self.id,
            name: self.name.clone(),
            started_date: self.started_date,
            logged: self.logged,
            is_complete: self.is_complete,
        }
    }
}

impl Task {
    /// A task at rest that was never started.
    pub fn new(id: usize, name: String) -> (task: Task)
        ensures
            task@ == TaskModel::fresh(id as nat, name@),
    {
        Task { id, name, started_date: None, logged: None, is_complete: false }
    }

    /// A task with exactly the given field values, as a stored snapshot
    /// holds them.
    pub fn from_parts(
        id: usize,
        name: String,
        started_at: Option<i64>,
        logged: Option<i64>,
        is_complete: bool,
    ) -> (task: Task)
        ensures
            task@ == task_of_parts(id, name@, started_at, logged, is_complete),
    {
        Task { id, name, started_date: started_at, logged, is_complete }
    }

    /// Starts the task at `now`. Completion is cleared. If the task was
    /// running, its interval begins anew and the time since the earlier
    /// start is not counted.
    pub fn start(&mut self, now: i64)
        ensures
            final(self)@ == old(self)@.started(now as int),
    {
        self.started_date = Some(now);
        self.is_complete = false;
    }

    /// Whether a stop at `now` keeps the logged time within 64 bits.
    pub fn fits(&self, now: i64) -> (ok: bool)
        ensures
            ok == self@.fits(now as int),
    {
        match self.started_date {
            Some(started) => {
                let logged: i64 = match self.logged {
                    Some(t) => t,
                    None => 0,
                };
                let total: i128 = logged as i128 + (now as i128 - started as i128);
                i64::MIN as i128 <= total && total <= i64::MAX as i128
            },
            None => true,
        }
    }

    /// Stops the task at `now`: the running interval, which may be negative
    /// where the clock went back, is added to the logged time. A task at
    /// rest is left as it is. Fails, changing nothing, where the sum leaves
    /// the range of an `i64`.
    pub fn stop(&mut self, now: i64) -> (result: Result<(), Error>)
        ensures
            old(self)@.fits(now as int) ==> result is Ok && final(self)@ == old(self)@.stopped(
                now as int,
            ),
            !old(self)@.fits(now as int) ==> result == Err::<(), Error>(Error::DurationOverflow)
                && final(self)@ == old(self)@,
    {
        if !self.fits(now) {
            return Err(Error::DurationOverflow);
        }
        if let Some(started) = self.started_date {
            let logged: i64 = match self.logged {
                Some(t) => t,
                None => 0,
            };
            let total: i128 = logged as i128 + (now as i128 - started as i128);
            self.logged = Some(total as i64);
        }
        self.started_date = None;
        Ok(())
    }

    /// Completes the task at `now`: stops it, then marks it complete.
    /// Fails, changing nothing, on the inputs on which [`Task::stop`] fails.
    pub fn complete(&mut self, now: i64) -> (result: Result<(), Error>)
        ensures
            old(self)@.fits(now as int) ==> result is Ok && final(self)@ == old(self)@.completed(
                now as int,
            ),
            !old(self)@.fits(now as int) ==> result == Err::<(), Error>(Error::DurationOverflow)
                && final(self)@ == old(self)@,
    {
        match self.stop(now) {
            Ok(()) => {
                self.is_complete = true;
                Ok(())
            },
            Err(e) => Err(e),
        }
    }

    /// The time logged up to `now`: the finished intervals, zero where
    /// there was none, and the running interval up to `now`. It is
    /// computed anew at each call. `None` where the sum leaves the range
    /// of an `i64`.
    pub fn logged_total(&self, now: i64) -> (total: Option<i64>)
        ensures
            total == (if self@.fits(now as int) {
                Some(self@.total(now as int) as i64)
            } else {
                None
            }),
            total matches Some(t) ==> t == self@.total(now as int),
    {
        let logged: i64 = match self.logged {
            Some(t) => t,
            None => 0,
        };
        match self.started_date {
            Some(started) => {
                let total: i128 = logged as i128 + (now as i128 - started as i128);
                if i64::MIN as i128 <= total && total <= i64::MAX as i128 {
                    Some(total as i64)
                } else {
                    None
                }
            },
            None => Some(logged),
        }
    }

    pub fn id(&self) -> (id: usize)
        ensures
            id == self@.id,
    {
        self.id
    }

    pub fn name(&self) -> (name: &String)
        ensures
            name@ == self@.name,
    {
        &self.name
    }

    /// The start of the running interval; `None` for a task at rest.
    pub fn started_at(&self) -> (started: Option<i64>)
        ensures
            opt_int(started) == self@.started_at,
    {
        self.started_date
    }

    /// The sum of the finished intervals; `None` if there was none.
    pub fn logged(&self) -> (logged: Option<i64>)
        ensures
            opt_int(logged) == self@.logged,
    {
        self.logged
    }

    pub fn is_complete(&self) -> (complete: bool)
        ensures
            complete == self@.is_complete,
    {
        self.is_complete
    }

    pub fn is_running(&self) -> (running: bool)
        ensures
            running == self@.is_running(),
    {
        self.started_date.is_some()
    }
}

} // verus!
