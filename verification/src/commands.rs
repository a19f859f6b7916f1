//! The names of the commands and of their arguments, as the command line
//! spells them.

use vstd::prelude::*;

verus! {

/// The command that adds a task to the current group.
pub struct New;

impl New {
    pub fn name() -> (name: &'static str)
        ensures
            name@ == "new"@,
    {
        "new"
    }
}

/// The name of the task to add.
pub struct NewValue;

impl NewValue {
    pub fn name() -> (name: &'static str)
        ensures
            name@ == "new-value"@,
    {
        "new-value"
    }
}

/// The command that removes a task from the current group.
pub struct Remove;

impl Remove {
    pub fn name() -> (name: &'static str)
        ensures
            name@ == "remove"@,
    {
        "remove"
    }
}

/// The id of the task to remove.
pub struct RemoveValue;

impl RemoveValue {
    pub fn name() -> (name: &'static str)
        ensures
            name@ == "remove-value"@,
    {
        "remove-value"
    }
}

/// The command that lists the tasks of the current group.
pub struct Tasks;

impl Tasks {
    pub fn name() -> (name: &'static str)
        ensures
            name@ == "tasks"@,
    {
        "tasks"
    }
}

/// The command that lists all groups.
pub struct Groups;

impl Groups {
    pub fn name() -> (name: &'static str)
        ensures
            name@ == "groups"@,
    {
        "groups"
    }
}

/// The command that selects a group.
pub struct Use;

impl Use {
    pub fn name() -> (name: &'static str)
        ensures
            name@ == "use"@,
    {
        "use"
    }
}

/// The id of the group to select.
pub struct UseValue;

impl UseValue {
    pub fn name() -> (name: &'static str)
        ensures
            name@ == "use-value"@,
    {
        "use-value"
    }
}

/// The flag that drops the selection.
pub struct UseReset;

impl UseReset {
    pub fn name() -> (name: &'static str)
        ensures
            name@ == "use-reset"@,
    {
        "use-reset"
    }
}

/// The command that starts a task.
pub struct Start;

impl Start {
    pub fn name() -> (name: &'static str)
        ensures
            name@ == "start"@,
    {
        "start"
    }
}

/// The id of the task to start.
pub struct StartValue;

impl StartValue {
    pub fn name() -> (name: &'static str)
        ensures
            name@ == "start-value"@,
    {
        "start-value"
    }
}

/// The command that stops the running task.
pub struct Stop;

impl Stop {
    pub fn name() -> (name: &'static str)
        ensures
            name@ == "stop"@,
    {
        "stop"
    }
}

/// The command that adds and selects the group of tomorrow.
pub struct Tomorrow;

impl Tomorrow {
    pub fn name() -> (name: &'static str)
        ensures
            name@ == "tmrw"@,
    {
        "tmrw"
    }
}

/// The command that completes a task.
pub struct Complete;

impl Complete {
    pub fn name() -> (name: &'static str)
        ensures
            name@ == "complete"@,
    {
        "complete"
    }
}

/// The id of the task to complete.
pub struct CompleteValue;

impl CompleteValue {
    pub fn name() -> (name: &'static str)
        ensures
            name@ == "complete-value"@,
    {
        "complete-value"
    }
}

/// The flag that completes the running task.
pub struct CompleteCurrent;

impl CompleteCurrent {
    pub fn name() -> (name: &'static str)
        ensures
            name@ == "complete-curr"@,
    {
        "complete-curr"
    }
}

} // verus!
