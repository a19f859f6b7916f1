//! The failures that an operation on the snapshot can report.

use vstd::prelude::*;

verus! {

/// Why an operation was refused. An operation that fails leaves the
/// snapshot as it was.
#[derive(Debug, Clone, Copy, PartialEq, Eq, Structural)]
pub enum Error {
    /// No task of the group has the requested id.
    TaskNotFound,
    /// No group of the manager has the requested id.
    GroupNotFound,
    /// The current group could not be determined: none is selected and no
    /// group carries the label of today, or the selected one is gone.
    GroupResolutionFailed,
    /// A group of that name exists already.
    DuplicateGroupName,
    /// The group has no running task to stop.
    NoCurrentTask,
    /// Neither an id was given nor is a task running.
    NoTaskSpecifiedForComplete,
    /// The groups to archive include the current group.
    CannotArchiveCurrentGroup,
    /// The store could not be read or written.
    StoreIOFailure,
    /// The store holds something that is no snapshot.
    StoreCorrupt,
    /// The id counter has reached the largest id the machine can hold.
    IdSpaceExhausted,
    /// The logged time would leave the range of a 64-bit duration.
    DurationOverflow,
}

impl Error {
    /// The message of each failure, as a sequence of characters.
    pub open spec fn text(self) -> Seq<char> {
        match self {
            Error::TaskNotFound => "Could not find task in group!"@,
            Error::GroupNotFound => "Could not find group!"@,
            Error::GroupResolutionFailed => "Could not resolve the current group!"@,
            Error::DuplicateGroupName => "Group already exists"@,
            Error::NoCurrentTask => "Could not find current task in group"@,
            Error::NoTaskSpecifiedForComplete => "No task or current task!"@,
            Error::CannotArchiveCurrentGroup => "Cannot archive the current group"@,
            Error::StoreIOFailure => "Could not access the data file"@,
            Error::StoreCorrupt => "The data file is corrupt"@,
            Error::IdSpaceExhausted => "No id is left"@,
            Error::DurationOverflow => "The logged time is out of range"@,
        }
    }

    /// A descriptive message for the user.
    pub fn message(&self) -> (msg: &'static str)
        ensures
            msg@ == self.text(),
    {
        match self {
            Error::TaskNotFound => "Could not find task in group!",
            Error::GroupNotFound => "Could not find group!",
            Error::GroupResolutionFailed => "Could not resolve the current group!",
            Error::DuplicateGroupName => "Group already exists",
            Error::NoCurrentTask => "Could not find current task in group",
            Error::NoTaskSpecifiedForComplete => "No task or current task!",
            Error::CannotArchiveCurrentGroup => "Cannot archive the current group",
            Error::StoreIOFailure => "Could not access the data file",
            Error::StoreCorrupt => "The data file is corrupt",
            Error::IdSpaceExhausted => "No id is left",
            Error::DurationOverflow => "The logged time is out of range",
        }
    }
}

} // verus!
