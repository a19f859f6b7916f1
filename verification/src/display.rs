//! What a listing shows of a task: its state, and the logged time in
//! hours, minutes and seconds.

use vstd::prelude::*;
use crate::task::Task;

verus! {

/// The largest number of seconds, in either direction, that a displayed
/// duration can have: the 64-bit range in milliseconds.
pub const MAX_DURATION_SECONDS: i64 = 9_223_372_036_854_775;

/// How many whole units of `unit` seconds lie in `seconds`, counted
/// towards zero: for a negative duration the negative of the count for
/// its length.
pub open spec fn whole(seconds: int, unit: int) -> int {
    if seconds >= 0 {
        seconds / unit
    } else {
        -((-seconds) / unit)
    }
}

/// What is left of `seconds` after its whole units of `unit`; it has the
/// sign of `seconds`.
pub open spec fn rest(seconds: int, unit: int) -> int {
    seconds - whole(seconds, unit) * unit
}

/// Whether a number of seconds can be displayed.
pub open spec fn displayable(seconds: int) -> bool {
    -MAX_DURATION_SECONDS <= seconds <= MAX_DURATION_SECONDS
}

/// The whole hours, the whole minutes and the whole seconds of a
/// duration of `seconds` seconds: chrono's `TimeDelta::seconds`, which
/// panics beyond [`MAX_DURATION_SECONDS`], and its `num_hours`,
/// `num_minutes` and `num_seconds`, each of which divides the seconds
/// by the length of its unit and drops the fraction.
#[verifier::external_body]
fn whole_units(seconds: i64) -> (units: (i64, i64, i64))
    requires
        displayable(seconds as int),
    ensures
        units.0 == whole(seconds as int, 3600),
        units.1 == whole(seconds as int, 60),
        units.2 == seconds,
{
    let duration = chrono::Duration::seconds(seconds);
    (duration.num_hours(), duration.num_minutes(), duration.num_seconds())
}

/// The hours of a duration, the minutes beyond the hours and the seconds
/// beyond the minutes. For a negative duration none of the three is
/// positive.
pub fn duration_parts(stamp: i64) -> (parts: (i64, i64, i64))
    requires
        displayable(stamp as int),
    ensures
        parts.0 == whole(stamp as int, 3600),
        parts.1 == rest(whole(stamp as int, 60), 60),
        parts.2 == rest(stamp as int, 60),
        parts.0 * 3600 + parts.1 * 60 + parts.2 == stamp,
{
    let (hours, minutes, seconds) = whole_units(stamp);
    (hours, minutes % 60, seconds % 60)
}

/// The character of a decimal digit.
pub open spec fn digit(d: int) -> char {
    if d == 0 {
        '0'
    } else if d == 1 {
        '1'
    } else if d == 2 {
        '2'
    } else if d == 3 {
        '3'
    } else if d == 4 {
        '4'
    } else if d == 5 {
        '5'
    } else if d == 6 {
        '6'
    } else if d == 7 {
        '7'
    } else if d == 8 {
        '8'
    } else {
        '9'
    }
}

/// A natural number in decimal digits, without leading zeros.
pub open spec fn decimal_nat(n: nat) -> Seq<char>
    decreases n,
{
    if n < 10 {
        seq![digit(n as int)]
    } else {
        decimal_nat(n / 10).push(digit((n % 10) as int))
    }
}

/// An integer in decimal digits, with a minus sign where it is negative.
pub open spec fn decimal(n: int) -> Seq<char> {
    if n < 0 {
        seq!['-'] + decimal_nat((-n) as nat)
    } else {
        decimal_nat(n as nat)
    }
}

/// Hours, minutes and seconds as a listing shows them, as in
/// `1h, 2m, 5s`.
pub open spec fn parts_text(hours: int, minutes: int, seconds: int) -> Seq<char> {
    decimal(hours) + "h, "@ + decimal(minutes) + "m, "@ + decimal(seconds) + "s"@
}

/// A duration of `seconds` seconds as a listing shows it.
pub open spec fn duration_text(seconds: int) -> Seq<char> {
    parts_text(whole(seconds, 3600), rest(whole(seconds, 60), 60), rest(seconds, 60))
}

/// Writes three numbers as hours, minutes and seconds: std's `format!`,
/// which prints a 64-bit integer in decimal digits with a minus sign
/// where it is negative.
#[verifier::external_body]
fn join_parts(hours: i64, minutes: i64, seconds: i64) -> (text: String)
    ensures
        text@ == parts_text(hours as int, minutes as int, seconds as int),
{
    format!("{}h, {}m, {}s", hours, minutes, seconds)
}

/// A duration of `stamp` seconds as a listing shows it.
pub fn duration_str(stamp: i64) -> (text: String)
    requires
        displayable(stamp as int),
    ensures
        text@ == duration_text(stamp as int),
{
    let (hours, minutes, seconds) = duration_parts(stamp);
    join_parts(hours, minutes, seconds)
}

/// A duration of `stamp` seconds as a listing shows it; `None` where it
/// is too long to be displayed.
pub fn checked_duration_str(stamp: i64) -> (text: Option<String>)
    ensures
        match text {
            Some(t) => displayable(stamp as int) && t@ == duration_text(stamp as int),
            None => !displayable(stamp as int),
        },
{
    if -MAX_DURATION_SECONDS <= stamp && stamp <= MAX_DURATION_SECONDS {
        Some(duration_str(stamp))
    } else {
        None
    }
}

/// The state of a task, as a listing colours it.
#[derive(Debug, Clone, Copy, PartialEq, Eq, Structural)]
pub enum Status {
    /// At rest and not complete.
    Stopped,
    /// Running.
    Running,
    /// Complete.
    Complete,
}

/// The state of a task: complete where it is marked so, else running
/// where an interval is open, else stopped.
pub open spec fn status_of(task: crate::task::TaskModel) -> Status {
    if task.is_complete {
        Status::Complete
    } else if task.is_running() {
        Status::Running
    } else {
        Status::Stopped
    }
}

/// The state of `task`.
pub fn status(task: &Task) -> (state: Status)
    ensures
        state == status_of(task@),
{
    if task.is_complete() {
        Status::Complete
    } else if task.is_running() {
        Status::Running
    } else {
        Status::Stopped
    }
}

/// The words that stand for the logged time of a task that never ran.
pub open spec fn never_ran_text() -> Seq<char> {
    "NONE"@
}

/// The logged time of a task at `now` as a listing shows it: the time up
/// to `now` with the running interval, `NONE` for a task that never ran.
/// `None` where the time cannot be displayed.
pub open spec fn logged_text(task: crate::task::TaskModel, now: int) -> Option<Seq<char>> {
    if !task.is_running() && task.logged is None {
        Some(never_ran_text())
    } else if task.fits(now) && displayable(task.total(now)) {
        Some(duration_text(task.total(now)))
    } else {
        None
    }
}

/// The logged time of `task` at `now` as a listing shows it.
pub fn logged_str(task: &Task, now: i64) -> (text: Option<String>)
    ensures
        match text {
            Some(t) => logged_text(task@, now as int) == Some(t@),
            None => logged_text(task@, now as int) is None,
        },
{
    if !task.is_running() && task.logged().is_none() {
        return Some("NONE".to_string());
    }
    match task.logged_total(now) {
        Some(total) => checked_duration_str(total),
        None => None,
    }
}

} // verus!
