//! The clock: the current instant and the label of the current day.
//!
//! Every operation that depends on the time takes a [`ClockReading`], so
//! that one command sees one instant. [`ClockReading::sample`] reads the
//! system clock; [`ClockReading::new`] makes a reading from given values.

use vstd::prelude::*;

verus! {

/// The format of the label of a day: month, day and year, as in
/// `03-17-2024`. Stored snapshots name their default groups by it.
pub const DATE_FORMAT: &'static str = "%m-%d-%Y";

/// One reading of the clock.
#[derive(Debug)]
pub struct ClockReading {
    /// Seconds since the Unix epoch.
    pub now: i64,
    /// The label of the current day, which names the default group.
    pub today: String,
}

/// The current instant in seconds since the Unix epoch: chrono's
/// `Utc::now()` and `DateTime::timestamp`. Nothing is claimed of the
/// value, which is the system clock's. chrono gives up on a system clock
/// that stands before 1970.
#[verifier::external_body]
pub fn timestamp() -> (now: i64) {
    chrono::Utc::now().timestamp()
}

/// The current day in the local time zone in the format `format`, by
/// chrono's `Utc::now`, `DateTime::date`, `Date::with_timezone`,
/// `Date::format` and `to_string`. Only [`DATE_FORMAT`] is admitted. The
/// text is a day label; which day depends on the clock and the time zone.
#[verifier::external_body]
#[allow(deprecated)]
fn local_day_label(format: &str) -> (label: String)
    requires
        format@ == DATE_FORMAT@,
    ensures
        is_day_label(label@),
{
    chrono::Utc::now().date().with_timezone(&chrono::Local).format(format).to_string()
}

/// The name of the default group: the label of the current day in the
/// local time zone, in [`DATE_FORMAT`].
pub(crate) fn default_group_name() -> (label: String)
    ensures
        is_day_label(label@),
{
    local_day_label(DATE_FORMAT)
}

/// A decimal digit, as the labels of days and the years in them are
/// written with.
pub open spec fn is_digit(c: char) -> bool {
    '0' <= c <= '9'
}

impl ClockReading {
    /// A reading with the given values.
    pub fn new(now: i64, today: String) -> (reading: ClockReading)
        ensures
            reading.now == now,
            reading.today@ == today@,
    {
        ClockReading { now, today }
    }

    /// Reads the system clock: its instant, and the label of its day.
    pub fn sample() -> (reading: ClockReading)
        ensures
            is_day_label(reading.today@),
    {
        ClockReading { now: timestamp(), today: default_group_name() }
    }
}

/// The label of the current day in UTC, as chrono prints a date with its
/// time zone: chrono's `Utc::now()`, `DateTime::date` and `to_string`,
/// which writes the year in four digits, or with a sign in more, the
/// month and the day of the month in two digits each, with hyphens
/// between them, and the letters `UTC` behind. Which day it is depends on
/// the system clock, and nothing is claimed of it.
#[verifier::external_body]
#[allow(deprecated)]
pub(crate) fn utc_day_label() -> (label: String)
    ensures
        is_utc_day_label(label@),
{
    chrono::Utc::now().date().to_string()
}

/// The number that two decimal digits write.
pub open spec fn two_digits(tens: char, ones: char) -> int {
    ((tens as int) - ('0' as int)) * 10 + ((ones as int) - ('0' as int))
}

/// A year as a date writes it: four digits, or a sign and four digits or
/// more where the year lies before the year 0 or after 9999.
pub open spec fn is_year(text: Seq<char>) -> bool {
    ||| text.len() == 4 && forall|i: int| 0 <= i < 4 ==> is_digit(#[trigger] text[i])
    ||| text.len() >= 5 && (text[0] == '+' || text[0] == '-') && forall|i: int|
        1 <= i < text.len() ==> is_digit(#[trigger] text[i])
}

/// A month of two digits, from 01 to 12.
pub open spec fn is_month(tens: char, ones: char) -> bool {
    is_digit(tens) && is_digit(ones) && 1 <= two_digits(tens, ones) <= 12
}

/// A day of the month of two digits, from 01 to 31.
pub open spec fn is_day_of_month(tens: char, ones: char) -> bool {
    is_digit(tens) && is_digit(ones) && 1 <= two_digits(tens, ones) <= 31
}

/// A label of a day in [`DATE_FORMAT`]: the month, a hyphen, the day of
/// the month, a hyphen and the year, as in `03-17-2024`. chrono writes
/// the month and the day in two digits each.
pub open spec fn is_day_label(text: Seq<char>) -> bool {
    &&& text.len() >= 10
    &&& is_month(text[0], text[1])
    &&& text[2] == '-'
    &&& is_day_of_month(text[3], text[4])
    &&& text[5] == '-'
    &&& is_year(text.skip(6))
}

/// A label of a day in UTC as chrono prints a date with its time zone:
/// the year, a hyphen, the month, a hyphen, the day of the month and the
/// letters `UTC`, as in `2024-03-17UTC`.
pub open spec fn is_utc_day_label(text: Seq<char>) -> bool {
    let n = text.len() as int;
    &&& n >= 13
    &&& is_year(text.take(n - 9))
    &&& text[n - 9] == '-'
    &&& is_month(text[n - 8], text[n - 7])
    &&& text[n - 6] == '-'
    &&& is_day_of_month(text[n - 5], text[n - 4])
    &&& text[n - 3] == 'U'
    &&& text[n - 2] == 'T'
    &&& text[n - 1] == 'C'
}

} // verus!
