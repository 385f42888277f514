//! The ways reading a journal can fail.

use vstd::prelude::*;

verus! {

#[derive(Debug, Clone, Copy, PartialEq, Eq, Structural)]
pub enum JournalError {
    /// An item entry does not have the shape `- [Status] [Category] Title`.
    MalformedTaskLine,
    /// A day header does not end in a day of the month that exists.
    InvalidDayHeader,
    /// A day section comes before any week section.
    DayWithoutWeek,
    /// The text holds no header line.
    NoSectionsFound,
    /// The year and month given do not form a date with the day a task needs.
    InvalidDate,
}

} // verus!
