//! The two ways in which a command can fail.

use vstd::prelude::*;

verus! {

/// Why a command failed.
#[derive(Debug, Clone, Copy, PartialEq, Eq, Structural)]
pub enum TimerError {
    /// The durable table could not be opened, created, queried or written,
    /// or what it handed back is no table of tasks.
    Storage,
    /// The day of a report is neither `today` nor a date that resolves to one
    /// local midnight.
    InvalidDate,
}

} // verus!
