//! Temporal resolution and recurrence engine for a personal task and event
//! planner: relative-date keywords, recurrence rules, twelve-hour clock
//! ordering, daily agendas, and due-date inference from free-form phrases.
use vstd::prelude::*;

pub mod agenda;
pub mod clock;
pub mod date;
pub mod ids;
pub mod infer;
pub mod recurrence;
pub mod resolve;
pub mod tasks;
pub mod text;
pub mod timeofday;
pub mod weekday;

verus! {

/// Errors returned by the parsing operations of this crate.
#[derive(Clone, Copy, Debug, PartialEq, Eq, Structural)]
pub enum ParseError {
    /// A relative-date or weekday keyword outside the known vocabulary.
    UnrecognizedDate,
    /// A repeat specification that is neither a weekday list, an alias,
    /// nor a calendar date.
    InvalidRecurrence,
    /// A clock string that does not write a twelve-hour time: missing
    /// `:` or an `am`/`pm` suffix, or digits out of range.
    InvalidTime,
}

} // verus!
