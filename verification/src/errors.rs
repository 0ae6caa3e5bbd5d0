//! Errors the engine reports.
//!
//! Failures carry plain values — the trigger at fault, the file name, a
//! rendered description — so a caller can show them without further help.

use vstd::prelude::*;

use crate::triggers::{TriggerId, TriggerSource};

verus! {

/// A failure while watching log files.
#[derive(Debug)]
pub enum LogWatcherError {
    /// Two characters name the same log file, or a file is watched twice.
    AlreadyWatching { path: String },
}

/// A failure inside the driver.
#[derive(Debug)]
pub enum DriverError {
    /// The outbound event queue is full; the event is dropped.
    EventBusFull,
}

/// A failure while compiling triggers.
#[derive(Debug)]
pub enum TriggerError {
    /// A trigger's search pattern does not compile. Names the trigger and
    /// carries the regex error's rendering.
    InvalidRegex { source: TriggerSource, id: TriggerId, error: String },
    /// A character's combined prefilter could not be built even though
    /// every pattern compiles alone.
    FilterBuild { character_id: String, error: String },
}

/// Any failure of the engine's public operations.
#[derive(Debug)]
pub enum ComradeError {
    TriggerError(TriggerError),
    LogWatcherError(LogWatcherError),
}

} // verus!
