//! What can go wrong.

use vstd::prelude::*;

verus! {

/// A timeline text that is not a list of steps. `step` counts the steps of
/// the text from 0.
#[derive(Clone, Copy, Debug, PartialEq, Eq)]
pub enum ParseError {
    /// What stands before the step's colon (the whole step, if it has none)
    /// is not a decimal number that fits the machine's word.
    BadDuration { step: usize },
    /// The step has no colon.
    MissingSeparator { step: usize },
    /// The durations up to and including this step add up to more than the
    /// machine's word holds.
    Overflow { step: usize },
}

/// A pin was named by a place that the bank does not have.
#[derive(Clone, Copy, Debug, PartialEq, Eq)]
pub struct IndexError {
    /// The place that was asked for.
    pub index: usize,
    /// The number of pins in the bank.
    pub count: usize,
}

/// The pin driver failed a call. The host knows which one: it made it.
#[derive(Clone, Copy, Debug, PartialEq, Eq)]
pub struct HardwareError;

/// No output device has the name that was asked for.
#[derive(Clone, Copy, Debug, PartialEq, Eq)]
pub struct DeviceNotFoundError;

/// Why a session ended before its time.
#[derive(Clone, Copy, Debug, PartialEq, Eq)]
pub enum SessionError {
    /// The audio file could not be opened, decoded or started.
    Decode,
    /// The pin driver failed a call.
    Hardware(HardwareError),
    /// The timeline names a pin that the bank does not have.
    Index(IndexError),
}

} // verus!
