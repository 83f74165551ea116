//! The calls that the library asks its host to make, and what the host
//! reports back.

use vstd::prelude::*;

verus! {

/// How a pin is wired to the outside: the four settings that the kernel's
/// pin interface knows.
#[derive(Clone, Copy, Debug, PartialEq, Eq)]
pub enum Direction {
    In,
    Out,
    High,
    Low,
}

/// One call on the pin driver, the clock or the audio output.
///
/// A pin is named by its number on the board, not by its place in the bank.
#[derive(Clone, Copy, Debug, PartialEq, Eq)]
pub enum Action {
    /// Ask whether the pin is exported to user space.
    IsExported { pin: u64 },
    /// Export the pin.
    Export { pin: u64 },
    /// Read the pin's direction.
    GetDirection { pin: u64 },
    /// Set the pin's direction.
    SetDirection { pin: u64, direction: Direction },
    /// Read the pin's logic level.
    GetValue { pin: u64 },
    /// Drive the pin to a logic level: 0 is low, 1 is high.
    SetValue { pin: u64, level: u8 },
    /// Block for a number of whole seconds.
    Sleep { seconds: u64 },
    /// Open and decode the audio file and start playing it.
    Play,
    /// Ask the audio output whether it has played everything it was given.
    IsFinished,
    /// Block until the audio output has played everything it was given.
    WaitUntilFinished,
}

/// What the host reports of the call it was asked to make.
#[derive(Clone, Copy, Debug, PartialEq, Eq)]
pub enum Reply {
    /// The call was made and has nothing to report.
    Done,
    /// Answer to [`Action::IsExported`].
    Exported(bool),
    /// Answer to [`Action::GetDirection`].
    Direction(Direction),
    /// Answer to [`Action::GetValue`].
    Value(u8),
    /// Answer to [`Action::IsFinished`].
    Finished(bool),
    /// The call could not be made, or failed.
    Failed,
}

impl Action {
    /// Whether the call changes the state of a pin.
    pub open spec fn writes(self) -> bool {
        self is Export || self is SetDirection || self is SetValue
    }
}

} // verus!
