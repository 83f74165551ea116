//! The pin bank: a fixed row of output pins, reached by their place in it.
//!
//! The bank makes no call itself. Each of its routines says which call on
//! the pin driver comes next, given how the last one went.

use vstd::prelude::*;
use crate::driver::{Action, Direction, Reply};
use crate::error::{HardwareError, IndexError};

verus! {

/// The level that a pin rests at once the bank is initialised.
pub const QUIESCENT: u8 = 1;

/// The seconds for which the sweep holds a pin low.
pub const HOLD_SECONDS: u64 = 1;

/// The logic level that stands for a pin being on or off.
pub open spec fn level_of(on: bool) -> u8 {
    if on {
        1
    } else {
        0
    }
}

/// The call of initialisation that is in flight on a pin.
#[derive(Clone, Copy, Debug, PartialEq, Eq)]
pub enum InitPhase {
    AskExported,
    Export,
    AskDirection,
    SetDirection,
    AskValue,
    SetValue,
}

/// A point in the bank's initialisation: the place of the pin that is being
/// initialised, and the call in flight on it.
#[derive(Clone, Copy, Debug, PartialEq, Eq)]
pub struct InitStage {
    pub pin: usize,
    pub phase: InitPhase,
}

/// The call of the sweep that is in flight on a pin.
#[derive(Clone, Copy, Debug, PartialEq, Eq)]
pub enum SweepPhase {
    Low,
    Hold,
    High,
}

/// A point in the diagnostic sweep: the place of the pin that is being
/// toggled, and the call in flight on it.
#[derive(Clone, Copy, Debug, PartialEq, Eq)]
pub struct SweepStage {
    pub pin: usize,
    pub phase: SweepPhase,
}

/// The numbers of the pins that the board wires to the bank, in order.
pub open spec fn board() -> Seq<u64> {
    Seq::new(8, |i: int| (11 + i) as u64)
}

/// What `set` answers for a bank of the pins `pins`.
pub open spec fn set_call(pins: Seq<u64>, pin: usize, on: bool) -> Result<Action, IndexError> {
    if pin < pins.len() {
        Ok(Action::SetValue { pin: pins[pin as int], level: level_of(on) })
    } else {
        Err(IndexError { index: pin, count: pins.len() as usize })
    }
}

/// The call that stands for a point of initialisation.
pub open spec fn init_call(pins: Seq<u64>, at: InitStage) -> Action {
    let pin = pins[at.pin as int];
    match at.phase {
        InitPhase::AskExported => Action::IsExported { pin },
        InitPhase::Export => Action::Export { pin },
        InitPhase::AskDirection => Action::GetDirection { pin },
        InitPhase::SetDirection => Action::SetDirection { pin, direction: Direction::Out },
        InitPhase::AskValue => Action::GetValue { pin },
        InitPhase::SetValue => Action::SetValue { pin, level: QUIESCENT },
    }
}

/// What initialisation does on one pin after `reply` has come to the call
/// of `phase`: the next call on the same pin, nothing more on this pin, or
/// failure. A write is asked for only where the pin was reported not to be
/// in the state that the write brings about, and a reply that does not
/// answer the call counts as its failure.
pub open spec fn init_follow(phase: InitPhase, reply: Reply) -> Result<
    Option<InitPhase>,
    HardwareError,
> {
    match (phase, reply) {
        (InitPhase::AskExported, Reply::Exported(exported)) => Ok(
            Some(
                if exported {
                    InitPhase::AskDirection
                } else {
                    InitPhase::Export
                },
            ),
        ),
        (InitPhase::Export, Reply::Done) => Ok(Some(InitPhase::AskDirection)),
        (InitPhase::AskDirection, Reply::Direction(direction)) => Ok(
            Some(
                if direction is Out {
                    InitPhase::AskValue
                } else {
                    InitPhase::SetDirection
                },
            ),
        ),
        (InitPhase::SetDirection, Reply::Done) => Ok(Some(InitPhase::AskValue)),
        (InitPhase::AskValue, Reply::Value(level)) => Ok(
            if level == QUIESCENT {
                None
            } else {
                Some(InitPhase::SetValue)
            },
        ),
        (InitPhase::SetValue, Reply::Done) => Ok(None),
        _ => Err(HardwareError),
    }
}

/// Where initialisation stands when it turns to the pin at place `pin`.
pub open spec fn init_enter(pins: Seq<u64>, pin: int) -> Option<InitStage> {
    if 0 <= pin < pins.len() {
        Some(InitStage { pin: pin as usize, phase: InitPhase::AskExported })
    } else {
        None
    }
}

/// The point of initialisation that follows `at` once `reply` has come;
/// `None` before `at` is initialisation not yet begun, `None` after it is
/// initialisation complete.
pub open spec fn init_next(pins: Seq<u64>, at: Option<InitStage>, reply: Reply) -> Result<
    Option<InitStage>,
    HardwareError,
> {
    match at {
        None => Ok(init_enter(pins, 0)),
        Some(at) => if at.pin >= pins.len() {
            Ok(None)
        } else {
            match init_follow(at.phase, reply) {
                Err(e) => Err(e),
                Ok(Some(phase)) => Ok(Some(InitStage { pin: at.pin, phase })),
                Ok(None) => Ok(init_enter(pins, at.pin + 1)),
            }
        },
    }
}

/// The call that stands for a point of the sweep.
pub open spec fn sweep_call(pins: Seq<u64>, at: SweepStage) -> Action {
    let pin = pins[at.pin as int];
    match at.phase {
        SweepPhase::Low => Action::SetValue { pin, level: 0 },
        SweepPhase::Hold => Action::Sleep { seconds: HOLD_SECONDS },
        SweepPhase::High => Action::SetValue { pin, level: QUIESCENT },
    }
}

/// Where the sweep stands when it turns to the pin at place `pin`.
pub open spec fn sweep_enter(pins: Seq<u64>, pin: int) -> Option<SweepStage> {
    if 0 <= pin < pins.len() {
        Some(SweepStage { pin: pin as usize, phase: SweepPhase::Low })
    } else {
        None
    }
}

/// The point of the sweep that follows `at` once `reply` has come; `None`
/// before `at` is the sweep not yet begun, `None` after it is the sweep
/// complete. A write that is not reported done fails the sweep; the hold
/// cannot fail.
pub open spec fn sweep_next(pins: Seq<u64>, at: Option<SweepStage>, reply: Reply) -> Result<
    Option<SweepStage>,
    HardwareError,
> {
    match at {
        None => Ok(sweep_enter(pins, 0)),
        Some(at) => if at.pin >= pins.len() {
            Ok(None)
        } else {
            match at.phase {
                SweepPhase::Low => if reply is Done {
                    Ok(Some(SweepStage { pin: at.pin, phase: SweepPhase::Hold }))
                } else {
                    Err(HardwareError)
                },
                SweepPhase::Hold => Ok(Some(SweepStage { pin: at.pin, phase: SweepPhase::High })),
                SweepPhase::High => if reply is Done {
                    Ok(sweep_enter(pins, at.pin + 1))
                } else {
                    Err(HardwareError)
                },
            }
        },
    }
}

/// A point of initialisation together with the call that stands for it.
pub open spec fn init_step(pins: Seq<u64>, next: Result<Option<InitStage>, HardwareError>) -> Result<
    Option<(InitStage, Action)>,
    HardwareError,
> {
    match next {
        Err(e) => Err(e),
        Ok(None) => Ok(None),
        Ok(Some(at)) => Ok(Some((at, init_call(pins, at)))),
    }
}

/// A point of the sweep together with the call that stands for it.
pub open spec fn sweep_step(
    pins: Seq<u64>,
    next: Result<Option<SweepStage>, HardwareError>,
) -> Result<Option<(SweepStage, Action)>, HardwareError> {
    match next {
        Err(e) => Err(e),
        Ok(None) => Ok(None),
        Ok(Some(at)) => Ok(Some((at, sweep_call(pins, at)))),
    }
}

/// A fixed row of output pins. A pin's place in the row never changes.
pub struct GPIO {
    pins: Vec<u64>,
}

impl View for GPIO {
    type V = Seq<u64>;

    /// The numbers of the bank's pins, by place.
    closed spec fn view(&self) -> Seq<u64> {
        self.pins@
    }
}

impl GPIO {
    /// The bank of the eight pins that the board wires, numbers 11 to 18.
    pub fn new() -> (bank: GPIO)
        ensures
            bank@ == board(),
    {
        let mut pins: Vec<u64> = Vec::new();
        let mut pin_no: u64 = 11;
        while pin_no <= 18
            invariant
                11 <= pin_no <= 19,
                pins@ == Seq::new((pin_no - 11) as nat, |i: int| (11 + i) as u64),
            decreases 19 - pin_no,
        {
            pins.push(pin_no);
            pin_no += 1;
        }
        GPIO { pins }
    }

    /// A bank has no more pins than the machine's word can count.
    pub proof fn lemma_bank_fits(&self)
        ensures
            self@.len() <= usize::MAX,
    {
        assert(self.pins.len() == self.pins@.len());
    }

    /// The number of pins in the bank.
    pub fn len(&self) -> (count: usize)
        ensures
            count == self@.len(),
    {
        self.pins.len()
    }

    /// One step of initialisation, which exports every pin, makes it an
    /// output and drives it high, pin by pin, and leaves alone what is
    /// already so.
    ///
    /// `at` is the point whose call was made and `reply` what came of it;
    /// `None` begins. The answer is the next point and its call, or `None`
    /// when every pin is initialised. A failed call ends initialisation
    /// where it stands: what was done to earlier pins stays done.
    pub fn init(&self, at: Option<InitStage>, reply: Reply) -> (r: Result<
        Option<(InitStage, Action)>,
        HardwareError,
    >)
        ensures
            r == init_step(self@, init_next(self@, at, reply)),
    {
        let pin: usize = match at {
            None => 0,
            Some(at) => {
                if at.pin >= self.pins.len() {
                    return Ok(None);
                }
                let number: u64 = self.pins[at.pin];
                let follow: Option<(InitPhase, Action)> = match (at.phase, reply) {
                    (InitPhase::AskExported, Reply::Exported(true)) => Some(
                        (InitPhase::AskDirection, Action::GetDirection { pin: number }),
                    ),
                    (InitPhase::AskExported, Reply::Exported(false)) => Some(
                        (InitPhase::Export, Action::Export { pin: number }),
                    ),
                    (InitPhase::Export, Reply::Done) => Some(
                        (InitPhase::AskDirection, Action::GetDirection { pin: number }),
                    ),
                    (InitPhase::AskDirection, Reply::Direction(Direction::Out)) => Some(
                        (InitPhase::AskValue, Action::GetValue { pin: number }),
                    ),
                    (InitPhase::AskDirection, Reply::Direction(_)) => Some(
                        (
                            InitPhase::SetDirection,
                            Action::SetDirection { pin: number, direction: Direction::Out },
                        ),
                    ),
                    (InitPhase::SetDirection, Reply::Done) => Some(
                        (InitPhase::AskValue, Action::GetValue { pin: number }),
                    ),
                    (InitPhase::AskValue, Reply::Value(level)) => {
                        if level == QUIESCENT {
                            None
                        } else {
                            Some(
                                (
                                    InitPhase::SetValue,
                                    Action::SetValue { pin: number, level: QUIESCENT },
                                ),
                            )
                        }
                    },
                    (InitPhase::SetValue, Reply::Done) => None,
                    _ => {
                        return Err(HardwareError);
                    },
                };
                match follow {
                    Some((phase, call)) => {
                        return Ok(Some((InitStage { pin: at.pin, phase }, call)));
                    },
                    None => at.pin + 1,
                }
            },
        };
        if pin < self.pins.len() {
            Ok(
                Some(
                    (
                        InitStage { pin, phase: InitPhase::AskExported },
                        Action::IsExported { pin: self.pins[pin] },
                    ),
                ),
            )
        } else {
            Ok(None)
        }
    }

    /// One step of the diagnostic sweep, which takes the pins in order and
    /// drives each low, holds it for a second and drives it high again.
    ///
    /// `at` is the point whose call was made and `reply` what came of it;
    /// `None` begins. The answer is the next point and its call, or `None`
    /// when the last pin is high again. A failed write ends the sweep: no
    /// later pin is touched.
    pub fn test(&self, at: Option<SweepStage>, reply: Reply) -> (r: Result<
        Option<(SweepStage, Action)>,
        HardwareError,
    >)
        ensures
            r == sweep_step(self@, sweep_next(self@, at, reply)),
    {
        let pin: usize = match at {
            None => 0,
            Some(at) => {
                if at.pin >= self.pins.len() {
                    return Ok(None);
                }
                let number: u64 = self.pins[at.pin];
                match (at.phase, reply) {
                    (SweepPhase::Low, Reply::Done) => {
                        return Ok(
                            Some(
                                (
                                    SweepStage { pin: at.pin, phase: SweepPhase::Hold },
                                    Action::Sleep { seconds: HOLD_SECONDS },
                                ),
                            ),
                        );
                    },
                    (SweepPhase::Hold, _) => {
                        return Ok(
                            Some(
                                (
                                    SweepStage { pin: at.pin, phase: SweepPhase::High },
                                    Action::SetValue { pin: number, level: QUIESCENT },
                                ),
                            ),
                        );
                    },
                    (SweepPhase::High, Reply::Done) => at.pin + 1,
                    _ => {
                        return Err(HardwareError);
                    },
                }
            },
        };
        if pin < self.pins.len() {
            Ok(
                Some(
                    (
                        SweepStage { pin, phase: SweepPhase::Low },
                        Action::SetValue { pin: self.pins[pin], level: 0 },
                    ),
                ),
            )
        } else {
            Ok(None)
        }
    }

    /// The call that drives the pin at place `pin` high if `on`, low if not.
    pub fn set(&self, pin: usize, on: bool) -> (r: Result<Action, IndexError>)
        ensures
            r == set_call(self@, pin, on),
    {
        if pin < self.pins.len() {
            let level: u8 = if on {
                1
            } else {
                0
            };
            Ok(Action::SetValue { pin: self.pins[pin], level })
        } else {
            Err(IndexError { index: pin, count: self.pins.len() })
        }
    }
}

} // verus!
