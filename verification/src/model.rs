//! A model of the pins behind the driver, to say what the bank's routines
//! come to when their calls are made one after the other on a driver that
//! does not fail.

use vstd::prelude::*;
use crate::driver::{Action, Direction, Reply};
use crate::gpio::{
    init_call, init_enter, init_next, sweep_call, sweep_enter, sweep_next, InitPhase, InitStage,
    SweepPhase, SweepStage, QUIESCENT,
};

verus! {

/// The state of one pin. In a map of pins by number, a pin that the map
/// does not hold is in some state that is not known.
pub struct Line {
    pub exported: bool,
    pub direction: Direction,
    pub level: u8,
}

/// Whether a pin rests as initialisation leaves it: exported, an output,
/// and high.
pub open spec fn quiescent(line: Line) -> bool {
    line.exported && line.direction is Out && line.level == QUIESCENT
}

/// Whether every pin of a bank rests as initialisation leaves it.
pub open spec fn all_quiescent(pins: Seq<u64>, lines: Map<u64, Line>) -> bool {
    forall|i: int| 0 <= i < pins.len() ==> quiescent(#[trigger] lines[pins[i]])
}

/// What a call does to the pins, by number, and what is reported of it. A
/// read reports what the last write left, a write changes only what it
/// names, and a call that is not on a pin changes no pin. Setting the
/// direction to high or low makes the pin an output at that level, and
/// setting any level but 0 drives the pin high.
pub open spec fn perform(lines: Map<u64, Line>, call: Action) -> (Map<u64, Line>, Reply) {
    match call {
        Action::IsExported { pin } => (lines, Reply::Exported(lines[pin].exported)),
        Action::Export { pin } => (
            lines.insert(pin, Line { exported: true, ..lines[pin] }),
            Reply::Done,
        ),
        Action::GetDirection { pin } => (lines, Reply::Direction(lines[pin].direction)),
        Action::SetDirection { pin, direction } => (
            lines.insert(
                pin,
                match direction {
                    Direction::In => Line { direction: Direction::In, ..lines[pin] },
                    Direction::Out => Line { direction: Direction::Out, ..lines[pin] },
                    Direction::High => Line { direction: Direction::Out, level: 1, ..lines[pin] },
                    Direction::Low => Line { direction: Direction::Out, level: 0, ..lines[pin] },
                },
            ),
            Reply::Done,
        ),
        Action::GetValue { pin } => (lines, Reply::Value(lines[pin].level)),
        Action::SetValue { pin, level } => (
            lines.insert(
                pin,
                Line {
                    level: if level == 0 {
                        0
                    } else {
                        1
                    },
                    ..lines[pin]
                },
            ),
            Reply::Done,
        ),
        _ => (lines, Reply::Done),
    }
}

/// The calls that initialisation has yet to make at most, counted from the
/// point `at`.
pub open spec fn init_left(pins: Seq<u64>, at: InitStage) -> nat {
    if at.pin < pins.len() {
        ((pins.len() - at.pin) * 6 - match at.phase {
            InitPhase::AskExported => 0int,
            InitPhase::Export => 1,
            InitPhase::AskDirection => 2,
            InitPhase::SetDirection => 3,
            InitPhase::AskValue => 4,
            InitPhase::SetValue => 5,
        }) as nat
    } else {
        0
    }
}

/// Initialisation run from the point `at`, whose call is yet to be made, to
/// its end: the pins as it leaves them, and the writes it made, in order.
/// In a bank that a machine can hold every step leaves fewer calls to make
/// than the one before it, so the run goes on until initialisation ends.
pub open spec fn init_from(pins: Seq<u64>, at: InitStage, lines: Map<u64, Line>) -> (
    Map<u64, Line>,
    Seq<Action>,
)
    decreases init_left(pins, at),
{
    let call = init_call(pins, at);
    let (after, told) = perform(lines, call);
    let made = if call.writes() {
        seq![call]
    } else {
        Seq::empty()
    };
    match init_next(pins, Some(at), told) {
        Ok(Some(next)) => if init_left(pins, next) < init_left(pins, at) {
            let (end, writes) = init_from(pins, next, after);
            (end, made + writes)
        } else {
            (after, made)
        },
        _ => (after, made),
    }
}

/// Initialisation run from its beginning to its end.
pub open spec fn init_run(pins: Seq<u64>, lines: Map<u64, Line>) -> (Map<u64, Line>, Seq<Action>) {
    match init_enter(pins, 0) {
        Some(at) => init_from(pins, at, lines),
        None => (lines, Seq::empty()),
    }
}

/// What the calls before the point `at` have brought about: the pins before
/// the one in hand rest, and the one in hand is as far as its phase says.
pub open spec fn init_so_far(pins: Seq<u64>, at: InitStage, lines: Map<u64, Line>) -> bool {
    &&& at.pin < pins.len()
    &&& forall|i: int| 0 <= i < at.pin ==> quiescent(#[trigger] lines[pins[i]])
    &&& match at.phase {
        InitPhase::AskExported | InitPhase::Export => true,
        InitPhase::AskDirection | InitPhase::SetDirection => lines[pins[at.pin as int]].exported,
        InitPhase::AskValue | InitPhase::SetValue => lines[pins[at.pin as int]].exported
            && lines[pins[at.pin as int]].direction is Out,
    }
}

/// On a driver that does not fail, initialisation goes on to its end and
/// leaves every pin of the bank at rest.
pub proof fn lemma_init_from_settles(pins: Seq<u64>, at: InitStage, lines: Map<u64, Line>)
    requires
        pins.len() <= usize::MAX,
        init_so_far(pins, at, lines),
    ensures
        all_quiescent(pins, init_from(pins, at, lines).0),
    decreases init_left(pins, at),
{
    let call = init_call(pins, at);
    let (after, told) = perform(lines, call);
    match init_next(pins, Some(at), told) {
        Ok(Some(next)) => {
            assert(init_left(pins, next) < init_left(pins, at));
            assert(init_so_far(pins, next, after)) by {
                assert forall|i: int| 0 <= i < next.pin implies quiescent(
                    #[trigger] after[pins[i]],
                ) by {
                    if i < at.pin {
                        assert(quiescent(lines[pins[i]]));
                    }
                }
            }
            lemma_init_from_settles(pins, next, after);
        },
        Ok(None) => {
            assert forall|i: int| 0 <= i < pins.len() implies quiescent(
                #[trigger] after[pins[i]],
            ) by {
                if i < at.pin {
                    assert(quiescent(lines[pins[i]]));
                }
            }
        },
        Err(_) => {},
    }
}

/// Where every pin of the bank rests already, initialisation only asks: it
/// makes no write, and leaves the pins as they are.
pub proof fn lemma_init_from_rests(pins: Seq<u64>, at: InitStage, lines: Map<u64, Line>)
    requires
        pins.len() <= usize::MAX,
        at.pin < pins.len(),
        at.phase is AskExported || at.phase is AskDirection || at.phase is AskValue,
        all_quiescent(pins, lines),
    ensures
        init_from(pins, at, lines) == (lines, Seq::<Action>::empty()),
    decreases init_left(pins, at),
{
    let call = init_call(pins, at);
    let (after, told) = perform(lines, call);
    assert(quiescent(lines[pins[at.pin as int]]));
    match init_next(pins, Some(at), told) {
        Ok(Some(next)) => {
            assert(init_left(pins, next) < init_left(pins, at));
            lemma_init_from_rests(pins, next, after);
            assert(Seq::<Action>::empty() + Seq::<Action>::empty() == Seq::<Action>::empty());
        },
        _ => {},
    }
}

/// Initialising twice changes nothing the second time: on a driver that
/// does not fail, the first run leaves every pin of the bank exported, an
/// output and high, whatever state it found the pins in, and a run that
/// finds them so makes no write and leaves them so.
pub proof fn lemma_init_twice(pins: Seq<u64>, lines: Map<u64, Line>)
    requires
        pins.len() <= usize::MAX,
    ensures
        all_quiescent(pins, init_run(pins, lines).0),
        init_run(pins, init_run(pins, lines).0) == (
            init_run(pins, lines).0,
            Seq::<Action>::empty(),
        ),
{
    match init_enter(pins, 0) {
        Some(at) => {
            lemma_init_from_settles(pins, at, lines);
            lemma_init_from_rests(pins, at, init_from(pins, at, lines).0);
        },
        None => {},
    }
}

/// The place of a phase among the three of the sweep.
pub open spec fn sweep_rank(phase: SweepPhase) -> int {
    match phase {
        SweepPhase::Low => 0,
        SweepPhase::Hold => 1,
        SweepPhase::High => 2,
    }
}

/// The calls that the sweep has yet to make, counted from the point `at`.
pub open spec fn sweep_left(pins: Seq<u64>, at: SweepStage) -> nat {
    if at.pin < pins.len() {
        ((pins.len() - at.pin) * 3 - sweep_rank(at.phase)) as nat
    } else {
        0
    }
}

/// The sweep run from the point `at`, whose call is yet to be made, to its
/// end: the pins as it leaves them, and the calls it made, in order. In a
/// bank that a machine can hold every step leaves fewer calls to make than
/// the one before it, so the run goes on until the sweep ends.
pub open spec fn sweep_from(pins: Seq<u64>, at: SweepStage, lines: Map<u64, Line>) -> (
    Map<u64, Line>,
    Seq<Action>,
)
    decreases sweep_left(pins, at),
{
    let call = sweep_call(pins, at);
    let (after, told) = perform(lines, call);
    match sweep_next(pins, Some(at), told) {
        Ok(Some(next)) => if sweep_left(pins, next) < sweep_left(pins, at) {
            let (end, calls) = sweep_from(pins, next, after);
            (end, seq![call] + calls)
        } else {
            (after, seq![call])
        },
        _ => (after, seq![call]),
    }
}

/// The sweep run from its beginning to its end.
pub open spec fn sweep_run(pins: Seq<u64>, lines: Map<u64, Line>) -> (Map<u64, Line>, Seq<Action>) {
    match sweep_enter(pins, 0) {
        Some(at) => sweep_from(pins, at, lines),
        None => (lines, Seq::empty()),
    }
}

/// The calls of a whole sweep: for each pin of the bank in the order of the
/// places, low, hold, high.
pub open spec fn sweep_calls(pins: Seq<u64>) -> Seq<Action> {
    Seq::new(
        3 * pins.len(),
        |k: int|
            sweep_call(
                pins,
                SweepStage {
                    pin: (k / 3) as usize,
                    phase: if k % 3 == 0 {
                        SweepPhase::Low
                    } else if k % 3 == 1 {
                        SweepPhase::Hold
                    } else {
                        SweepPhase::High
                    },
                },
            ),
    )
}

/// What the calls before the point `at` of a sweep have left of pins that
/// rested when the sweep began: every pin of the bank rests but the one in
/// hand, which is low from the sweep's first call on it to its last.
pub open spec fn sweep_so_far(pins: Seq<u64>, at: SweepStage, lines: Map<u64, Line>) -> bool {
    &&& at.pin < pins.len()
    &&& forall|i: int|
        0 <= i < pins.len() ==> {
            let line = #[trigger] lines[pins[i]];
            &&& line.exported
            &&& line.direction is Out
            &&& at.phase is Low || pins[i] != pins[at.pin as int] ==> line.level == QUIESCENT
        }
}

/// On a driver that does not fail, the sweep goes on to its end, makes its
/// calls in order and leaves every pin of the bank at rest again.
pub proof fn lemma_sweep_from(pins: Seq<u64>, at: SweepStage, lines: Map<u64, Line>)
    requires
        pins.len() <= usize::MAX,
        sweep_so_far(pins, at, lines),
    ensures
        all_quiescent(pins, sweep_from(pins, at, lines).0),
        sweep_from(pins, at, lines).1 == sweep_calls(pins).skip(3 * at.pin + sweep_rank(at.phase)),
    decreases sweep_left(pins, at),
{
    let call = sweep_call(pins, at);
    let (after, told) = perform(lines, call);
    let k = 3 * at.pin + sweep_rank(at.phase);
    let whole = sweep_calls(pins);
    assert(whole[k] == call);
    match sweep_next(pins, Some(at), told) {
        Ok(Some(next)) => {
            assert(sweep_left(pins, next) < sweep_left(pins, at));
            assert(3 * next.pin + sweep_rank(next.phase) == k + 1);
            assert(sweep_so_far(pins, next, after)) by {
                assert forall|i: int| 0 <= i < pins.len() implies {
                    let line = #[trigger] after[pins[i]];
                    &&& line.exported
                    &&& line.direction is Out
                    &&& next.phase is Low || pins[i] != pins[next.pin as int] ==> line.level
                        == QUIESCENT
                } by {
                    let before = lines[pins[i]];
                    assert(before.exported && before.direction is Out);
                }
            }
            lemma_sweep_from(pins, next, after);
            assert(seq![call] + whole.skip(k + 1) =~= whole.skip(k));
        },
        Ok(None) => {
            assert(k == 3 * pins.len() - 1);
            assert(seq![call] =~= whole.skip(k));
            assert forall|i: int| 0 <= i < pins.len() implies quiescent(
                #[trigger] after[pins[i]],
            ) by {
                let before = lines[pins[i]];
                assert(before.exported && before.direction is Out);
            }
        },
        Err(_) => {},
    }
}

/// The sweep of a bank at rest toggles every pin once: on a driver that
/// does not fail it drives each pin low, holds, and drives it high again,
/// one pin after the other in the order of their places, and leaves the
/// bank at rest.
pub proof fn lemma_sweep(pins: Seq<u64>, lines: Map<u64, Line>)
    requires
        pins.len() <= usize::MAX,
        all_quiescent(pins, lines),
    ensures
        sweep_run(pins, lines).1 == sweep_calls(pins),
        all_quiescent(pins, sweep_run(pins, lines).0),
{
    match sweep_enter(pins, 0) {
        Some(at) => {
            assert(sweep_so_far(pins, at, lines)) by {
                assert forall|i: int| 0 <= i < pins.len() implies {
                    let line = #[trigger] lines[pins[i]];
                    &&& line.exported
                    &&& line.direction is Out
                    &&& at.phase is Low || pins[i] != pins[at.pin as int] ==> line.level
                        == QUIESCENT
                } by {
                    assert(quiescent(lines[pins[i]]));
                }
            }
            lemma_sweep_from(pins, at, lines);
            assert(sweep_calls(pins).skip(0) =~= sweep_calls(pins));
        },
        None => {
            assert(sweep_calls(pins) =~= Seq::<Action>::empty());
        },
    }
}

/// Initialisation and then the sweep, as they come before the first pass,
/// leave every pin of the bank exported, an output and high, whatever
/// state they found the pins in, on a driver that does not fail.
pub proof fn lemma_startup_settles(pins: Seq<u64>, lines: Map<u64, Line>)
    requires
        pins.len() <= usize::MAX,
    ensures
        all_quiescent(pins, sweep_run(pins, init_run(pins, lines).0).0),
{
    lemma_init_twice(pins, lines);
    lemma_sweep(pins, init_run(pins, lines).0);
}

} // verus!
