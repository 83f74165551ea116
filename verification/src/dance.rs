//! The timeline: which pins go on and off at which second of a pass.
//!
//! A timeline is written as steps between semicolons. A step is a number of
//! seconds, a colon, and a list of pin states between commas; a state is on
//! where it reads `1` and off where it reads anything else. The seconds of a
//! step count from the step before it, so a step falls due at the sum of all
//! seconds up to and including its own. Two steps that fall due at the same
//! second are one entry, and the later one says what it holds.

use vstd::prelude::*;
use std::collections::HashMap;
use crate::driver::{Action, Reply};
use crate::error::{HardwareError, IndexError, ParseError};
use crate::gpio::{
    board, init_call, init_next, set_call, sweep_call, sweep_next, InitStage, SweepStage, GPIO,
};
use crate::text::{find, first_index, lemma_split_head, number, read_number, split, word};

verus! {

/// One step of a timeline: the seconds it waits after the step before it,
/// and the pin states it then sets, by place in the bank.
pub struct Step {
    pub seconds: nat,
    pub states: Seq<bool>,
}

/// Whether a token of a state list says on.
pub open spec fn is_on(token: Seq<char>) -> bool {
    token.len() == 1 && token[0] == '1'
}

/// The pin states that a state list holds, one for each of its tokens.
pub open spec fn states(list: Seq<char>) -> Seq<bool> {
    split(list, ',').map_values(|token: Seq<char>| is_on(token))
}

/// The step that a piece of the timeline text stands for; `index` is the
/// piece's place among the pieces.
pub open spec fn read_step(piece: Seq<char>, index: usize) -> Result<Step, ParseError> {
    let colon = first_index(piece, ':');
    match word(number(piece.take(colon))) {
        None => Err(ParseError::BadDuration { step: index }),
        Some(seconds) => if colon < piece.len() {
            Ok(Step { seconds: seconds as nat, states: states(piece.skip(colon + 1)) })
        } else {
            Err(ParseError::MissingSeparator { step: index })
        },
    }
}

/// The seconds from the start of a pass to the last of `steps`.
pub open spec fn total(steps: Seq<Step>) -> nat
    decreases steps.len(),
{
    if steps.len() == 0 {
        0
    } else {
        total(steps.drop_last()) + steps.last().seconds
    }
}

/// The steps that a row of pieces stands for. The first piece that is no
/// step, or that falls due later than the machine's word can count, fails
/// the row.
pub open spec fn read_steps(pieces: Seq<Seq<char>>) -> Result<Seq<Step>, ParseError>
    decreases pieces.len(),
{
    if pieces.len() == 0 {
        Ok(Seq::empty())
    } else {
        let index = (pieces.len() - 1) as usize;
        match read_steps(pieces.drop_last()) {
            Err(e) => Err(e),
            Ok(steps) => match read_step(pieces.last(), index) {
                Err(e) => Err(e),
                Ok(step) => if total(steps) + step.seconds <= usize::MAX {
                    Ok(steps.push(step))
                } else {
                    Err(ParseError::Overflow { step: index })
                },
            },
        }
    }
}

/// The steps that a timeline text stands for. The empty text is the
/// timeline without steps.
pub open spec fn parse(text: Seq<char>) -> Result<Seq<Step>, ParseError> {
    if text.len() == 0 {
        Ok(Seq::empty())
    } else {
        read_steps(split(text, ';'))
    }
}

/// What falls due when: each step's states, entered at the second at which
/// the step falls due, a later step replacing an earlier one at the same
/// second.
pub open spec fn schedule(steps: Seq<Step>) -> Map<nat, Seq<bool>>
    decreases steps.len(),
{
    if steps.len() == 0 {
        Map::empty()
    } else {
        schedule(steps.drop_last()).insert(total(steps), steps.last().states)
    }
}

/// The second at which the step at place `i` falls due.
pub open spec fn due(steps: Seq<Step>, i: int) -> nat {
    total(steps.take(i + 1))
}

/// The call of a pass that sets the pin at place `index` as the timeline
/// says for the second `elapsed`: none where nothing falls due then or the
/// entry has no such place, a failure where the entry has the place and the
/// bank has not.
pub open spec fn step_call(
    timeline: Map<nat, Seq<bool>>,
    pins: Seq<u64>,
    elapsed: nat,
    index: int,
) -> Result<Option<Action>, IndexError> {
    if timeline.contains_key(elapsed) && 0 <= index < timeline[elapsed].len() {
        match set_call(pins, index as usize, timeline[elapsed][index]) {
            Ok(call) => Ok(Some(call)),
            Err(e) => Err(e),
        }
    } else {
        Ok(None)
    }
}

/// A point in what comes before the first pass: the bank's initialisation,
/// then its sweep.
#[derive(Clone, Copy, Debug, PartialEq, Eq)]
pub enum Startup {
    Init(InitStage),
    Sweep(SweepStage),
}

/// The call that stands for a point of the startup.
pub open spec fn startup_call(pins: Seq<u64>, at: Startup) -> Action {
    match at {
        Startup::Init(at) => init_call(pins, at),
        Startup::Sweep(at) => sweep_call(pins, at),
    }
}

/// Where the startup stands when initialisation is complete.
pub open spec fn startup_sweep(pins: Seq<u64>, next: Result<Option<SweepStage>, HardwareError>) -> Result<
    Option<Startup>,
    HardwareError,
> {
    match next {
        Err(e) => Err(e),
        Ok(None) => Ok(None),
        Ok(Some(at)) => Ok(Some(Startup::Sweep(at))),
    }
}

/// The point of the startup that follows `at` once `reply` has come: the
/// sweep begins when initialisation is complete, and the startup is
/// complete when the sweep is. `None` before `at` is the startup not yet
/// begun.
pub open spec fn startup_next(pins: Seq<u64>, at: Option<Startup>, reply: Reply) -> Result<
    Option<Startup>,
    HardwareError,
> {
    match at {
        Some(Startup::Sweep(at)) => startup_sweep(pins, sweep_next(pins, Some(at), reply)),
        _ => {
            let begun = match at {
                Some(Startup::Init(at)) => Some(at),
                _ => None,
            };
            match init_next(pins, begun, reply) {
                Err(e) => Err(e),
                Ok(Some(at)) => Ok(Some(Startup::Init(at))),
                Ok(None) => startup_sweep(pins, sweep_next(pins, None, reply)),
            }
        },
    }
}

/// A point of the startup together with the call that stands for it.
pub open spec fn startup_step(pins: Seq<u64>, next: Result<Option<Startup>, HardwareError>) -> Result<
    Option<(Startup, Action)>,
    HardwareError,
> {
    match next {
        Err(e) => Err(e),
        Ok(None) => Ok(None),
        Ok(Some(at)) => Ok(Some((at, startup_call(pins, at)))),
    }
}

/// What a map of stored steps says falls due when.
spec fn stored(steps: Map<usize, Vec<bool>>) -> Map<nat, Seq<bool>> {
    Map::new(
        |second: nat| second <= usize::MAX && steps.contains_key(second as usize),
        |second: nat| steps[second as usize]@,
    )
}

/// Every step that falls due at a second is an entry of the schedule, and
/// the schedule has no other entries.
pub proof fn lemma_schedule_seconds(steps: Seq<Step>, second: nat)
    ensures
        schedule(steps).contains_key(second) <==> exists|i: int|
            0 <= i < steps.len() && #[trigger] due(steps, i) == second,
    decreases steps.len(),
{
    if steps.len() > 0 {
        let front = steps.drop_last();
        lemma_schedule_seconds(front, second);
        assert(steps.take(steps.len() as int) == steps);
        assert forall|i: int| 0 <= i < front.len() implies due(front, i) == due(steps, i) by {
            assert(front.take(i + 1) == steps.take(i + 1));
        }
        if schedule(steps).contains_key(second) {
            if second == total(steps) {
                assert(due(steps, steps.len() - 1) == second);
            } else {
                let i = choose|i: int| 0 <= i < front.len() && #[trigger] due(front, i) == second;
                assert(due(steps, i) == second);
            }
        }
        if exists|i: int| 0 <= i < steps.len() && #[trigger] due(steps, i) == second {
            let i = choose|i: int| 0 <= i < steps.len() && #[trigger] due(steps, i) == second;
            if i < front.len() {
                assert(due(front, i) == second);
            }
        }
    }
}

/// A step falls due its own seconds after the step before it, and the first
/// step its own seconds after the start.
pub proof fn lemma_due_adds(steps: Seq<Step>, i: int)
    requires
        0 <= i < steps.len(),
    ensures
        due(steps, i) == (if i == 0 {
            0
        } else {
            due(steps, i - 1)
        }) + steps[i].seconds,
{
    let upto = steps.take(i + 1);
    assert(upto.drop_last() == steps.take(i));
    assert(upto.last() == steps[i]);
    if i == 0 {
        assert(total(steps.take(0)) == 0);
    }
}

/// Steps fall due in the order in which they are written: a later step
/// never before an earlier one, and strictly after it where the steps from
/// the one to the other wait at least a second each.
pub proof fn lemma_due_in_order(steps: Seq<Step>, i: int, j: int)
    requires
        0 <= i <= j < steps.len(),
    ensures
        due(steps, i) <= due(steps, j),
        i < j && (forall|m: int| i < m <= j ==> (#[trigger] steps[m]).seconds > 0) ==> due(
            steps,
            i,
        ) < due(steps, j),
    decreases j - i,
{
    if i < j {
        lemma_due_in_order(steps, i, j - 1);
        lemma_due_adds(steps, j);
    }
}

/// The entry at a second holds the states of the last step that falls due
/// then.
pub proof fn lemma_schedule_last_wins(steps: Seq<Step>, i: int)
    requires
        0 <= i < steps.len(),
        forall|j: int| i < j < steps.len() ==> #[trigger] due(steps, j) != due(steps, i),
    ensures
        schedule(steps).contains_key(due(steps, i)),
        schedule(steps)[due(steps, i)] == steps[i].states,
    decreases steps.len(),
{
    let front = steps.drop_last();
    assert(steps.take(steps.len() as int) == steps);
    if i < steps.len() - 1 {
        assert forall|j: int| 0 <= j < front.len() implies due(front, j) == due(steps, j) by {
            assert(front.take(j + 1) == steps.take(j + 1));
        }
        assert(due(steps, steps.len() - 1) != due(steps, i));
        lemma_schedule_last_wins(front, i);
    }
}

/// A row of pieces fails as its first beginning that fails.
proof fn lemma_read_steps_fails(pieces: Seq<Seq<char>>, k: int)
    requires
        0 <= k <= pieces.len(),
        read_steps(pieces.take(k)) is Err,
    ensures
        read_steps(pieces) == read_steps(pieces.take(k)),
    decreases pieces.len() - k,
{
    if k == pieces.len() {
        assert(pieces.take(k) == pieces);
    } else {
        assert(pieces.take(k + 1).drop_last() == pieces.take(k));
        lemma_read_steps_fails(pieces, k + 1);
    }
}

/// Reads `text[from..to]` as a state list.
fn read_states(text: &Vec<char>, from: usize, to: usize) -> (out: Vec<bool>)
    requires
        from <= to <= text.len(),
    ensures
        out@ == states(text@.subrange(from as int, to as int)),
{
    let ghost list = text@.subrange(from as int, to as int);
    let ghost tokens = split(list, ',');
    let mut out: Vec<bool> = Vec::new();
    let mut at: usize = from;
    loop
        invariant_except_break
            out.len() < tokens.len(),
            tokens.skip(out.len() as int) == split(text@.subrange(at as int, to as int), ','),
        invariant
            from <= at <= to <= text.len(),
            list == text@.subrange(from as int, to as int),
            tokens == split(list, ','),
            forall|i: int| 0 <= i < out.len() ==> out@[i] == is_on(tokens[i]),
        ensures
            out.len() == tokens.len(),
            forall|i: int| 0 <= i < out.len() ==> out@[i] == is_on(tokens[i]),
        decreases to - at,
    {
        let ghost rest = text@.subrange(at as int, to as int);
        let cut: usize = find(text, at, to, ',');
        let on: bool = cut - at == 1 && text[at] == '1';
        proof {
            lemma_split_head(rest, ',');
            assert(tokens[out.len() as int] == tokens.skip(out.len() as int)[0]);
            assert(rest.take(cut - at) == text@.subrange(at as int, cut as int));
            if cut < to {
                assert(rest.skip(cut - at + 1) == text@.subrange(cut + 1, to as int));
                assert(tokens.skip(out.len() as int).skip(1) == tokens.skip(out.len() + 1));
            } else {
                assert(rest.take(cut - at) == rest);
            }
        }
        out.push(on);
        if cut == to {
            break ;
        }
        at = cut + 1;
    }
    assert(out@ == states(list));
    out
}

/// A timeline, and the bank whose pins follow it.
pub struct Dance {
    gpio: GPIO,
    steps: HashMap<usize, Vec<bool>>,
}

impl View for Dance {
    type V = Map<nat, Seq<bool>>;

    /// What falls due when: the pin states, by place in the bank, for each
    /// second of a pass at which something falls due.
    closed spec fn view(&self) -> Map<nat, Seq<bool>> {
        stored(self.steps@)
    }
}

impl Dance {
    /// The numbers of the pins of the timeline's bank, by place.
    pub closed spec fn pins(&self) -> Seq<u64> {
        self.gpio@
    }

    /// The bank has no more pins than the machine's word can count.
    pub proof fn lemma_bank_fits(&self)
        ensures
            self.pins().len() <= usize::MAX,
    {
        self.gpio.lemma_bank_fits();
    }

    /// Reads a timeline and gives it the board's bank.
    ///
    /// The text is read whole or not at all: the first step that cannot be
    /// read fails it, and says at which step and why.
    pub fn new(dance: &str) -> (r: Result<Dance, ParseError>)
        ensures
            match parse(dance@) {
                Ok(steps) => r matches Ok(d) && d@ == schedule(steps) && d.pins() == board(),
                Err(e) => r matches Err(f) && f == e,
            },
    {
        broadcast use vstd::std_specs::hash::group_hash_axioms;

        let text: Vec<char> = chars_of(dance);
        let mut steps: HashMap<usize, Vec<bool>> = HashMap::new();
        assert(stored(steps@) =~= schedule(Seq::empty()));
        if text.len() == 0 {
            return Ok(Dance { gpio: GPIO::new(), steps });
        }
        let ghost pieces = split(text@, ';');
        let ghost mut done: Seq<Step> = Seq::empty();
        let mut elapsed: usize = 0;
        let mut from: usize = 0;
        let mut index: usize = 0;
        assert(text@.subrange(0, text.len() as int) == text@);
        assert(pieces.skip(0) == pieces);
        assert(pieces.take(0) == Seq::<Seq<char>>::empty());
        loop
            invariant_except_break
                index < pieces.len(),
                pieces.skip(index as int) == split(
                    text@.subrange(from as int, text.len() as int),
                    ';',
                ),
                read_steps(pieces.take(index as int)) == Ok::<Seq<Step>, ParseError>(done),
            invariant
                text@ == dance@,
                text.len() > 0,
                index <= from <= text.len(),
                pieces == split(text@, ';'),
                elapsed == total(done),
                stored(steps@) == schedule(done),
            ensures
                read_steps(pieces) == Ok::<Seq<Step>, ParseError>(done),
                stored(steps@) == schedule(done),
            decreases text.len() - from,
        {
            let ghost rest = text@.subrange(from as int, text.len() as int);
            let end: usize = find(&text, from, text.len(), ';');
            let ghost piece = text@.subrange(from as int, end as int);
            proof {
                lemma_split_head(rest, ';');
                assert(pieces[index as int] == pieces.skip(index as int)[0]);
                assert(rest.take(end - from) == piece);
                if end < text.len() {
                    assert(rest.skip(end - from + 1) == text@.subrange(
                        end + 1,
                        text.len() as int,
                    ));
                    assert(pieces.skip(index as int).skip(1) == pieces.skip(index + 1));
                } else {
                    assert(pieces.skip(index as int).len() == 1);
                }
                assert(pieces[index as int] == piece);
                assert(pieces.take(index + 1).drop_last() == pieces.take(index as int));
                assert(pieces.take(index + 1).last() == piece);
            }
            let colon: usize = find(&text, from, end, ':');
            assert(piece.take(colon - from) == text@.subrange(from as int, colon as int));
            let seconds: usize = match read_number(&text, from, colon) {
                Some(seconds) => seconds,
                None => {
                    proof {
                        lemma_read_steps_fails(pieces, index + 1);
                    }
                    return Err(ParseError::BadDuration { step: index });
                },
            };
            if colon == end {
                proof {
                    lemma_read_steps_fails(pieces, index + 1);
                }
                return Err(ParseError::MissingSeparator { step: index });
            }
            assert(piece.skip(colon - from + 1) == text@.subrange(colon + 1, end as int));
            let sum: usize = match elapsed.checked_add(seconds) {
                Some(sum) => sum,
                None => {
                    proof {
                        lemma_read_steps_fails(pieces, index + 1);
                    }
                    return Err(ParseError::Overflow { step: index });
                },
            };
            let states: Vec<bool> = read_states(&text, colon + 1, end);
            proof {
                let step = Step { seconds: seconds as nat, states: states@ };
                assert(read_step(piece, index) == Ok::<Step, ParseError>(step));
                assert(done.push(step).drop_last() == done);
                assert(stored(steps@.insert(sum, states)) =~= stored(steps@).insert(
                    sum as nat,
                    states@,
                ));
                done = done.push(step);
            }
            elapsed = sum;
            steps.insert(elapsed, states);
            if end == text.len() {
                proof {
                    assert(pieces.take(index + 1) == pieces);
                }
                break ;
            }
            from = end + 1;
            index = index + 1;
        }
        Ok(Dance { gpio: GPIO::new(), steps })
    }

    /// The number of seconds at which something falls due.
    pub fn len(&self) -> (count: usize)
        ensures
            self@.dom().finite(),
            count == self@.dom().len(),
    {
        broadcast use vstd::std_specs::hash::group_hash_axioms;

        proof {
            let seconds = self.steps@.dom();
            let widen = |second: usize| second as nat;
            assert(self@.dom() =~= seconds.map(widen)) by {
                assert forall|second: nat| self@.dom().contains(second) implies seconds.map(
                    widen,
                ).contains(second) by {
                    assert(seconds.contains(second as usize) && widen(second as usize) == second);
                }
            }
            seconds.lemma_map_finite(widen);
            vstd::set_lib::lemma_map_size(seconds, self@.dom(), widen);
        }
        self.steps.len()
    }

    /// The pin states that fall due at the second `elapsed`, or `None` if
    /// nothing falls due then.
    pub fn lookup(&self, elapsed: usize) -> (r: Option<&Vec<bool>>)
        ensures
            match r {
                Some(states) => self@.contains_key(elapsed as nat) && states@ == self@[elapsed as nat],
                None => !self@.contains_key(elapsed as nat),
            },
    {
        broadcast use vstd::std_specs::hash::group_hash_axioms;

        self.steps.get(&elapsed)
    }

    /// One step of what comes before the first pass: the bank is
    /// initialised once, then swept once.
    ///
    /// `at` is the point whose call was made and `reply` what came of it;
    /// `None` begins. The answer is the next point and its call, or `None`
    /// when the sweep is complete. A failed call ends the startup.
    pub fn init(&self, at: Option<Startup>, reply: Reply) -> (r: Result<
        Option<(Startup, Action)>,
        HardwareError,
    >)
        ensures
            r == startup_step(self.pins(), startup_next(self.pins(), at, reply)),
    {
        let swept = match at {
            Some(Startup::Sweep(at)) => self.gpio.test(Some(at), reply),
            _ => {
                let begun: Option<InitStage> = match at {
                    Some(Startup::Init(at)) => Some(at),
                    _ => None,
                };
                match self.gpio.init(begun, reply) {
                    Err(e) => {
                        return Err(e);
                    },
                    Ok(Some((at, call))) => {
                        return Ok(Some((Startup::Init(at), call)));
                    },
                    Ok(None) => self.gpio.test(None, reply),
                }
            },
        };
        match swept {
            Err(e) => Err(e),
            Ok(None) => Ok(None),
            Ok(Some((at, call))) => Ok(Some((Startup::Sweep(at), call))),
        }
    }

    /// The call that sets the pin at place `index` as the timeline says for
    /// the second `elapsed`.
    ///
    /// A pass walks the entry that falls due by calling this with `index`
    /// 0, 1, 2 and so on until the answer is `None`: the pins are set in
    /// the order of their places, and the walk fails at the first place
    /// that the bank does not have, after the pins before it were set.
    pub fn step(&self, elapsed: usize, index: usize) -> (r: Result<Option<Action>, IndexError>)
        ensures
            r == step_call(self@, self.pins(), elapsed as nat, index as int),
    {
        match self.lookup(elapsed) {
            None => Ok(None),
            Some(states) => {
                if index < states.len() {
                    match self.gpio.set(index, states[index]) {
                        Ok(call) => Ok(Some(call)),
                        Err(e) => Err(e),
                    }
                } else {
                    Ok(None)
                }
            },
        }
    }
}

/// The characters of a text, in order.
fn chars_of(text: &str) -> (out: Vec<char>)
    ensures
        out@ == text@,
{
    let mut out: Vec<char> = Vec::new();
    for c in it: text.chars()
        invariant
            out@ == it.seq().take(it.index() as int),
            it.seq() == text@,
    {
        out.push(c);
    }
    out
}

} // verus!
