//! A session: the startup of the pin bank, then one pass after another.
//!
//! A pass starts the audio and then, once a second for as long as the audio
//! output says that it is still playing, sets the pins that the timeline
//! names for that second. It ends by waiting for the audio to end. The
//! seconds are counted by the ticks of the pass, not read off the audio.

use vstd::prelude::*;
use crate::dance::{parse, schedule, startup_call, startup_next, step_call, Dance, Startup};
use crate::driver::{Action, Reply};
use crate::error::{DeviceNotFoundError, HardwareError, ParseError, SessionError};
use crate::gpio::{board, level_of};

verus! {

/// The seconds between two looks at the timeline.
pub const TICK_SECONDS: u64 = 1;

/// What a session plays: the timeline, if it has one, with the pins of its
/// bank, and the seconds to wait between two passes, if it repeats.
pub struct Script {
    pub timeline: Option<Map<nat, Seq<bool>>>,
    pub pins: Seq<u64>,
    pub repeat_delay: Option<u64>,
}

/// Where a session stands: the call that is in flight.
///
/// A pass counts its seconds in `elapsed`; `None` is a second past the
/// last that a timeline can name.
#[derive(Clone, Copy, Debug, PartialEq, Eq)]
pub enum Stage {
    /// Nothing was asked for yet.
    Begin,
    /// The bank is being initialised or swept.
    Startup(Startup),
    /// The audio is being started.
    Play,
    /// The audio output is being asked whether it has finished.
    Poll { elapsed: Option<usize> },
    /// The pin at place `index` is being set as the timeline says for the
    /// second `second`.
    Apply { second: usize, index: usize },
    /// The pass is sleeping out the second `elapsed`.
    Tick { elapsed: Option<usize> },
    /// The pass is waiting for the audio to end.
    Drain,
    /// The session is sleeping between two passes.
    Gap,
    /// The session is over.
    Finished,
}

/// The second that follows `elapsed`.
pub open spec fn following(elapsed: Option<usize>) -> Option<usize> {
    match elapsed {
        Some(second) => if second < usize::MAX {
            Some((second + 1) as usize)
        } else {
            None
        },
        None => None,
    }
}

/// Where a pass stands when, at the second `elapsed`, it turns to place
/// `index` of what falls due: setting that pin if there is such a place,
/// sleeping out the second if there is not.
pub open spec fn walk(script: Script, elapsed: Option<usize>, index: int) -> Result<
    Stage,
    SessionError,
> {
    match (script.timeline, elapsed) {
        (Some(timeline), Some(second)) => match step_call(
            timeline,
            script.pins,
            second as nat,
            index,
        ) {
            Err(e) => Err(SessionError::Index(e)),
            Ok(Some(_)) => Ok(Stage::Apply { second, index: index as usize }),
            Ok(None) => Ok(Stage::Tick { elapsed }),
        },
        _ => Ok(Stage::Tick { elapsed }),
    }
}

/// Where a session stands when the startup has come to `next`: the first
/// pass begins when the startup is complete.
pub open spec fn enter(next: Result<Option<Startup>, HardwareError>) -> Result<Stage, SessionError> {
    match next {
        Err(e) => Err(SessionError::Hardware(e)),
        Ok(Some(at)) => Ok(Stage::Startup(at)),
        Ok(None) => Ok(Stage::Play),
    }
}

/// The stage that follows `stage` once `reply` has come to its call.
///
/// - A session with a timeline starts up its bank before the first pass; one
///   without goes straight to the pass and never touches a pin.
/// - The audio must be reported started, or the session fails.
/// - A pass goes on ticking only while the audio output answers that it has
///   not finished; on any other answer it waits for the audio to end.
/// - A pin write must be reported done, or the session fails.
/// - After a pass a session that repeats sleeps and starts the next pass;
///   one that does not is over.
pub open spec fn next_stage(script: Script, stage: Stage, reply: Reply) -> Result<
    Stage,
    SessionError,
> {
    match stage {
        Stage::Begin => if script.timeline is Some {
            enter(startup_next(script.pins, None, reply))
        } else {
            Ok(Stage::Play)
        },
        Stage::Startup(at) => enter(startup_next(script.pins, Some(at), reply)),
        Stage::Play => if reply is Done {
            Ok(Stage::Poll { elapsed: Some(0) })
        } else {
            Err(SessionError::Decode)
        },
        Stage::Poll { elapsed } => if reply == Reply::Finished(false) {
            walk(script, elapsed, 0)
        } else {
            Ok(Stage::Drain)
        },
        Stage::Apply { second, index } => if reply is Done {
            walk(script, Some(second), index + 1)
        } else {
            Err(SessionError::Hardware(HardwareError))
        },
        Stage::Tick { elapsed } => Ok(Stage::Poll { elapsed: following(elapsed) }),
        Stage::Drain => if script.repeat_delay is Some {
            Ok(Stage::Gap)
        } else {
            Ok(Stage::Finished)
        },
        Stage::Gap => Ok(Stage::Play),
        Stage::Finished => Ok(Stage::Finished),
    }
}

/// The call that stands for a stage.
pub open spec fn call_of(script: Script, stage: Stage) -> Option<Action> {
    match stage {
        Stage::Begin => None,
        Stage::Startup(at) => Some(startup_call(script.pins, at)),
        Stage::Play => Some(Action::Play),
        Stage::Poll { .. } => Some(Action::IsFinished),
        Stage::Apply { second, index } => match script.timeline {
            Some(timeline) => match step_call(timeline, script.pins, second as nat, index as int) {
                Ok(call) => call,
                Err(_) => None,
            },
            None => None,
        },
        Stage::Tick { .. } => Some(Action::Sleep { seconds: TICK_SECONDS }),
        Stage::Drain => Some(Action::WaitUntilFinished),
        Stage::Gap => match script.repeat_delay {
            Some(seconds) => Some(Action::Sleep { seconds }),
            None => None,
        },
        Stage::Finished => None,
    }
}

/// Whether a session of `script` can stand at `stage`.
pub open spec fn fits(script: Script, stage: Stage) -> bool {
    match stage {
        Stage::Startup(Startup::Init(at)) => script.timeline is Some && at.pin < script.pins.len(),
        Stage::Startup(Startup::Sweep(at)) => script.timeline is Some && at.pin < script.pins.len(),
        Stage::Apply { second, index } => script.timeline matches Some(timeline) && step_call(
            timeline,
            script.pins,
            second as nat,
            index as int,
        ) matches Ok(Some(_)),
        Stage::Gap => script.repeat_delay is Some,
        _ => true,
    }
}

/// A session stays where it can stand, and there it has a call to make
/// until it is over.
pub proof fn lemma_session_goes_on(script: Script, stage: Stage, reply: Reply)
    requires
        fits(script, stage),
    ensures
        next_stage(script, stage, reply) matches Ok(next) ==> fits(script, next) && !(next is Begin)
            && (call_of(script, next) is None <==> next is Finished),
{
}

/// At a second for which the timeline has no entry a pass sets no pin: it
/// sleeps the second out. So does a pass without a timeline, at every
/// second.
pub proof fn lemma_quiet_second(script: Script, elapsed: Option<usize>)
    requires
        match (script.timeline, elapsed) {
            (Some(timeline), Some(second)) => !timeline.contains_key(second as nat),
            _ => true,
        },
    ensures
        next_stage(script, Stage::Poll { elapsed }, Reply::Finished(false)) == Ok::<
            Stage,
            SessionError,
        >(Stage::Tick { elapsed }),
        call_of(script, Stage::Tick { elapsed }) == Some(Action::Sleep { seconds: TICK_SECONDS }),
{
}

/// At a second for which the timeline has an entry a pass sets the pins
/// that the entry names, in the order of their places: each high where the
/// entry says on and low where it says off, the first as soon as the audio
/// is found still playing, each other as soon as the one before it is
/// reported done, and after the last the pass sleeps the second out.
pub proof fn lemma_due_second(script: Script, second: usize, index: int)
    requires
        script.timeline matches Some(timeline) && timeline.contains_key(second as nat) && 0
            <= index < timeline[second as nat].len() <= script.pins.len() <= usize::MAX,
    ensures
        ({
            let entry = script.timeline->0[second as nat];
            let at = Stage::Apply { second, index: index as usize };
            &&& index == 0 ==> next_stage(
                script,
                Stage::Poll { elapsed: Some(second) },
                Reply::Finished(false),
            ) == Ok::<Stage, SessionError>(at)
            &&& call_of(script, at) == Some(
                Action::SetValue { pin: script.pins[index], level: level_of(entry[index]) },
            )
            &&& next_stage(script, at, Reply::Done) == Ok::<Stage, SessionError>(
                if index + 1 < entry.len() {
                    Stage::Apply { second, index: (index + 1) as usize }
                } else {
                    Stage::Tick { elapsed: Some(second) }
                },
            )
        }),
{
}

/// How far a stage is along a session that plays a single pass.
pub open spec fn course(stage: Stage) -> nat {
    match stage {
        Stage::Begin => 0,
        Stage::Startup(_) => 1,
        Stage::Play => 2,
        Stage::Poll { .. } | Stage::Apply { .. } | Stage::Tick { .. } => 3,
        Stage::Drain | Stage::Gap => 4,
        Stage::Finished => 5,
    }
}

/// The bank is started up once, before the first pass and at no other
/// time: a session with a timeline turns to it first of all, and a session
/// that has left the startup never comes back to it.
pub proof fn lemma_starts_up_once(script: Script, stage: Stage, reply: Reply)
    ensures
        next_stage(script, stage, reply) matches Ok(Stage::Startup(_)) ==> stage is Begin
            || stage is Startup,
        next_stage(script, stage, reply) matches Ok(Stage::Play) ==> stage is Begin
            || stage is Startup || stage is Gap,
        stage is Begin && script.timeline is Some && script.pins.len() > 0 ==> next_stage(
            script,
            stage,
            reply,
        ) matches Ok(Stage::Startup(_)),
{
}

/// A session that does not repeat plays one pass. It never goes back: the
/// audio is started from the startup, or from the beginning where there is
/// none, and from nowhere else, so it is started once at most. Once the
/// pass has waited for the audio to end the session is over, and being
/// over it asks for nothing more, whatever it is told.
pub proof fn lemma_plays_once(script: Script, stage: Stage, reply: Reply)
    requires
        script.repeat_delay is None,
        fits(script, stage),
    ensures
        next_stage(script, stage, reply) matches Ok(next) ==> course(stage) <= course(next) && (
        next is Play ==> course(stage) < course(next)),
        next_stage(script, Stage::Drain, reply) == Ok::<Stage, SessionError>(Stage::Finished),
        next_stage(script, Stage::Finished, reply) == Ok::<Stage, SessionError>(Stage::Finished),
        call_of(script, Stage::Finished) is None,
{
}

/// A session that repeats plays pass after pass: once a pass has waited for
/// the audio to end the session sleeps for the seconds of its delay, and
/// only then starts the audio again. It is never over.
pub proof fn lemma_plays_again(script: Script, seconds: u64, reply: Reply, woken: Reply)
    requires
        script.repeat_delay == Some(seconds),
    ensures
        next_stage(script, Stage::Drain, reply) == Ok::<Stage, SessionError>(Stage::Gap),
        call_of(script, Stage::Gap) == Some(Action::Sleep { seconds }),
        next_stage(script, Stage::Gap, woken) == Ok::<Stage, SessionError>(Stage::Play),
        call_of(script, Stage::Play) == Some(Action::Play),
        forall|stage: Stage, told: Reply|
            !(stage is Finished) ==> !(#[trigger] next_stage(script, stage, told) matches Ok(
                Stage::Finished,
            )),
{
}

/// Picks the output device to play on: the first of `names` that is
/// `wanted`, letter for letter. `Ok(None)` stands for the system's default
/// device, which is picked where no name is wanted.
pub fn select_device(names: &Vec<String>, wanted: Option<&str>) -> (r: Result<
    Option<usize>,
    DeviceNotFoundError,
>)
    ensures
        match wanted {
            None => r == Ok::<Option<usize>, DeviceNotFoundError>(None),
            Some(name) => match r {
                Ok(Some(i)) => i < names.len() && names[i as int]@ == name@ && forall|j: int|
                    0 <= j < i ==> names[j]@ != name@,
                Ok(None) => false,
                Err(_) => forall|j: int| 0 <= j < names.len() ==> names[j]@ != name@,
            },
        },
{
    match wanted {
        None => Ok(None),
        Some(name) => {
            let sought: String = name.to_owned();
            let mut i: usize = 0;
            while i < names.len()
                invariant
                    i <= names.len(),
                    wanted == Some(name),
                    sought@ == name@,
                    forall|j: int| 0 <= j < i ==> names[j]@ != name@,
                decreases names.len() - i,
            {
                if names[i] == sought {
                    return Ok(Some(i));
                }
                i += 1;
            }
            Err(DeviceNotFoundError)
        },
    }
}

/// A session in progress.
pub struct Player {
    dance: Option<Dance>,
    repeat_delay: Option<u64>,
    stage: Stage,
}

impl Player {
    /// What the session plays.
    pub closed spec fn script(&self) -> Script {
        Script {
            timeline: match self.dance {
                Some(dance) => Some(dance@),
                None => None,
            },
            pins: match self.dance {
                Some(dance) => dance.pins(),
                None => Seq::empty(),
            },
            repeat_delay: self.repeat_delay,
        }
    }

    /// Where the session stands.
    pub closed spec fn stage(&self) -> Stage {
        self.stage
    }

    /// A session only ever stands where its script lets it.
    #[verifier::type_invariant]
    spec fn wf(&self) -> bool {
        fits(self.script(), self.stage)
    }

    /// The session's bank has no more pins than the machine's word can
    /// count.
    proof fn lemma_bank_fits(&self)
        ensures
            self.script().pins.len() <= usize::MAX,
    {
        if let Some(dance) = self.dance {
            dance.lemma_bank_fits();
        }
    }

    /// A session that has not begun. With a timeline text it has the
    /// board's bank follow that timeline; without one it only plays. With a
    /// delay it repeats its pass for ever, waiting so many seconds after
    /// each; without one it plays a single pass.
    pub fn new(timeline: Option<&str>, repeat_delay: Option<u64>) -> (r: Result<Player, ParseError>)
        ensures
            match timeline {
                None => r matches Ok(player) && player.stage() == Stage::Begin && player.script()
                    == (Script { timeline: None, pins: Seq::empty(), repeat_delay }),
                Some(text) => match parse(text@) {
                    Ok(steps) => r matches Ok(player) && player.stage() == Stage::Begin
                        && player.script() == (Script {
                        timeline: Some(schedule(steps)),
                        pins: board(),
                        repeat_delay,
                    }),
                    Err(e) => r matches Err(f) && f == e,
                },
            },
    {
        let dance: Option<Dance> = match timeline {
            None => None,
            Some(text) => match Dance::new(text) {
                Ok(dance) => Some(dance),
                Err(e) => {
                    return Err(e);
                },
            },
        };
        Ok(Player { dance, repeat_delay, stage: Stage::Begin })
    }

    /// Takes the host's report of the call it was last asked to make, and
    /// answers with the next call, or `None` when the session is over.
    ///
    /// The first report, before any call was asked for, can be anything. A
    /// session that fails is over.
    pub fn advance(&mut self, reply: Reply) -> (r: Result<Option<Action>, SessionError>)
        ensures
            final(self).script() == old(self).script(),
            match next_stage(old(self).script(), old(self).stage(), reply) {
                Ok(stage) => final(self).stage() == stage && r == Ok::<
                    Option<Action>,
                    SessionError,
                >(call_of(old(self).script(), stage)),
                Err(e) => final(self).stage() == Stage::Finished && r == Err::<
                    Option<Action>,
                    SessionError,
                >(e),
            },
            r == Ok::<Option<Action>, SessionError>(None) <==> r is Ok && final(self).stage()
                == Stage::Finished,
    {
        proof {
            use_type_invariant(&*self);
            lemma_session_goes_on(self.script(), self.stage, reply);
        }
        let (stage, call): (Stage, Option<Action>) = match self.turn(reply) {
            Ok(next) => next,
            Err(e) => {
                self.stage = Stage::Finished;
                return Err(e);
            },
        };
        self.stage = stage;
        Ok(call)
    }

    /// The stage that follows the one the session stands at, with its call.
    fn turn(&self, reply: Reply) -> (r: Result<(Stage, Option<Action>), SessionError>)
        requires
            fits(self.script(), self.stage()),
        ensures
            match next_stage(self.script(), self.stage(), reply) {
                Ok(stage) => r == Ok::<(Stage, Option<Action>), SessionError>(
                    (stage, call_of(self.script(), stage)),
                ),
                Err(e) => r == Err::<(Stage, Option<Action>), SessionError>(e),
            },
    {
        match self.stage {
            Stage::Begin => self.start_up(None, reply),
            Stage::Startup(at) => self.start_up(Some(at), reply),
            Stage::Play => match reply {
                Reply::Done => Ok((Stage::Poll { elapsed: Some(0) }, Some(Action::IsFinished))),
                _ => Err(SessionError::Decode),
            },
            Stage::Poll { elapsed } => match reply {
                Reply::Finished(false) => self.walk_to(elapsed, 0),
                _ => Ok((Stage::Drain, Some(Action::WaitUntilFinished))),
            },
            Stage::Apply { second, index } => match reply {
                Reply::Done => {
                    proof {
                        self.lemma_bank_fits();
                    }
                    self.walk_to(Some(second), index + 1)
                },
                _ => Err(SessionError::Hardware(HardwareError)),
            },
            Stage::Tick { elapsed } => {
                let elapsed: Option<usize> = match elapsed {
                    Some(second) => second.checked_add(1),
                    None => None,
                };
                Ok((Stage::Poll { elapsed }, Some(Action::IsFinished)))
            },
            Stage::Drain => match self.repeat_delay {
                Some(seconds) => Ok((Stage::Gap, Some(Action::Sleep { seconds }))),
                None => Ok((Stage::Finished, None)),
            },
            Stage::Gap => Ok((Stage::Play, Some(Action::Play))),
            Stage::Finished => Ok((Stage::Finished, None)),
        }
    }

    /// The stage that follows the point `at` of the startup, with its call.
    fn start_up(&self, at: Option<Startup>, reply: Reply) -> (r: Result<
        (Stage, Option<Action>),
        SessionError,
    >)
        ensures
            match (if self.script().timeline is Some {
                enter(startup_next(self.script().pins, at, reply))
            } else {
                Ok(Stage::Play)
            }) {
                Ok(stage) => r == Ok::<(Stage, Option<Action>), SessionError>(
                    (stage, call_of(self.script(), stage)),
                ),
                Err(e) => r == Err::<(Stage, Option<Action>), SessionError>(e),
            },
    {
        match &self.dance {
            None => Ok((Stage::Play, Some(Action::Play))),
            Some(dance) => match dance.init(at, reply) {
                Err(e) => Err(SessionError::Hardware(e)),
                Ok(Some((at, call))) => Ok((Stage::Startup(at), Some(call))),
                Ok(None) => Ok((Stage::Play, Some(Action::Play))),
            },
        }
    }

    /// The stage of a pass that turns, at the second `elapsed`, to place
    /// `index` of what falls due, with its call.
    fn walk_to(&self, elapsed: Option<usize>, index: usize) -> (r: Result<
        (Stage, Option<Action>),
        SessionError,
    >)
        ensures
            match walk(self.script(), elapsed, index as int) {
                Ok(stage) => r == Ok::<(Stage, Option<Action>), SessionError>(
                    (stage, call_of(self.script(), stage)),
                ),
                Err(e) => r == Err::<(Stage, Option<Action>), SessionError>(e),
            },
    {
        let sleep: (Stage, Option<Action>) = (
            Stage::Tick { elapsed },
            Some(Action::Sleep { seconds: TICK_SECONDS }),
        );
        match (&self.dance, elapsed) {
            (Some(dance), Some(second)) => match dance.step(second, index) {
                Err(e) => Err(SessionError::Index(e)),
                Ok(Some(call)) => Ok((Stage::Apply { second, index }, Some(call))),
                Ok(None) => Ok(sleep),
            },
            _ => Ok(sleep),
        }
    }
}

} // verus!
