use std::collections::HashMap;

use pyramid_player::driver::{Action, Direction, Reply};
use pyramid_player::error::{DeviceNotFoundError, HardwareError, IndexError, ParseError, SessionError};
use pyramid_player::player::{select_device, Player};

/// The state of one simulated pin.
#[derive(Clone, Copy, Debug, PartialEq, Eq)]
struct Line {
    exported: bool,
    direction: Direction,
    level: u8,
}

/// A simulated host: pins, a clock that only sleeping moves, and an audio
/// output that reports the end of a stream once more seconds have passed
/// since its start than the stream is long.
struct Host {
    lines: HashMap<u64, Line>,
    clock: u64,
    stream_seconds: u64,
    started: Option<u64>,
    log: Vec<(u64, Action)>,
    fail: Option<Action>,
}

impl Host {
    fn new(stream_seconds: u64) -> Host {
        Host {
            lines: HashMap::new(),
            clock: 0,
            stream_seconds,
            started: None,
            log: Vec::new(),
            fail: None,
        }
    }

    fn line(&mut self, pin: u64) -> &mut Line {
        self.lines.entry(pin).or_insert(Line {
            exported: false,
            direction: Direction::In,
            level: 0,
        })
    }

    fn perform(&mut self, call: Action) -> Reply {
        self.log.push((self.clock, call));
        if self.fail == Some(call) {
            return Reply::Failed;
        }
        match call {
            Action::IsExported { pin } => Reply::Exported(self.line(pin).exported),
            Action::Export { pin } => {
                self.line(pin).exported = true;
                Reply::Done
            }
            Action::GetDirection { pin } => Reply::Direction(self.line(pin).direction),
            Action::SetDirection { pin, direction } => {
                self.line(pin).direction = direction;
                Reply::Done
            }
            Action::GetValue { pin } => Reply::Value(self.line(pin).level),
            Action::SetValue { pin, level } => {
                self.line(pin).level = level;
                Reply::Done
            }
            Action::Sleep { seconds } => {
                self.clock += seconds;
                Reply::Done
            }
            Action::Play => {
                self.started = Some(self.clock);
                Reply::Done
            }
            Action::IsFinished => {
                Reply::Finished(self.clock - self.started.unwrap() > self.stream_seconds)
            }
            Action::WaitUntilFinished => Reply::Done,
        }
    }

    /// Runs the session until it is over, it fails, or `most` calls were made.
    fn run(&mut self, player: &mut Player, most: usize) -> Result<bool, SessionError> {
        let mut reply = Reply::Done;
        for _ in 0..most {
            match player.advance(reply)? {
                Some(call) => reply = self.perform(call),
                None => return Ok(true),
            }
        }
        Ok(false)
    }

    fn calls(&self) -> Vec<Action> {
        self.log.iter().map(|entry| entry.1).collect()
    }

    /// The clock at each start of the audio.
    fn starts(&self) -> Vec<u64> {
        self.log.iter().filter(|entry| entry.1 == Action::Play).map(|entry| entry.0).collect()
    }

    /// The pin writes made after the audio first started, each with the
    /// seconds since the start before it.
    fn dance(&self) -> Vec<(u64, Action)> {
        let mut started: Option<u64> = None;
        let mut writes = Vec::new();
        for (clock, call) in &self.log {
            match call {
                Action::Play => started = Some(*clock),
                Action::SetValue { .. } | Action::SetDirection { .. } | Action::Export { .. } => {
                    if let Some(start) = started {
                        writes.push((*clock - start, *call));
                    }
                }
                _ => {}
            }
        }
        writes
    }
}

fn is_pin_call(call: &Action) -> bool {
    !matches!(
        call,
        Action::Sleep { .. } | Action::Play | Action::IsFinished | Action::WaitUntilFinished
    )
}

#[test]
fn a_pass_sets_the_pins_at_the_seconds_of_the_timeline() {
    let mut player = Player::new(Some("2:1;3:0"), None).unwrap();
    let mut host = Host::new(5);
    assert_eq!(host.run(&mut player, 1000), Ok(true));
    assert_eq!(
        host.dance(),
        vec![
            (2, Action::SetValue { pin: 11, level: 1 }),
            (5, Action::SetValue { pin: 11, level: 0 }),
        ]
    );
    assert_eq!(host.lines[&11].level, 0);
}

#[test]
fn a_pass_makes_its_calls_in_order() {
    let mut player = Player::new(Some("1:0,1"), None).unwrap();
    let mut host = Host::new(1);
    assert_eq!(host.run(&mut player, 1000), Ok(true));
    let calls = host.calls();
    let play = calls.iter().position(|call| *call == Action::Play).unwrap();
    assert_eq!(play, 48 + 24);
    assert_eq!(
        calls[play..],
        [
            Action::Play,
            Action::IsFinished,
            Action::Sleep { seconds: 1 },
            Action::IsFinished,
            Action::SetValue { pin: 11, level: 0 },
            Action::SetValue { pin: 12, level: 1 },
            Action::Sleep { seconds: 1 },
            Action::IsFinished,
            Action::WaitUntilFinished,
        ]
    );
}

#[test]
fn the_startup_comes_once_before_the_first_pass() {
    let mut player = Player::new(Some("1:1"), Some(2)).unwrap();
    let mut host = Host::new(1);
    assert_eq!(host.run(&mut player, 200), Ok(false));
    let calls = host.calls();
    let play = calls.iter().position(|call| *call == Action::Play).unwrap();
    assert_eq!(play, 72);
    assert_eq!(calls[0], Action::IsExported { pin: 11 });
    assert_eq!(calls[48], Action::SetValue { pin: 11, level: 0 });
    assert_eq!(calls[49], Action::Sleep { seconds: 1 });
    assert_eq!(calls[50], Action::SetValue { pin: 11, level: 1 });
    assert_eq!(calls[71], Action::SetValue { pin: 18, level: 1 });
    assert!(host.starts().len() >= 2);
    let asked = calls[play..].iter().filter(|call| matches!(call, Action::IsExported { .. }));
    assert_eq!(asked.count(), 0);
}

#[test]
fn without_a_delay_exactly_one_pass_runs() {
    let mut player = Player::new(Some("1:1"), None).unwrap();
    let mut host = Host::new(3);
    assert_eq!(host.run(&mut player, 1000), Ok(true));
    assert_eq!(host.starts().len(), 1);
    assert_eq!(host.calls().last(), Some(&Action::WaitUntilFinished));
    for reply in [Reply::Done, Reply::Failed, Reply::Finished(false)] {
        assert_eq!(player.advance(reply), Ok(None));
    }
}

#[test]
fn with_a_delay_passes_repeat_after_the_delay() {
    let mut player = Player::new(Some("1:1"), Some(3)).unwrap();
    let mut host = Host::new(2);
    assert_eq!(host.run(&mut player, 300), Ok(false));
    let starts = host.starts();
    assert!(starts.len() >= 2);
    let waits: Vec<u64> = host
        .log
        .iter()
        .filter(|entry| entry.1 == Action::WaitUntilFinished)
        .map(|entry| entry.0)
        .collect();
    for (pass, wait) in waits.iter().enumerate() {
        if pass + 1 < starts.len() {
            assert_eq!(starts[pass + 1] - wait, 3);
        }
    }
    let calls = host.calls();
    for (at, call) in calls.iter().enumerate() {
        if *call == Action::WaitUntilFinished && at + 2 < calls.len() {
            assert_eq!(calls[at + 1], Action::Sleep { seconds: 3 });
            assert_eq!(calls[at + 2], Action::Play);
        }
    }
}

#[test]
fn a_delay_of_no_seconds_still_repeats() {
    let mut player = Player::new(None, Some(0)).unwrap();
    let mut host = Host::new(0);
    assert_eq!(host.run(&mut player, 100), Ok(false));
    assert!(host.starts().len() >= 2);
}

#[test]
fn every_pass_counts_its_seconds_from_nought() {
    let mut player = Player::new(Some("1:1;1:0"), Some(5)).unwrap();
    let mut host = Host::new(2);
    assert_eq!(host.run(&mut player, 200), Ok(false));
    let starts = host.starts();
    assert!(starts.len() >= 3);
    let mut expected = Vec::new();
    for start in &starts[..2] {
        expected.push((start + 1, Action::SetValue { pin: 11, level: 1 }));
        expected.push((start + 2, Action::SetValue { pin: 11, level: 0 }));
    }
    let plays: Vec<usize> = host
        .log
        .iter()
        .enumerate()
        .filter(|(_, entry)| entry.1 == Action::Play)
        .map(|(at, _)| at)
        .collect();
    let writes: Vec<(u64, Action)> = host.log[plays[0]..plays[2]]
        .iter()
        .copied()
        .filter(|entry| is_pin_call(&entry.1))
        .collect();
    assert_eq!(writes, expected);
}

#[test]
fn without_a_timeline_no_pin_is_touched() {
    let mut player = Player::new(None, None).unwrap();
    let mut host = Host::new(2);
    assert_eq!(host.run(&mut player, 1000), Ok(true));
    assert_eq!(
        host.calls(),
        vec![
            Action::Play,
            Action::IsFinished,
            Action::Sleep { seconds: 1 },
            Action::IsFinished,
            Action::Sleep { seconds: 1 },
            Action::IsFinished,
            Action::Sleep { seconds: 1 },
            Action::IsFinished,
            Action::WaitUntilFinished,
        ]
    );
    assert!(host.lines.is_empty());
}

#[test]
fn an_empty_timeline_starts_the_bank_up_and_then_sets_nothing() {
    let mut player = Player::new(Some(""), None).unwrap();
    let mut host = Host::new(2);
    assert_eq!(host.run(&mut player, 1000), Ok(true));
    assert_eq!(host.calls().iter().filter(|call| is_pin_call(call)).count(), 48 + 16);
    assert_eq!(host.dance(), vec![]);
}

#[test]
fn a_step_past_the_end_of_the_audio_never_falls_due() {
    let mut player = Player::new(Some("1:0;100:1"), None).unwrap();
    let mut host = Host::new(3);
    assert_eq!(host.run(&mut player, 1000), Ok(true));
    assert_eq!(host.dance(), vec![(1, Action::SetValue { pin: 11, level: 0 })]);
}

#[test]
fn any_answer_but_not_finished_ends_the_ticking() {
    for reply in [Reply::Finished(true), Reply::Done, Reply::Failed, Reply::Value(0)] {
        let mut player = Player::new(None, None).unwrap();
        assert_eq!(player.advance(Reply::Done), Ok(Some(Action::Play)));
        assert_eq!(player.advance(Reply::Done), Ok(Some(Action::IsFinished)));
        assert_eq!(player.advance(reply), Ok(Some(Action::WaitUntilFinished)));
        assert_eq!(player.advance(Reply::Done), Ok(None));
    }
}

#[test]
fn a_bad_timeline_fails_before_anything_is_asked_for() {
    assert_eq!(
        Player::new(Some("2:1;x"), None).err(),
        Some(ParseError::BadDuration { step: 1 })
    );
    assert_eq!(
        Player::new(Some("2:1;3"), Some(1)).err(),
        Some(ParseError::MissingSeparator { step: 1 })
    );
}

#[test]
fn audio_that_does_not_start_fails_the_session() {
    let mut player = Player::new(None, Some(1)).unwrap();
    let mut host = Host::new(2);
    host.fail = Some(Action::Play);
    assert_eq!(host.run(&mut player, 1000), Err(SessionError::Decode));
    assert_eq!(host.calls(), vec![Action::Play]);
    assert_eq!(player.advance(Reply::Done), Ok(None));
}

#[test]
fn audio_that_does_not_start_fails_after_the_startup() {
    let mut player = Player::new(Some("1:1"), None).unwrap();
    let mut host = Host::new(2);
    host.fail = Some(Action::Play);
    assert_eq!(host.run(&mut player, 1000), Err(SessionError::Decode));
    assert_eq!(host.calls().len(), 73);
    assert_eq!(host.dance(), vec![]);
}

#[test]
fn a_failed_pin_call_fails_the_startup() {
    let mut player = Player::new(Some("1:1"), None).unwrap();
    let mut host = Host::new(2);
    host.fail = Some(Action::Export { pin: 13 });
    assert_eq!(host.run(&mut player, 1000), Err(SessionError::Hardware(HardwareError)));
    assert_eq!(host.calls().last(), Some(&Action::Export { pin: 13 }));
    assert_eq!(host.starts(), vec![]);
    assert_eq!(player.advance(Reply::Done), Ok(None));
}

#[test]
fn a_failed_pin_write_fails_the_pass_at_once() {
    let mut player = Player::new(Some("1:0,0,0"), None).unwrap();
    let mut host = Host::new(4);
    host.fail = Some(Action::SetValue { pin: 12, level: 0 });
    assert_eq!(host.run(&mut player, 1000), Err(SessionError::Hardware(HardwareError)));
    assert_eq!(host.starts().len(), 0);

    let mut player = Player::new(Some("1:1,0,1"), None).unwrap();
    let mut host = Host::new(4);
    host.fail = Some(Action::SetDirection { pin: 99, direction: Direction::Out });
    let mut reply = Reply::Done;
    let mut writes = Vec::new();
    let result = loop {
        match player.advance(reply) {
            Ok(Some(call)) => {
                let dancing = host.started.is_some();
                reply = host.perform(call);
                if dancing && matches!(call, Action::SetValue { .. }) {
                    writes.push(call);
                    if call == (Action::SetValue { pin: 12, level: 0 }) {
                        reply = Reply::Failed;
                    }
                }
            }
            other => break other,
        }
    };
    assert_eq!(result, Err(SessionError::Hardware(HardwareError)));
    assert_eq!(
        writes,
        vec![Action::SetValue { pin: 11, level: 1 }, Action::SetValue { pin: 12, level: 0 }]
    );
    assert_eq!(player.advance(Reply::Done), Ok(None));
}

#[test]
fn a_step_with_more_states_than_pins_fails_after_the_pins_are_set() {
    let mut player = Player::new(Some("1:0,0,0,0,0,0,0,0,1"), None).unwrap();
    let mut host = Host::new(4);
    assert_eq!(
        host.run(&mut player, 1000),
        Err(SessionError::Index(IndexError { index: 8, count: 8 }))
    );
    let writes = host.dance();
    assert_eq!(writes.len(), 8);
    for (place, write) in writes.iter().enumerate() {
        assert_eq!(*write, (1, Action::SetValue { pin: 11 + place as u64, level: 0 }));
    }
    assert_eq!(player.advance(Reply::Done), Ok(None));
}

#[test]
fn no_wanted_name_picks_the_default_device() {
    let names = vec!["front".to_string(), "rear".to_string()];
    assert_eq!(select_device(&names, None), Ok(None));
    assert_eq!(select_device(&Vec::new(), None), Ok(None));
}

#[test]
fn a_wanted_name_picks_the_first_device_of_that_name() {
    let names = vec![
        "front".to_string(),
        "rear".to_string(),
        "side".to_string(),
        "rear".to_string(),
    ];
    assert_eq!(select_device(&names, Some("front")), Ok(Some(0)));
    assert_eq!(select_device(&names, Some("rear")), Ok(Some(1)));
    assert_eq!(select_device(&names, Some("side")), Ok(Some(2)));
}

#[test]
fn a_name_that_no_device_has_is_not_found() {
    let names = vec!["front".to_string(), "rear".to_string()];
    assert_eq!(select_device(&names, Some("Front")), Err(DeviceNotFoundError));
    assert_eq!(select_device(&names, Some("fron")), Err(DeviceNotFoundError));
    assert_eq!(select_device(&names, Some("front ")), Err(DeviceNotFoundError));
    assert_eq!(select_device(&names, Some("")), Err(DeviceNotFoundError));
    assert_eq!(select_device(&Vec::new(), Some("front")), Err(DeviceNotFoundError));
}

#[test]
fn the_empty_name_is_a_name_like_any_other() {
    let names = vec!["front".to_string(), String::new()];
    assert_eq!(select_device(&names, Some("")), Ok(Some(1)));
}
