//! Plays an audio file while a bank of output pins follows a scripted
//! timeline, second by second.
//!
//! The library decides; its host acts. Every routine that touches the pins,
//! the clock or the audio output is a step function: it is told how the last
//! call went and answers with the next [`driver::Action`] to perform. The
//! host performs it and reports back with a [`driver::Reply`].

pub mod dance;
pub mod driver;
pub mod error;
pub mod gpio;
pub mod model;
pub mod player;
pub mod text;
