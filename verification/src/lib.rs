//! A verified core for a terminal music player's audio output engine.
//!
//! * [`sample`] — fixed-point amplitudes and their PCM renderings.
//! * [`source`] — lazily consumed sample sequences with fixed format.
//! * [`convert`] — per-source channel and rate conversion, sample-exact.
//! * [`mixer`] — the dynamic mixer: register, pull, never starve.
//! * [`stream`] — device/format negotiation and stream ownership.
//! * [`progress`] — the progress display model and its decisions.
//! * [`app`] — the application shell's state and loop decisions.
//!
//! Terminal rendering and the real hardware callback live outside this
//! crate; the engine here works on plain values and is specified
//! sample-for-sample.

pub mod app;
pub mod convert;
pub mod mixer;
pub mod progress;
pub mod sample;
pub mod source;
pub mod stream;
