//! A MIDI-driven audio synthesis and mixing engine.
//!
//! A graph of sound-producing and sound-shaping nodes renders interleaved
//! stereo audio at 48 kHz into caller-provided buffers, while note events
//! parsed from a Standard MIDI File are injected at sample-accurate
//! positions.  All audio arithmetic is exact fixed-point arithmetic (see
//! [`units`]); converting samples to and from floating point is left to
//! the embedding application.
use vstd::prelude::*;

pub mod base;
pub mod config;
pub mod envelope;
pub mod error;
pub mod fader;
pub mod laws;
pub mod midi;
pub mod node;
pub mod noise;
pub mod osc;
pub mod pitch;
pub mod null;
pub mod sawtooth;
pub mod sf2;
pub mod smf;
pub mod square;
pub mod triangle;
pub mod types;
pub mod units;
pub mod wav;

verus! {

/// The fixed playback rate, in frames per second.
pub const PLAYBACK_SAMPLE_RATE: usize = 48000;

/// Interleaved stereo: each frame holds two samples.
pub const CHANNEL_COUNT: usize = 2;

/// The customary per-pull buffer size, in frames.
pub const BUFFER_SIZE: usize = 2048;

/// The id a node gets when none is assigned; ids below it are reserved
/// for a graph description's own targeted control.  Every unassigned
/// node shares this one id, so a node that should answer targeted
/// control events alone must be given an id of its own.
pub const DEFAULT_NODE_ID: u64 = 0x10000;

} // verus!
