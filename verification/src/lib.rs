//! The engine room of a multitrack audio workstation: recorded clips, the
//! arrangement of blocks on tracks, the schedule compiled from it, the ring
//! that carries input samples to the output side, and the per-sample state
//! machine of the audio engine.
//!
//! Sample values, tempo and volume are real numbers. This crate stores and
//! moves them as bit patterns and never does arithmetic on them: whoever drives
//! the engine computes with them and hands back integers and booleans.

pub mod arrangement;
pub mod audio;
pub mod audio_clip;
pub mod audio_source;
pub mod block;
pub mod history;
pub mod ring;
pub mod schedule;
pub mod track;
