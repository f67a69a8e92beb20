//! Subtitle-to-speech synchronization: subtitle parsing into timed cues, a
//! playhead that reconciles cue timing against synthesized speech duration,
//! and codec-valid silence generation.
//!
//! All times are whole milliseconds.

pub mod text;
pub mod timestamp;
pub mod silence;
pub mod probe;
pub mod subtitle;
pub mod sync;
