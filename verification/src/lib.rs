//! Core of a kiosk media player that drives lighting channels in lock-step
//! with audio playback.
//!
//! The library owns the verified logic: the track queue and transport state
//! (`player`), the cue-file store (`cue`), the cue scheduler that fires
//! channel actuations against a live position clock (`scheduler`), and the
//! worker that turns queued commands and position ticks into engine calls
//! (`worker`).  Audio output, file reading and the hardware pin driver are
//! external collaborators; they exchange plain values with this crate.

pub mod cue;
pub mod notify;
pub mod player;
pub mod scheduler;
pub mod song;
pub mod worker;
