//! Verified core of an audio transcription pipeline: a fixed-point PCM sample
//! model, an energy-based voice-activity detector with silence trimming,
//! the configuration and post-processing layer around an external speech
//! inference engine, and a subtitle/timestamp model with SRT/VTT export.
//!
//! Audio samples are held as fixed-point integers in micro-units
//! (one million micro-units stand for the amplitude 1.0), so that every
//! amplitude computation is exact integer arithmetic.

use vstd::prelude::*;

pub mod appconfig;
pub mod audio;
pub mod crypto;
pub mod dates;
pub mod downloader;
pub mod error;
pub mod fonts;
pub mod fsutil;
pub mod num;
pub mod subtitle;
pub mod text;
pub mod vad;
pub mod vecutil;
pub mod whisper;

verus! {

/// Outcome of a batch routine that may be cancelled by a shared flag:
/// either the whole batch finished, or it was cancelled and produced nothing.
#[derive(Debug, Clone, PartialEq, Eq, Structural)]
pub enum ProgressStatus {
    Finished,
    Cancelled,
}

} // verus!
