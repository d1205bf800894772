//! The error taxonomy of the library. Validation and format problems are
//! reported before any expensive work, each through its own variant, so a
//! caller can tell exactly why a call failed.

use vstd::prelude::*;

verus! {

/// A typed failure of the transcription pipeline.
///
/// Cancellation is not an error: routines that can be cancelled report it
/// through [`crate::ProgressStatus`] instead.
#[derive(Debug, Clone, PartialEq, Eq)]
pub enum TranscribeError {
    /// Integer PCM with a bit depth other than 16, 24 or 32.
    UnsupportedBitDepth(u16),
    /// A subtitle timestamp string that does not parse.
    InvalidTimestamp,
    /// A calendar date string that does not parse.
    InvalidDate,
    /// Audio presented where 16 kHz input is required; carries the actual rate.
    SampleRateMismatch(u32),
    /// Audio presented where mono input is required; carries the actual count.
    ChannelMismatch(u16),
    /// Audio presented where 16-bit PCM is required; carries the actual depth.
    BitDepthMismatch(u16),
    /// The configured model file does not exist.
    ModelFileMissing,
    /// A voice-activity model path is configured but the file does not exist.
    VadModelFileMissing,
    /// A configured thread count of zero or less.
    NonPositiveThreadCount,
    /// A configured temperature outside the unit interval.
    TemperatureOutOfRange,
    /// A path that does not name a WAV file.
    NotWavFile,
    /// A string that is not hexadecimal where ciphertext is expected.
    InvalidHex,
    /// Plain text beyond the fixed encryption buffer size.
    InputTooLong,
    /// Ciphertext that does not decrypt to validly padded plain text.
    DecryptionFailed,
    /// The external inference engine failed; carries its message.
    Inference(String),
}

} // verus!
