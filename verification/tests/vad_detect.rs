use transcribe::audio::{AudioConfig, AudioData};
use transcribe::error::TranscribeError;
use transcribe::vad::{
    span_progress_percent, trim_start_slient_duration_of_audio, CancelFlag, EnergyVAD,
};
use transcribe::ProgressStatus;

/// One second of silence followed by one second of constant amplitude 0.5
/// at 16 kHz, in micro-units.
fn silence_then_speech() -> Vec<i32> {
    let mut samples = vec![0i32; 16000];
    samples.extend(std::iter::repeat(500_000).take(16000));
    samples
}

#[test]
fn test_vad_defaults() {
    let vad = EnergyVAD::new(16000);
    assert_eq!(vad.threshold, 100_000);
    assert_eq!(vad.sample_rate, 16000);
    assert_eq!(vad.frame_size_ms, 200);
    assert_eq!(vad.frame_shift_ms, 100);
    let tuned = EnergyVAD::new(8000)
        .with_threshold(10_000)
        .with_frame_size_ms(400)
        .with_frame_shift_ms(200);
    assert_eq!(tuned.sample_rate, 8000);
    assert_eq!(tuned.threshold, 10_000);
    assert_eq!(tuned.frame_size_ms, 400);
    assert_eq!(tuned.frame_shift_ms, 200);
}

#[test]
fn test_calculate_rms_constant_amplitude() {
    let vad = EnergyVAD::new(16000);
    // For a constant-amplitude window the root-mean-square is exactly the
    // magnitude.
    let frame = vec![250_000i32; 3200];
    assert_eq!(vad.calculate_rms(&frame), 250_000);
    let negative = vec![-400_000i32; 1600];
    assert_eq!(vad.calculate_rms(&negative), 400_000);
    let zero = vec![0i32; 100];
    assert_eq!(vad.calculate_rms(&zero), 0);
}

#[test]
fn test_contain_speech() {
    let vad = EnergyVAD::new(16000);
    assert!(!vad.contain_speech(&[]));
    assert!(!vad.contain_speech(&vec![0i32; 3200]));
    assert!(!vad.contain_speech(&vec![100_000i32; 3200]));
    assert!(vad.contain_speech(&vec![100_001i32; 3200]));
    assert!(vad.contain_speech(&vec![500_000i32; 3200]));
}

#[test]
fn test_detect_on_silence_is_empty() {
    let vad = EnergyVAD::new(16000);
    let silence = vec![0i32; 48000];
    for start in (0..48000 - 3200).step_by(1600) {
        assert!(!vad.contain_speech(&silence[start..start + 3200]));
    }
    assert!(vad.detect_all_active_segments(&silence).is_empty());
    assert_eq!(vad.detect_silent_offset_ms(&silence), 0);
}

#[test]
fn test_detect_one_segment_after_silence() {
    let vad = EnergyVAD::new(16000);
    let samples = silence_then_speech();
    let segments = vad.detect_all_active_segments(&samples);
    assert_eq!(segments.len(), 1);
    let (start_ms, end_ms) = segments[0];
    // The detected start lies within one hop of the true 1000 ms onset,
    // and the end within one hop of the 2000 ms total duration.
    assert!(start_ms.abs_diff(1000) <= 100, "start {start_ms}");
    assert!(end_ms.abs_diff(2000) <= 100, "end {end_ms}");
}

#[test]
fn test_detect_silent_offset() {
    let vad = EnergyVAD::new(16000);
    let samples = silence_then_speech();
    let offset = vad.detect_silent_offset_ms(&samples);
    assert!(offset.abs_diff(1000) <= 100, "offset {offset}");
    // Speech from the very first window reports no offset.
    let loud = vec![500_000i32; 32000];
    assert_eq!(vad.detect_silent_offset_ms(&loud), 0);
    assert_eq!(vad.detect_silent_offset_ms(&[]), 0);
}

#[test]
fn test_trim_cancelled_before_start() {
    // With the flag raised before the loop starts, the result is an empty
    // list with the Cancelled status, whatever the audio holds.
    let audio = AudioData::new(silence_then_speech(), AudioConfig::new(16000, 1, 16));
    let spans = vec![(0, 400), (400, 800), (800, 1200), (1200, 1600), (1600, 2000)];
    let cancel = CancelFlag::new();
    cancel.cancel();
    let (out, status) =
        trim_start_slient_duration_of_audio(&audio, &spans, 100_000, &cancel).unwrap();
    assert!(matches!(status, ProgressStatus::Cancelled));
    assert!(out.is_empty());
}

#[test]
fn test_trim_tightens_span_to_onset() {
    let audio = AudioData::new(silence_then_speech(), AudioConfig::new(16000, 1, 16));
    let spans = vec![(0, 2000)];
    let cancel = CancelFlag::new();
    let (out, status) =
        trim_start_slient_duration_of_audio(&audio, &spans, 100_000, &cancel).unwrap();
    assert!(matches!(status, ProgressStatus::Finished));
    assert_eq!(out.len(), 1);
    // The onset is detected at 900 ms (one hop before the true 1000 ms);
    // one window of guard band is kept ahead of it.
    assert_eq!(out[0], (700, 2000));
}

#[test]
fn test_trim_passes_spans_through() {
    let audio = AudioData::new(vec![500_000i32; 32000], AudioConfig::new(16000, 1, 16));
    let cancel = CancelFlag::new();
    // Speech at the very boundary and a degenerate span both pass through.
    let spans = vec![(0, 1000), (1500, 1500), (1900, 1000)];
    let (out, status) =
        trim_start_slient_duration_of_audio(&audio, &spans, 100_000, &cancel).unwrap();
    assert!(matches!(status, ProgressStatus::Finished));
    assert_eq!(out, spans);
}

#[test]
fn test_trim_rejects_wrong_sample_rate() {
    let audio = AudioData::new(vec![0i32; 4800], AudioConfig::new(48000, 1, 16));
    let cancel = CancelFlag::new();
    let r = trim_start_slient_duration_of_audio(&audio, &vec![(0, 100)], 100_000, &cancel);
    assert!(matches!(r, Err(TranscribeError::SampleRateMismatch(48000))));
}

#[test]
fn test_trim_downmixes_stereo() {
    // Stereo input at 16 kHz is downmixed before detection; both channels
    // silent for 1 s then loud for 1 s.
    let mut samples = vec![0i32; 32000];
    samples.extend(std::iter::repeat(500_000).take(32000));
    let audio = AudioData::new(samples, AudioConfig::new(16000, 2, 16));
    let cancel = CancelFlag::new();
    let (out, status) =
        trim_start_slient_duration_of_audio(&audio, &vec![(0, 2000)], 100_000, &cancel).unwrap();
    assert!(matches!(status, ProgressStatus::Finished));
    assert_eq!(out, vec![(700, 2000)]);
}

#[test]
fn test_cancel_flag_shares_state() {
    let flag = CancelFlag::new();
    assert!(!flag.is_cancelled());
    let reader = flag.clone();
    flag.cancel();
    assert!(reader.is_cancelled());
}

#[test]
fn test_span_progress_percent() {
    assert_eq!(span_progress_percent(0, 4), 25);
    assert_eq!(span_progress_percent(3, 4), 100);
    assert_eq!(span_progress_percent(0, 3), 33);
}
