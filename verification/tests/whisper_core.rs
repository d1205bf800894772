use transcribe::audio::{AudioConfig, AudioData};
use transcribe::error::TranscribeError;
use transcribe::text::trim_text;
use transcribe::whisper::{
    build_inference_params, calculate_segment_confidence, extract_transcription_result,
    is_valid_aduio_file, prepare_audio_samples, EngineSegment, TranscriptionResult,
    TranscriptionSegment, WhisperConfig, CONFIDENCE_HALF, CONFIDENCE_UNIT,
};

#[test]
fn test_whisper_config_builders() {
    let c = WhisperConfig::new("models/large.bin")
        .with_vad_model_path("models/vad.bin")
        .with_language("en")
        .with_translate(true)
        .with_threads(4)
        .with_temperature(250_000)
        .with_initial_prompt("hello")
        .with_debug_mode(true);
    assert_eq!(c.model_path, "models/large.bin");
    assert_eq!(c.vad_model_path.as_deref(), Some("models/vad.bin"));
    assert_eq!(c.language.as_deref(), Some("en"));
    assert!(c.translate);
    assert_eq!(c.n_threads, 4);
    assert_eq!(c.temperature, 250_000);
    assert_eq!(c.initial_prompt.as_deref(), Some("hello"));
    assert!(c.debug_mode);
}

#[test]
fn test_whisper_config_default() {
    let c = WhisperConfig::default();
    assert_eq!(c.model_path, "models/ggml-base.bin");
    assert!(c.vad_model_path.is_none());
    assert!(c.language.is_none());
    assert!(!c.translate);
    assert!(c.n_threads >= 1 && c.n_threads <= 8);
    assert_eq!(c.temperature, 0);
    assert!(c.initial_prompt.is_none());
    assert!(!c.debug_mode);
}

#[test]
fn test_temperature_is_clamped() {
    let c = WhisperConfig::new("m.bin").with_temperature(9_000_000);
    assert_eq!(c.temperature, CONFIDENCE_UNIT);
}

#[test]
fn test_validate() {
    let good = WhisperConfig::new("m.bin");
    assert!(good.validate(true).is_ok());
    assert!(matches!(good.validate(false), Err(TranscribeError::ModelFileMissing)));
    let no_threads = WhisperConfig::new("m.bin").with_threads(0);
    assert!(matches!(no_threads.validate(true), Err(TranscribeError::NonPositiveThreadCount)));
    let mut hot = WhisperConfig::new("m.bin");
    hot.temperature = 2_000_000;
    assert!(matches!(hot.validate(true), Err(TranscribeError::TemperatureOutOfRange)));
}

#[test]
fn test_check_vad_model() {
    let plain = WhisperConfig::new("m.bin");
    assert!(plain.check_vad_model(false).is_ok());
    let with_vad = WhisperConfig::new("m.bin").with_vad_model_path("vad.bin");
    assert!(with_vad.check_vad_model(true).is_ok());
    assert!(matches!(
        with_vad.check_vad_model(false),
        Err(TranscribeError::VadModelFileMissing)
    ));
}

#[test]
fn test_build_inference_params() {
    let c = WhisperConfig::new("m.bin").with_language("de").with_threads(2).with_translate(true);
    let p = build_inference_params(&c);
    assert_eq!(p.n_threads, 2);
    assert!(p.translate);
    assert_eq!(p.language.as_deref(), Some("de"));
    assert!(p.token_timestamps);
    assert!(!p.debug_mode);
}

#[test]
fn test_prepare_audio_samples() {
    let stereo = AudioData::new(vec![100, 300, 500, 700], AudioConfig::new(16000, 2, 16));
    assert_eq!(prepare_audio_samples(&stereo).unwrap(), vec![200, 600]);
    let mono = AudioData::new(vec![1, 2], AudioConfig::new(16000, 1, 16));
    assert_eq!(prepare_audio_samples(&mono).unwrap(), vec![1, 2]);
    let wrong_rate = AudioData::new(vec![1, 2], AudioConfig::new(44100, 1, 16));
    assert!(matches!(
        prepare_audio_samples(&wrong_rate),
        Err(TranscribeError::SampleRateMismatch(44100))
    ));
}

#[test]
fn test_segment_confidence() {
    // No tokens at all: zero.
    assert_eq!(calculate_segment_confidence(&vec![]), 0);
    // Retrievable probabilities: their mean.
    assert_eq!(calculate_segment_confidence(&vec![Some(800_000), Some(600_000)]), 700_000);
    assert_eq!(calculate_segment_confidence(&vec![Some(1_000_000), None]), 1_000_000);
    // Tokens without any retrievable probability: the neutral fallback.
    assert_eq!(calculate_segment_confidence(&vec![None, None, None]), CONFIDENCE_HALF);
}

fn engine_segment(start: u64, end: u64, text: &str, probs: Vec<Option<u32>>) -> EngineSegment {
    EngineSegment { start_ticks: start, end_ticks: end, text: String::from(text), token_probs: probs }
}

#[test]
fn test_extract_transcription_result() {
    let raw = vec![
        engine_segment(0, 150, "  hello  ", vec![Some(900_000), Some(700_000)]),
        engine_segment(150, 300, "   ", vec![Some(100_000)]),
        engine_segment(300, 450, "world", vec![]),
    ];
    let r = extract_transcription_result(&raw, &Some(String::from("en")), 1234, 4500);
    // The blank segment is skipped entirely, but indices still count the
    // engine's own positions.
    assert_eq!(r.segments.len(), 2);
    assert_eq!(r.segments[0].index, 1);
    assert_eq!(r.segments[0].start_time, 0);
    assert_eq!(r.segments[0].end_time, 1500);
    assert_eq!(r.segments[0].text, "hello");
    assert_eq!(r.segments[0].confidence, 800_000);
    assert_eq!(r.segments[1].index, 3);
    assert_eq!(r.segments[1].start_time, 3000);
    assert_eq!(r.segments[1].end_time, 4500);
    assert_eq!(r.segments[1].text, "world");
    assert_eq!(r.segments[1].confidence, 0);
    assert_eq!(r.text, "hello world");
    assert_eq!(r.language.as_deref(), Some("en"));
    assert_eq!(r.processing_time, 1234);
    assert_eq!(r.audio_duration, 4500);
}

#[test]
fn test_extract_empty() {
    let r = extract_transcription_result(&vec![], &None, 5, 0);
    assert!(r.segments.is_empty());
    assert_eq!(r.text, "");
    assert_eq!(r.average_confidence(), 0);
    assert_eq!(r.real_time_factor(), 0);
}

fn sample_result() -> TranscriptionResult {
    TranscriptionResult {
        text: String::from("a b c"),
        language: None,
        segments: vec![
            TranscriptionSegment {
                index: 1,
                start_time: 0,
                end_time: 500,
                text: String::from("a"),
                confidence: 900_000,
            },
            TranscriptionSegment {
                index: 2,
                start_time: 500,
                end_time: 900,
                text: String::from("b"),
                confidence: 300_000,
            },
            TranscriptionSegment {
                index: 3,
                start_time: 900,
                end_time: 1500,
                text: String::from("c"),
                confidence: 600_000,
            },
        ],
        processing_time: 750,
        audio_duration: 1500,
    }
}

#[test]
fn test_average_confidence() {
    let r = sample_result();
    assert_eq!(r.average_confidence(), 600_000);
    assert!(r.average_confidence() <= CONFIDENCE_UNIT);
}

#[test]
fn test_filter_by_confidence() {
    let r = sample_result();
    let kept = r.filter_by_confidence(500_000);
    assert_eq!(kept.segments.len(), 2);
    assert_eq!(kept.segments[0].text, "a");
    assert_eq!(kept.segments[1].text, "c");
    assert_eq!(kept.text, "a c");
    assert_eq!(kept.processing_time, 750);
    assert_eq!(kept.audio_duration, 1500);
    let none = r.filter_by_confidence(950_000);
    assert!(none.segments.is_empty());
    assert_eq!(none.text, "");
}

#[test]
fn test_real_time_factor() {
    let r = sample_result();
    // 750 ms of work for 1500 ms of audio: half of real time, in
    // thousandths.
    assert_eq!(r.real_time_factor(), 500);
}

#[test]
fn test_is_valid_aduio_file() {
    assert!(is_valid_aduio_file("recording.wav").is_ok());
    assert!(is_valid_aduio_file("RECORDING.WAV").is_ok());
    assert!(is_valid_aduio_file("x.WaV").is_ok());
    assert!(matches!(is_valid_aduio_file("song.mp3"), Err(TranscribeError::NotWavFile)));
    assert!(matches!(is_valid_aduio_file("wav"), Err(TranscribeError::NotWavFile)));
    assert!(matches!(is_valid_aduio_file(""), Err(TranscribeError::NotWavFile)));
}

#[test]
fn test_trim_text() {
    assert_eq!(trim_text("  hello  "), "hello");
    assert_eq!(trim_text("\t\nspaced out\u{00A0}\u{3000}"), "spaced out");
    assert_eq!(trim_text("   "), "");
    assert_eq!(trim_text(""), "");
    assert_eq!(trim_text("solid"), "solid");
}
