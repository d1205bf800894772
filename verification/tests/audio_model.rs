use transcribe::audio::{
    convert_int_samples, ensure_whisper_compatible, AudioConfig, AudioData, SAMPLE_UNIT,
};
use transcribe::error::TranscribeError;

const UNIT: i32 = SAMPLE_UNIT as i32;

#[test]
fn test_audio_config() {
    let c = AudioConfig::new(48000, 2, 24);
    assert_eq!(c.sample_rate, 48000);
    assert_eq!(c.channels, 2);
    assert_eq!(c.bit_depth, 24);
    assert!(!c.is_whisper_compatible());

    let d = AudioConfig::whisper_optimized();
    assert_eq!(d.sample_rate, 16000);
    assert_eq!(d.channels, 1);
    assert_eq!(d.bit_depth, 16);
    assert!(d.is_whisper_compatible());
    assert!(AudioConfig::default().is_whisper_compatible());
}

#[test]
fn test_convert_int_samples_16_bit() {
    let raw = vec![0, 32767, -32767, 16384, -32768];
    let out = convert_int_samples(&raw, 16).unwrap();
    assert_eq!(out[0], 0);
    assert_eq!(out[1], UNIT);
    assert_eq!(out[2], -UNIT);
    assert_eq!(out[3] as i64, 16384i64 * 1_000_000 / 32767);
    // The most negative 16-bit sample maps slightly below -1.0, as the
    // divisor is the largest positive magnitude.
    assert_eq!(out[4], -(32768i64 * 1_000_000 / 32767) as i32);
}

#[test]
fn test_convert_int_samples_24_and_32_bit() {
    let out24 = convert_int_samples(&vec![8388607, -8388607, 0], 24).unwrap();
    assert_eq!(out24, vec![UNIT, -UNIT, 0]);
    let out32 = convert_int_samples(&vec![2147483647, -2147483647], 32).unwrap();
    assert_eq!(out32, vec![UNIT, -UNIT]);
}

#[test]
fn test_convert_int_samples_unsupported_depth() {
    assert!(matches!(
        convert_int_samples(&vec![1, 2], 8),
        Err(TranscribeError::UnsupportedBitDepth(8))
    ));
    assert!(matches!(
        convert_int_samples(&vec![], 12),
        Err(TranscribeError::UnsupportedBitDepth(12))
    ));
}

#[test]
fn test_to_mono_downmix() {
    // Two channels: each output frame is the mean of its two samples.
    let data = AudioData::new(
        vec![200_000, 400_000, -100_000, -300_000],
        AudioConfig::new(16000, 2, 16),
    );
    let mono = data.to_mono();
    assert_eq!(mono.config.channels, 1);
    assert_eq!(mono.config.sample_rate, 16000);
    assert_eq!(mono.samples, vec![300_000, -200_000]);
    // Already-mono input comes back as a value-equal copy.
    let single = AudioData::new(vec![1, 2, 3], AudioConfig::new(16000, 1, 16));
    let copy = single.to_mono();
    assert_eq!(copy.samples, vec![1, 2, 3]);
}

#[test]
fn test_normalize_scales_peak_to_one() {
    let mut data = AudioData::new(
        vec![500_000, -250_000, 100_000],
        AudioConfig::new(16000, 1, 16),
    );
    data.normalize();
    assert_eq!(data.samples, vec![UNIT, -500_000, 200_000]);
    let max = data.samples.iter().map(|s| s.abs()).max().unwrap();
    assert_eq!(max, UNIT);
}

#[test]
fn test_normalize_no_op_cases() {
    let mut empty = AudioData::new(vec![], AudioConfig::new(16000, 1, 16));
    empty.normalize();
    assert!(empty.samples.is_empty());

    let mut silent = AudioData::new(vec![0, 0, 0], AudioConfig::new(16000, 1, 16));
    silent.normalize();
    assert_eq!(silent.samples, vec![0, 0, 0]);

    let mut peaked = AudioData::new(vec![UNIT, -300_000], AudioConfig::new(16000, 1, 16));
    peaked.normalize();
    assert_eq!(peaked.samples, vec![UNIT, -300_000]);
}

#[test]
fn test_apply_gain_clamps_to_unit_range() {
    let mut data = AudioData::new(
        vec![600_000, -700_000, 100_000, UNIT, -UNIT],
        AudioConfig::new(16000, 1, 16),
    );
    // A gain of 2.0 in micro-units.
    data.apply_gain(2_000_000);
    assert_eq!(data.samples, vec![UNIT, -UNIT, 200_000, UNIT, -UNIT]);
    for s in &data.samples {
        assert!(-UNIT <= *s && *s <= UNIT);
    }
    // A gain below 1.0 attenuates.
    let mut quiet = AudioData::new(vec![800_000], AudioConfig::new(16000, 1, 16));
    quiet.apply_gain(500_000);
    assert_eq!(quiet.samples, vec![400_000]);
}

#[test]
fn test_downmix_does_not_fix_sample_rate() {
    // A 3-channel 48 kHz integer buffer stays incompatible after the
    // downmix: this pipeline does not resample.
    let data = AudioData::new(
        vec![100, 200, 300, 400, 500, 600],
        AudioConfig::new(48000, 3, 16),
    );
    assert!(!data.is_whisper_compatible());
    let mono = data.to_mono();
    assert_eq!(mono.config.channels, 1);
    assert_eq!(mono.samples, vec![200, 500]);
    assert!(!mono.is_whisper_compatible());
    assert!(matches!(
        ensure_whisper_compatible(&mono.config),
        Err(TranscribeError::SampleRateMismatch(48000))
    ));
}

#[test]
fn test_ensure_whisper_compatible_errors() {
    assert!(ensure_whisper_compatible(&AudioConfig::new(16000, 1, 16)).is_ok());
    assert!(matches!(
        ensure_whisper_compatible(&AudioConfig::new(44100, 1, 16)),
        Err(TranscribeError::SampleRateMismatch(44100))
    ));
    assert!(matches!(
        ensure_whisper_compatible(&AudioConfig::new(16000, 2, 16)),
        Err(TranscribeError::ChannelMismatch(2))
    ));
    assert!(matches!(
        ensure_whisper_compatible(&AudioConfig::new(16000, 1, 24)),
        Err(TranscribeError::BitDepthMismatch(24))
    ));
}

#[test]
fn test_duration_and_frame_count() {
    let data = AudioData::new(vec![0; 32000], AudioConfig::new(16000, 2, 16));
    assert_eq!(data.frame_count(), 16000);
    assert_eq!(data.duration_ms(), 1000);
    let empty = AudioData::new(vec![], AudioConfig::new(16000, 1, 16));
    assert_eq!(empty.duration_ms(), 0);
}
