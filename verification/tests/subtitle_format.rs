use transcribe::subtitle::{
    ms_to_srt_timestamp, ms_to_vtt_timestamp, plain_document, srt_document, srt_timestamp_to_ms,
    subtitle_to_plain, subtitle_to_srt, subtitle_to_vtt, transcription_to_subtitle,
    valid_srt_timestamp, vtt_document, Subtitle,
};
use transcribe::error::TranscribeError;
use transcribe::whisper::{TranscriptionResult, TranscriptionSegment};

#[test]
fn test_ms_to_srt_timestamp() {
    assert_eq!(ms_to_srt_timestamp(0), "00:00:00,000");
    assert_eq!(ms_to_srt_timestamp(1500), "00:00:01,500");
    assert_eq!(ms_to_srt_timestamp(3_723_456), "01:02:03,456");
    assert_eq!(ms_to_srt_timestamp(86_399_999), "23:59:59,999");
    assert_eq!(ms_to_srt_timestamp(360_000_000), "100:00:00,000");
}

#[test]
fn test_ms_to_vtt_timestamp() {
    assert_eq!(ms_to_vtt_timestamp(1500), "00:00:01.500");
    assert_eq!(ms_to_vtt_timestamp(3_723_456), "01:02:03.456");
}

#[test]
fn test_srt_timestamp_to_ms() {
    assert_eq!(srt_timestamp_to_ms("00:00:00,000").unwrap(), 0);
    assert_eq!(srt_timestamp_to_ms("00:00:01,500").unwrap(), 1500);
    assert_eq!(srt_timestamp_to_ms("01:02:03,456").unwrap(), 3_723_456);
    assert_eq!(srt_timestamp_to_ms("23:59:59,999").unwrap(), 86_399_999);
    assert!(matches!(
        srt_timestamp_to_ms("24:00:00,000"),
        Err(TranscribeError::InvalidTimestamp)
    ));
    assert!(matches!(
        srt_timestamp_to_ms("00:60:00,000"),
        Err(TranscribeError::InvalidTimestamp)
    ));
    assert!(matches!(
        srt_timestamp_to_ms("00:00:60,000"),
        Err(TranscribeError::InvalidTimestamp)
    ));
    assert!(matches!(
        srt_timestamp_to_ms("00:00:00.000"),
        Err(TranscribeError::InvalidTimestamp)
    ));
    assert!(matches!(
        srt_timestamp_to_ms("0:00:00,000"),
        Err(TranscribeError::InvalidTimestamp)
    ));
    assert!(matches!(srt_timestamp_to_ms(""), Err(TranscribeError::InvalidTimestamp)));
    assert!(matches!(srt_timestamp_to_ms("nonsense!!!!"), Err(TranscribeError::InvalidTimestamp)));
}

#[test]
fn test_timestamp_round_trip() {
    // Format after parse gives the input back, for every valid string.
    for s in ["00:00:00,000", "00:00:01,500", "01:02:03,456", "23:59:59,999", "09:08:07,065"] {
        let ms = srt_timestamp_to_ms(s).unwrap();
        assert_eq!(ms_to_srt_timestamp(ms), s);
    }
    // Parse after format gives the count back, below twenty-four hours.
    for ms in [0u64, 1, 999, 1000, 59_999, 3_600_000, 86_399_999] {
        assert_eq!(srt_timestamp_to_ms(&ms_to_srt_timestamp(ms)).unwrap(), ms);
    }
}

#[test]
fn test_valid_srt_timestamp() {
    assert!(valid_srt_timestamp("00:00:01,500"));
    assert!(valid_srt_timestamp("23:59:59,999"));
    assert!(!valid_srt_timestamp("24:00:00,000"));
    assert!(!valid_srt_timestamp("00-00-00,000"));
    assert!(!valid_srt_timestamp("hello"));
}

#[test]
fn test_subtitle_to_srt() {
    let sub = Subtitle {
        index: 1,
        start_timestamp: 0,
        end_timestamp: 1500,
        text: String::from("a"),
    };
    assert_eq!(subtitle_to_srt(&sub), "1\n00:00:00,000 --> 00:00:01,500\na");
    assert_eq!(subtitle_to_vtt(&sub), "1\n00:00:00.000 --> 00:00:01.500\na");
    assert_eq!(subtitle_to_plain(&sub), "a");
}

#[test]
fn test_srt_export_two_blocks() {
    let subs = vec![
        Subtitle { index: 1, start_timestamp: 0, end_timestamp: 1500, text: String::from("a") },
        Subtitle { index: 2, start_timestamp: 1500, end_timestamp: 3000, text: String::from("b") },
    ];
    let doc = srt_document(&subs);
    assert_eq!(
        doc,
        "1\n00:00:00,000 --> 00:00:01,500\na\n\n2\n00:00:01,500 --> 00:00:03,000\nb\n\n"
    );
    let blocks: Vec<&str> = doc.trim_end().split("\n\n").collect();
    assert_eq!(blocks.len(), 2);
    assert!(blocks[0].contains("00:00:00,000 --> 00:00:01,500"));
    assert!(blocks[1].contains("00:00:01,500 --> 00:00:03,000"));
}

#[test]
fn test_vtt_and_plain_documents() {
    let subs = vec![
        Subtitle { index: 1, start_timestamp: 0, end_timestamp: 1000, text: String::from("x") },
        Subtitle { index: 2, start_timestamp: 1000, end_timestamp: 2000, text: String::from("y") },
    ];
    assert_eq!(
        vtt_document(&subs),
        "1\n00:00:00.000 --> 00:00:01.000\nx\n\n2\n00:00:01.000 --> 00:00:02.000\ny\n\n"
    );
    assert_eq!(plain_document(&subs), "x\n\ny\n\n");
}

#[test]
fn test_transcription_to_subtitle() {
    let result = TranscriptionResult {
        text: String::from("a b"),
        language: None,
        segments: vec![
            TranscriptionSegment {
                index: 1,
                start_time: 0,
                end_time: 700,
                text: String::from("a"),
                confidence: 900_000,
            },
            TranscriptionSegment {
                index: 2,
                start_time: 700,
                end_time: 1500,
                text: String::from("b"),
                confidence: 800_000,
            },
        ],
        processing_time: 10,
        audio_duration: 1500,
    };
    let subs = transcription_to_subtitle(&result);
    assert_eq!(subs.len(), 2);
    assert_eq!(subs[0].index, 1);
    assert_eq!(subs[0].start_timestamp, 0);
    assert_eq!(subs[0].end_timestamp, 700);
    assert_eq!(subs[0].text, "a");
    assert_eq!(subs[1].index, 2);
    assert_eq!(subs[1].text, "b");
}
