use transcribe::appconfig::{Config, Model, Preference};
use transcribe::dates::{diff_dates_to_days, get_calendar_matrix, parse_date_str};
use transcribe::downloader::{
    completion_status, download_progress_percent, DownloadStatus, ModelDownloader,
};
use transcribe::error::TranscribeError;
use transcribe::fonts::is_chinese_font;
use transcribe::fsutil::{file_name, file_name_without_ext, pretty_bytes_size};
use transcribe::subtitle::convert_traditional_to_simplified_chinese;
use transcribe::vecutil::chunk_with_merge;

#[test]
fn test_vec() {
    let numbers: Vec<i32> = (1..25).collect();
    let chunks = chunk_with_merge(&numbers, 10);
    assert_eq!(chunks[0], (1..11).collect::<Vec<i32>>());
    assert_eq!(chunks[1], (11..25).collect::<Vec<i32>>());

    let small_vec = vec![1, 2, 3];
    let small_chunks = chunk_with_merge(&small_vec, 10);
    assert_eq!(small_chunks[0], small_vec);

    let exact_vec: Vec<i32> = (1..11).collect();
    let exact_chunks = chunk_with_merge(&exact_vec, 10);
    assert_eq!(exact_chunks[0], exact_vec);

    let eleven_vec: Vec<i32> = (1..12).collect();
    let eleven_chunks = chunk_with_merge(&eleven_vec, 10);
    assert_eq!(eleven_chunks[0], eleven_vec);
}

#[test]
fn test_chunk_with_merge_empty() {
    let empty: Vec<i32> = vec![];
    assert!(chunk_with_merge(&empty, 5).is_empty());
}

#[test]
fn test_diff_dates_to_days() {
    assert_eq!(diff_dates_to_days("2005-12-09", "2005-12-10").unwrap(), 1);
}

#[test]
fn test_diff_dates_more() {
    assert_eq!(diff_dates_to_days("2005-12-10", "2005-12-09").unwrap(), -1);
    assert_eq!(diff_dates_to_days("2023-01-01", "2024-01-01").unwrap(), 365);
    assert_eq!(diff_dates_to_days("2024-01-01", "2025-01-01").unwrap(), 366);
    assert_eq!(diff_dates_to_days("2024-02-28", "2024-03-01").unwrap(), 2);
    assert!(matches!(
        diff_dates_to_days("2005-09-xxx", "2005-12-09"),
        Err(TranscribeError::InvalidDate)
    ));
}

#[test]
fn test_parse_date_str() {
    let d = parse_date_str("2005-12-09").unwrap();
    assert_eq!((d.year, d.month, d.day), (2005, 12, 9));
    assert!(matches!(parse_date_str("2005-09-xxx"), Err(TranscribeError::InvalidDate)));
    assert!(matches!(parse_date_str("2023-02-29"), Err(TranscribeError::InvalidDate)));
    assert!(parse_date_str("2024-02-29").is_ok());
    assert!(matches!(parse_date_str("2023-13-01"), Err(TranscribeError::InvalidDate)));
    assert!(matches!(parse_date_str("2023-00-01"), Err(TranscribeError::InvalidDate)));
    assert!(matches!(parse_date_str("2023-04-31"), Err(TranscribeError::InvalidDate)));
}

#[test]
fn test_pretty_bytes_size() {
    assert_eq!(pretty_bytes_size(0), "0 B");
    assert_eq!(pretty_bytes_size(512), "512 B");
    assert_eq!(pretty_bytes_size(1024), "1.00 KB");
    assert_eq!(pretty_bytes_size(1536), "1.50 KB");
    // Ties round to even: 1152 bytes is exactly 1.125 KB, 1408 exactly
    // 1.375 KB.
    assert_eq!(pretty_bytes_size(1152), "1.12 KB");
    assert_eq!(pretty_bytes_size(1408), "1.38 KB");
    assert_eq!(pretty_bytes_size(1100), "1.07 KB");
    assert_eq!(pretty_bytes_size(1024 * 1024), "1.00 MB");
    assert_eq!(pretty_bytes_size(5 * 1024 * 1024 * 1024 / 2), "2.50 GB");
    assert_eq!(pretty_bytes_size(1024u64.pow(4)), "1.00 TB");
    assert_eq!(pretty_bytes_size(1024u64.pow(5)), "1.00 PB");
}

#[test]
fn test_file_name() {
    assert_eq!(file_name("a/b/c.txt"), "c.txt");
    assert_eq!(file_name("c.txt"), "c.txt");
    assert_eq!(file_name("a/b/"), "b");
    assert_eq!(file_name("/"), "");
    assert_eq!(file_name(""), "");
    assert_eq!(file_name("a/.."), "");
    // Current-directory components are dropped, as path normalization
    // drops them; a parent-directory component yields nothing.
    assert_eq!(file_name("a/."), "a");
    assert_eq!(file_name("a/./"), "a");
    assert_eq!(file_name("."), "");
    assert_eq!(file_name("a..."), "a...");
}

#[test]
fn test_file_name_without_ext() {
    assert_eq!(file_name_without_ext("a/b/c.txt"), "c");
    assert_eq!(file_name_without_ext("a/b/c.tar.gz"), "c.tar");
    assert_eq!(file_name_without_ext("a/.bashrc"), ".bashrc");
    assert_eq!(file_name_without_ext("noext"), "noext");
    assert_eq!(file_name_without_ext("trailing."), "trailing");
}

#[test]
fn test_model_downloader_paths() {
    let d = ModelDownloader::new(String::from("ggml-base.bin"), String::from("/tmp/models"));
    assert_eq!(
        d.base_url,
        "https://huggingface.co/ggerganov/whisper.cpp/resolve/main"
    );
    assert_eq!(d.model_path(), "/tmp/models/ggml-base.bin");
    assert_eq!(d.temporary_path(), "/tmp/models/ggml-base.bin.tmp");
    assert_eq!(
        d.download_url(),
        "https://huggingface.co/ggerganov/whisper.cpp/resolve/main/ggml-base.bin"
    );
    let mirrored = d.with_base_url(String::from("https://mirror.example/models"));
    assert_eq!(mirrored.download_url(), "https://mirror.example/models/ggml-base.bin");
}

#[test]
fn test_download_bookkeeping() {
    assert_eq!(download_progress_percent(0, 200), 0);
    assert_eq!(download_progress_percent(50, 200), 25);
    assert_eq!(download_progress_percent(200, 200), 100);
    assert!(matches!(completion_status(100, 100), DownloadStatus::Finsished));
    assert!(matches!(completion_status(100, 99), DownloadStatus::Partial));
}

#[test]
fn test_convert_traditional_to_simplified_chinese() {
    let converted = convert_traditional_to_simplified_chinese("漢語簡化");
    assert_ne!(converted, "漢語簡化");
    assert_eq!(converted, "汉语简化");
    assert_eq!(convert_traditional_to_simplified_chinese(""), "");
    assert_eq!(convert_traditional_to_simplified_chinese("plain"), "plain");
}

#[test]
fn test_app_config_defaults() {
    let c = Config::default();
    assert_eq!(c.preference.win_width, 1200);
    assert_eq!(c.preference.win_height, 800);
    assert_eq!(c.preference.font_size, 16);
    assert_eq!(c.preference.font_family, "Source Han Sans CN");
    assert_eq!(c.preference.language, "en");
    assert!(!c.preference.is_dark);
    assert_eq!(Model::default().api_base_url, "");
    assert_eq!(Preference::default().win_width, 1200);
    assert!(!c.is_first_run);
}

#[test]
fn test_calendar_matrix() {
    let matrix = get_calendar_matrix(2025, 7).unwrap();

    for row in &matrix {
        let line: Vec<String> =
            row.iter().map(|date| format!("{:2}/{:2}", date.month, date.day)).collect();
        println!("{}", line.join(" "));
    }

    assert_eq!(matrix.len(), 6);
    assert!(matrix.iter().all(|row| row.len() == 7));

    assert_eq!(matrix[0][0].month, 6);
    assert_eq!(matrix[0][0].day, 29);

    let matrix_nov = get_calendar_matrix(2023, 11).unwrap();
    assert_eq!(matrix_nov[0][3].month, 11);
    assert_eq!(matrix_nov[0][3].day, 1);
    assert_eq!(matrix_nov[0][0].month, 10);
    assert_eq!(matrix_nov[4][6].month, 12);

    let matrix_feb = get_calendar_matrix(2023, 2).unwrap();
    assert_eq!(matrix_feb[0][2].month, 1);
    assert_eq!(matrix_feb[4][6].month, 3);
}

#[test]
fn test_calendar_matrix_rejects_bad_month() {
    assert!(matches!(get_calendar_matrix(2025, 13), Err(TranscribeError::InvalidDate)));
    assert!(matches!(get_calendar_matrix(2025, 0), Err(TranscribeError::InvalidDate)));
}

#[test]
fn test_is_chinese_font() {
    assert!(is_chinese_font("Microsoft YaHei"));
    assert!(is_chinese_font("Source Han Sans CN"));
    assert!(is_chinese_font("WenQuanYi Micro Hei"));
    assert!(is_chinese_font("PingFang SC"));
    assert!(is_chinese_font("\u{601d}\u{6e90}\u{9ed1}\u{4f53}"));
    assert!(!is_chinese_font("Arial"));
    assert!(!is_chinese_font("DejaVu Sans"));
    assert!(!is_chinese_font(""));
}
