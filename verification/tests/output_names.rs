use chrono::{Datelike, Timelike};
use gpu_image_approximator::io::output::{
    align_to, completion_filename, downscale_to_width, frame_filename, is_frame_sequence_name,
    padded_bytes_per_row, process_gif_filename, snapshot_filename,
    stale_frame_files, strip_row_padding, video_result_filename, ClockReading,
};
use gpu_image_approximator::types::RgbaFrame;

#[test]
fn test_completion_filename_basic() {
    let path = "input_media/photo.png";
    assert_eq!(completion_filename(path), "photo_result.png");
}

#[test]
fn test_completion_filename_with_directory() {
    let path = "/some/deep/path/landscape.jpg";
    assert_eq!(completion_filename(path), "landscape_result.png");
}

#[test]
fn test_completion_filename_no_extension() {
    let path = "myfile";
    assert_eq!(completion_filename(path), "myfile_result.png");
}

#[test]
fn test_completion_filename_multiple_dots() {
    let path = "my.photo.final.png";
    assert_eq!(completion_filename(path), "my.photo.final_result.png");
}

#[test]
fn test_completion_filename_empty_path_fallback() {
    // An empty path has no file_stem, so we fall back to "output"
    let path = "";
    assert_eq!(completion_filename(path), "output_result.png");
}

#[test]
fn test_snapshot_filename_format() {
    let filename = snapshot_filename(&local_clock_reading());
    // Should match pattern: snapshot_YYYYMMDD_HHMMSS.png
    assert!(filename.starts_with("snapshot_"));
    assert!(filename.ends_with(".png"));
    // The timestamp portion should be 15 characters: YYYYMMDD_HHMMSS
    let timestamp_part = &filename["snapshot_".len()..filename.len() - ".png".len()];
    assert_eq!(timestamp_part.len(), 15);
    // Verify format: 8 digits, underscore, 6 digits
    let parts: Vec<&str> = timestamp_part.split('_').collect();
    assert_eq!(parts.len(), 2);
    assert_eq!(parts[0].len(), 8);
    assert_eq!(parts[1].len(), 6);
    assert!(parts[0].chars().all(|c| c.is_ascii_digit()));
    assert!(parts[1].chars().all(|c| c.is_ascii_digit()));
}

#[test]
fn test_align_to() {
    assert_eq!(align_to(256, 256), 256);
    assert_eq!(align_to(257, 256), 512);
    assert_eq!(align_to(1, 256), 256);
    assert_eq!(align_to(512, 256), 512);
    assert_eq!(align_to(100, 256), 256);
    assert_eq!(align_to(0, 256), 0);
}

#[test]
fn test_is_frame_sequence_name() {
    assert!(is_frame_sequence_name("frame_00000.png"));
    assert!(is_frame_sequence_name("frame_42.png"));
    assert!(is_frame_sequence_name("frame_00399.png"));
    // Non-matching names must be ignored.
    assert!(!is_frame_sequence_name("frame_.png"));
    assert!(!is_frame_sequence_name("frame_12.jpg"));
    assert!(!is_frame_sequence_name("frame_12a.png"));
    assert!(!is_frame_sequence_name("snapshot_20240101_000000.png"));
    assert!(!is_frame_sequence_name("video_result.png"));
    assert!(!is_frame_sequence_name("frame.png"));
}

#[test]
fn gif_and_video_names_follow_the_stem() {
    assert_eq!(process_gif_filename("input_media/cat.jpeg"), "cat_process.gif");
    assert_eq!(process_gif_filename(""), "output_process.gif");
    assert_eq!(video_result_filename("clips/dance.mp4"), "dance_result.mp4");
    assert_eq!(video_result_filename(""), "video_result.mp4");
}

#[test]
fn frame_filenames_are_zero_padded_and_recognised() {
    assert_eq!(frame_filename(0), "frame_00000.png");
    assert_eq!(frame_filename(42), "frame_00042.png");
    assert_eq!(frame_filename(123456), "frame_123456.png");
    for i in [0u32, 7, 99_999, 100_000, u32::MAX] {
        assert!(is_frame_sequence_name(&frame_filename(i)));
    }
    assert_ne!(frame_filename(1), frame_filename(10));
}

#[test]
fn snapshot_name_from_a_clock_reading() {
    let c = ClockReading { year: 2024, month: 3, day: 7, hour: 9, minute: 5, second: 1, nanosecond: 0 };
    assert_eq!(snapshot_filename(&c), "snapshot_20240307_090501.png");
    let leap = ClockReading { year: 2016, month: 12, day: 31, hour: 23, minute: 59, second: 59, nanosecond: 1_500_000_000 };
    assert_eq!(snapshot_filename(&leap), "snapshot_20161231_235960.png");
    let early = ClockReading { year: 987, month: 1, day: 2, hour: 0, minute: 0, second: 0, nanosecond: 0 };
    assert_eq!(snapshot_filename(&early), "snapshot_09870102_000000.png");
}

#[test]
fn align_to_other_powers_of_two() {
    assert_eq!(align_to(5, 1), 5);
    assert_eq!(align_to(5, 4), 8);
    assert_eq!(align_to(8, 8), 8);
    // The largest values whose alignment still fits in a u32.
    assert_eq!(align_to(4294967040, 256), 4294967040);
    assert_eq!(align_to(4294967000, 256), 4294967040);
    assert_eq!(padded_bytes_per_row(1073741760), 4294967040);
}

#[test]
fn readback_rows_are_padded_to_256_bytes() {
    assert_eq!(padded_bytes_per_row(64), 256);
    assert_eq!(padded_bytes_per_row(65), 512);
    assert_eq!(padded_bytes_per_row(0), 0);
    assert_eq!(padded_bytes_per_row(100), 512);
}

#[test]
fn row_padding_is_stripped() {
    // Two rows of three bytes, each padded to five.
    let data = [1u8, 2, 3, 0, 0, 4, 5, 6, 0, 0];
    assert_eq!(strip_row_padding(&data, 3, 5, 2), vec![1, 2, 3, 4, 5, 6]);
    assert_eq!(strip_row_padding(&data, 0, 5, 2), Vec::<u8>::new());
}

#[test]
fn downscale_keeps_small_images() {
    let frame = || RgbaFrame::from_raw(2, 2, vec![9u8; 16]).unwrap();
    let same = downscale_to_width(frame(), 4);
    assert_eq!(same.width(), 2);
    assert_eq!(same.pixels(), frame().pixels());
    let unlimited = downscale_to_width(frame(), 0);
    assert_eq!(unlimited.width(), 2);
}

#[test]
fn downscale_resamples_wide_images() {
    // A 4×2 image scaled to two columns becomes 2×1.
    let mut px = Vec::new();
    for i in 0..8u8 {
        px.extend_from_slice(&[i * 30, 0, 0, 255]);
    }
    let img = RgbaFrame::from_raw(4, 2, px.clone()).unwrap();
    let small = downscale_to_width(img, 2);
    assert_eq!(small.width(), 2);
    assert_eq!(small.height(), 1);
    assert_eq!(small.pixels().len(), 8);
    assert_ne!(small.pixels()[..], px[..8]);
}

/// The current local time, field by field, as the application reads it.
fn local_clock_reading() -> ClockReading {
    let now = chrono::Local::now();
    ClockReading {
        year: now.year(),
        month: now.month(),
        day: now.day(),
        hour: now.hour(),
        minute: now.minute(),
        second: now.second(),
        nanosecond: now.nanosecond(),
    }
}

#[test]
fn stems_follow_the_last_path_component() {
    assert_eq!(completion_filename("/home/u/media/cat.final.png"), "cat.final_result.png");
    assert_eq!(completion_filename("media/.hidden"), ".hidden_result.png");
    assert_eq!(completion_filename("media/clip/"), "clip_result.png");
    assert_eq!(completion_filename("media/./pic.jpg/."), "pic_result.png");
    assert_eq!(completion_filename("media/.."), "output_result.png");
    assert_eq!(completion_filename("/"), "output_result.png");
    assert_eq!(process_gif_filename("a//b.tar.gz"), "b.tar_process.gif");
    assert_eq!(video_result_filename("."), "video_result.mp4");
}

#[test]
fn stale_frames_are_the_frame_sequence_names() {
    let names: Vec<String> = ["frame_00001.png", "cat_result.png", "frame_2.png", "frame_.png", "snapshot_20240101_000000.png", "frame_00003.PNG"]
        .iter()
        .map(|s| s.to_string())
        .collect();
    assert_eq!(stale_frame_files(&names), vec!["frame_00001.png".to_string(), "frame_2.png".to_string()]);
    assert!(stale_frame_files(&Vec::new()).is_empty());
}

#[test]
fn stale_frames_leave_results_and_snapshots() {
    let names: Vec<String> = [
        "frame_00000.png",
        "frame_00001.png",
        "frame_00399.png",
        "video_result.mp4",
        "video_result.png",
        "snapshot_20240101_000000.png",
    ]
    .iter()
    .map(|s| s.to_string())
    .collect();
    let stale = stale_frame_files(&names);
    assert_eq!(stale.len(), 3);
    assert_eq!(stale, names[..3].to_vec());
}
