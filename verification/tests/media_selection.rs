use gpu_image_approximator::io::media_loader::{
    classify_media, first_supported_file, is_supported_extension, is_supported_image_extension,
    is_supported_video_extension, is_video_path, load_target, MediaKind, TargetSource,
};
use gpu_image_approximator::order::lex_less;
use gpu_image_approximator::types::RgbaFrame;
use gpu_image_approximator::AppError;

fn names(list: &[&str]) -> Vec<String> {
    list.iter().map(|s| s.to_string()).collect()
}

#[test]
fn extensions_are_matched_case_insensitively() {
    for e in ["png", "PNG", "jpg", "JpG", "jpeg", "bmp", "mp4", "MP4"] {
        assert!(is_supported_extension(e), "{}", e);
    }
    for e in ["txt", "", "pngx", "mp", "avif", "mp3", "doc"] {
        assert!(!is_supported_extension(e), "{}", e);
    }
    assert!(is_supported_image_extension("jpeg"));
    assert!(!is_supported_image_extension("JPEG"));
    assert!(!is_supported_image_extension("mp4"));
    assert!(is_supported_video_extension("mp4"));
    assert!(!is_supported_video_extension("png"));
}

#[test]
fn documented_formats_are_supported() {
    for e in [
        "webp", "gif", "tiff", "tif", "tga", "ico", "qoi", "pnm", "pbm", "pgm", "ppm", "pam", "WEBP",
        "Gif",
    ] {
        assert!(is_supported_extension(e), "{}", e);
        assert!(is_supported_image_extension(&e.to_lowercase()), "{}", e);
        assert!(!is_supported_video_extension(&e.to_lowercase()), "{}", e);
    }
    for e in ["mov", "mkv", "avi", "webm", "wmv", "m4v", "mpg", "mpeg", "ts", "3gp", "ogv", "MKV"] {
        assert!(is_supported_extension(e), "{}", e);
        assert!(is_supported_video_extension(&e.to_lowercase()), "{}", e);
        assert!(!is_supported_image_extension(&e.to_lowercase()), "{}", e);
    }
    assert_eq!(classify_media("clips/holiday.MOV"), MediaKind::Video);
    assert_eq!(classify_media("art.webp"), MediaKind::Image);
    assert!(is_video_path("x/y.webm"));
}

#[test]
fn media_is_classified_by_extension() {
    assert_eq!(classify_media("input_media/clip.MP4"), MediaKind::Video);
    assert_eq!(classify_media("a/b/photo.Jpg"), MediaKind::Image);
    assert_eq!(classify_media("file.txt"), MediaKind::Unsupported);
    assert_eq!(classify_media("noext"), MediaKind::Unsupported);
    assert!(is_video_path("test.mp4"));
    assert!(!is_video_path("test.png"));
}

#[test]
fn no_supported_file_among_names() {
    assert_eq!(first_supported_file(&names(&[])), None);
    assert_eq!(first_supported_file(&names(&["readme.txt", "data.csv"])), None);
}

#[test]
fn first_supported_file_alphabetical() {
    let list = names(&["banana.png", "apple.jpg", "cherry.bmp"]);
    assert_eq!(first_supported_file(&list), Some(1));
}

#[test]
fn first_supported_file_case_insensitive() {
    let list = names(&["photo.JpG", "image.PNG"]);
    assert_eq!(first_supported_file(&list), Some(1));
    // Ordering ignores case too: "Zebra" sorts after "apple".
    let list = names(&["Zebra.png", "apple.png"]);
    assert_eq!(first_supported_file(&list), Some(1));
}

#[test]
fn first_supported_file_skips_unsupported() {
    let list = names(&["aaa.txt", "ccc.png", "bbb.mp4"]);
    assert_eq!(first_supported_file(&list), Some(2));
}

#[test]
fn first_supported_file_keeps_the_earliest_of_equal_keys() {
    let list = names(&["B.png", "b.png"]);
    assert_eq!(first_supported_file(&list), Some(0));
}

#[test]
fn lexicographic_order() {
    assert!(lex_less("abc", "abd"));
    assert!(lex_less("ab", "abc"));
    assert!(!lex_less("abc", "abc"));
    assert!(!lex_less("b", "abc"));
    assert!(lex_less("", "a"));
}

#[test]
fn image_targets_are_passed_through() {
    let f = RgbaFrame::from_raw(1, 2, vec![1, 2, 3, 4, 5, 6, 7, 8]).unwrap();
    let (pixels, size, is_video) = load_target(TargetSource::Image(f)).unwrap();
    assert_eq!(pixels, vec![1, 2, 3, 4, 5, 6, 7, 8]);
    assert_eq!(size, (1, 2));
    assert!(!is_video);
}

#[test]
fn video_targets_are_cut_at_the_probed_size() {
    let raw: Vec<u8> = (0..20).collect();
    let source = TargetSource::VideoRaw {
        path: "clip.mp4".to_string(),
        decoder_output: raw,
        probe_output: " 2,2\n".to_string(),
    };
    let (pixels, size, is_video) = load_target(source).unwrap();
    assert_eq!(pixels, (0..16).collect::<Vec<u8>>());
    assert_eq!(size, (2, 2));
    assert!(is_video);
}

#[test]
fn short_video_output_is_no_media() {
    let source = TargetSource::VideoRaw {
        path: "clip.mp4".to_string(),
        decoder_output: vec![0; 15],
        probe_output: "2,2".to_string(),
    };
    match load_target(source) {
        Err(AppError::NoMedia { path }) => assert_eq!(path, "clip.mp4"),
        _ => panic!("expected NoMedia"),
    }
}

#[test]
fn unreadable_probe_output_is_no_media() {
    let source = TargetSource::VideoRaw {
        path: "v.mp4".to_string(),
        decoder_output: vec![0; 64],
        probe_output: "N/A".to_string(),
    };
    assert!(matches!(load_target(source), Err(AppError::NoMedia { .. })));
}

#[test]
fn unparsable_probe_fields_fall_back_to_640x480() {
    let source = TargetSource::VideoRaw {
        path: "v.mp4".to_string(),
        decoder_output: vec![0; 640 * 480 * 4],
        probe_output: "x,y".to_string(),
    };
    let (pixels, size, _) = load_target(source).unwrap();
    assert_eq!(size, (640, 480));
    assert_eq!(pixels.len(), 640 * 480 * 4);
}

#[test]
fn fallback_frames() {
    let f = RgbaFrame::from_raw(1, 1, vec![9, 9, 9, 9]).unwrap();
    let ok = load_target(TargetSource::VideoFallback { path: "a.mp4".to_string(), frame: Some(f) });
    assert_eq!(ok.unwrap(), (vec![9, 9, 9, 9], (1, 1), true));
    let missing = load_target(TargetSource::VideoFallback { path: "a.mp4".to_string(), frame: None });
    assert!(matches!(missing, Err(AppError::NoMedia { path }) if path == "a.mp4"));
}
