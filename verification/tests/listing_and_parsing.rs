use gpu_image_approximator::algorithm::population::{vacant_slots, ShapeIds};
use gpu_image_approximator::generation::FrameSequence;
use gpu_image_approximator::io::media_loader::list_media_files;
use gpu_image_approximator::io::shape_preprocessor::{load_and_preprocess, select_shape_files, ShapeImage};
use gpu_image_approximator::io::video::{
    parse_probe_fields, parse_u32_checked, split_commas, IntParseError,
};
use gpu_image_approximator::order::{sort_by_keys, stable_sort_order};
use gpu_image_approximator::settings::{
    error_location, list_presets, preset_save_name, sanitize_preset_name,
};
use gpu_image_approximator::text::eq_ignore_ascii_case;
use gpu_image_approximator::types::RgbaFrame;
use gpu_image_approximator::ui::settings_screen::{position_of, selected_is_video};
use gpu_image_approximator::AppError;

fn owned(list: &[&str]) -> Vec<String> {
    list.iter().map(|s| s.to_string()).collect()
}

#[test]
fn stable_order_sorts_by_key_and_keeps_ties() {
    let keys = owned(&["b", "a", "b", "", "a"]);
    assert_eq!(stable_sort_order(&keys), vec![3, 1, 4, 0, 2]);
    let items = owned(&["B1", "a1", "b2", "-", "A2"]);
    assert_eq!(sort_by_keys(&items, &keys), owned(&["-", "a1", "A2", "B1", "b2"]));
    assert!(stable_sort_order(&Vec::new()).is_empty());
}

#[test]
fn presets_are_toml_stems_sorted_without_case() {
    let files = owned(&["zeta.toml", "Alpha.TOML", "notes.txt", "beta.toml", "alpha.toml", ".toml"]);
    // ".toml" has no extension (it is a hidden file named ".toml").
    assert_eq!(list_presets(&files), owned(&["Alpha", "alpha", "beta", "zeta"]));
    assert!(list_presets(&owned(&["readme.md"])).is_empty());
}

#[test]
fn media_files_are_supported_names_sorted_without_case() {
    let files = owned(&["b.PNG", "A.mp4", "notes.txt", "c.jpeg", "a.jpg"]);
    assert_eq!(list_media_files(&files), owned(&["a.jpg", "A.mp4", "b.PNG", "c.jpeg"]));
}

#[test]
fn shape_files_are_pngs_in_name_order_at_most_256() {
    let files = owned(&["b.png", "A.PNG", "c.jpg", "a.png"]);
    assert_eq!(select_shape_files(&files), owned(&["A.PNG", "a.png", "b.png"]));
    let many: Vec<String> = (0..300).map(|i| format!("s{:03}.png", 299 - i)).collect();
    let chosen = select_shape_files(&many);
    assert_eq!(chosen.len(), 256);
    assert_eq!(chosen[0], "s000.png");
    assert_eq!(chosen[255], "s255.png");
}

#[test]
fn shape_layers_skip_undecodable_files() {
    let red = RgbaFrame::from_raw(1, 1, vec![255, 0, 0, 200]).unwrap();
    let layers = load_and_preprocess("shapes", vec![None, Some(ShapeImage::Rgba8(red)), None], 2, false).unwrap();
    assert_eq!(layers.len(), 1);
    assert_eq!(layers[0].pixels, vec![54, 54, 54, 200].repeat(4));
    match load_and_preprocess("input_shapes", vec![None, None], 2, true) {
        Err(AppError::NoShapes { path }) => assert_eq!(path, "input_shapes"),
        _ => panic!("expected NoShapes"),
    }
    assert!(load_and_preprocess("x", Vec::new(), 2, true).is_err());
}

#[test]
fn parse_errors_are_located_by_line_and_column() {
    assert_eq!(error_location("s.toml", b""), "s.toml:0:1");
    assert_eq!(error_location("s.toml", b"abc"), "s.toml:1:4");
    assert_eq!(error_location("s.toml", b"a = 1\nbatch = "), "s.toml:2:9");
    assert_eq!(error_location("s.toml", b"a = 1\n"), "s.toml:1:6");
    assert_eq!(error_location("s.toml", b"a = 1\r\n"), "s.toml:1:6");
    assert_eq!(error_location("s.toml", b"\n\n"), "s.toml:2:1");
    // The same numbers as counting with `str::lines` on the text before the error.
    for text in ["x\ny\r\nzz", "x\r", "é\nü"] {
        let lines = text.lines().count();
        let col = text.lines().last().map(|l| l.len() + 1).unwrap_or(1);
        assert_eq!(error_location("f", text.as_bytes()), format!("f:{}:{}", lines, col));
    }
}

#[test]
fn integer_parse_errors_match_std() {
    for text in ["", "+", "-", "-1", "12x", "4294967296", "99999999999a", "+0", "00", "4294967295"] {
        let ours = parse_u32_checked(text).map_err(|e| e.description().to_string());
        let std_result = text.parse::<u32>().map_err(|e| e.to_string());
        assert_eq!(ours, std_result, "{:?}", text);
    }
    assert_eq!(parse_u32_checked(""), Err(IntParseError::Empty));
    assert_eq!(parse_u32_checked("x"), Err(IntParseError::InvalidDigit));
    assert_eq!(parse_u32_checked("5000000000"), Err(IntParseError::PosOverflow));
}

#[test]
fn commas_split_like_std() {
    for text in ["", ",", "a,b", "a,,b,", "1920,1080,30/1,N/A"] {
        let expected: Vec<String> = text.split(',').map(String::from).collect();
        assert_eq!(split_commas(text), expected, "{:?}", text);
    }
}

#[test]
fn probe_lines_are_read_into_fields() {
    let f = parse_probe_fields("1920,1080,30/1,900\n").unwrap();
    assert_eq!((f.width, f.height, f.frame_rate.as_str(), f.frame_count), (1920, 1080, "30/1", Some(900)));
    let g = parse_probe_fields("640,480,25/1,N/A").unwrap();
    assert_eq!(g.frame_count, None);
    let h = parse_probe_fields("640,480,25/1").unwrap();
    assert_eq!(h.frame_count, None);
    let i = parse_probe_fields("640,480,25/1,abc").unwrap();
    assert_eq!(i.frame_count, None);
    match parse_probe_fields(" 640,480 ") {
        Err(AppError::Ffmpeg(m)) => assert_eq!(m, "Unexpected ffprobe output format: '640,480'"),
        _ => panic!("expected a format error"),
    }
    match parse_probe_fields("wide,480,25/1") {
        Err(AppError::Ffmpeg(m)) => {
            assert_eq!(m, "Failed to parse video width 'wide': invalid digit found in string")
        }
        _ => panic!("expected a width error"),
    }
    match parse_probe_fields("640,,25/1") {
        Err(AppError::Ffmpeg(m)) => {
            assert_eq!(m, "Failed to parse video height '': cannot parse integer from empty string")
        }
        _ => panic!("expected a height error"),
    }
}

#[test]
fn keyframes_number_their_frames_in_sequence() {
    let mut seq = FrameSequence::new();
    assert_eq!(seq.keyframe_names(2, 0), owned(&["frame_00000.png"]));
    assert_eq!(
        seq.keyframe_names(2, 1),
        owned(&["frame_00001.png", "frame_00002.png", "frame_00003.png"])
    );
    assert_eq!(seq.keyframe_names(0, 2), owned(&["frame_00004.png"]));
    assert_eq!(seq.next_name(), "frame_00005.png");
    assert_eq!(seq.next_index, 6);
}

#[test]
fn population_slots_and_ids() {
    assert_eq!(vacant_slots(0, 100), 100);
    assert_eq!(vacant_slots(30, 100), 70);
    assert_eq!(vacant_slots(50, 50), 0);
    assert_eq!(vacant_slots(60, 50), 0);
    let mut ids = ShapeIds::new();
    let got: Vec<u64> = (0..3).map(|_| ids.assign()).collect();
    assert_eq!(got, vec![0, 1, 2]);
}

#[test]
fn selection_helpers() {
    let files = owned(&["a.png", "b.MP4"]);
    assert!(!selected_is_video(&files, Some(0)));
    assert!(selected_is_video(&files, Some(1)));
    assert!(!selected_is_video(&files, Some(2)));
    assert!(!selected_is_video(&files, None));
    let names = owned(&["x", "y", "x"]);
    assert_eq!(position_of(&names, "x"), Some(0));
    assert_eq!(position_of(&names, "y"), Some(1));
    assert_eq!(position_of(&names, "z"), None);
}

#[test]
fn ascii_case_comparison() {
    assert!(eq_ignore_ascii_case("TOML", "toml"));
    assert!(eq_ignore_ascii_case("", ""));
    assert!(!eq_ignore_ascii_case("tom", "toml"));
    assert!(!eq_ignore_ascii_case("Ä", "ä"));
    assert!(eq_ignore_ascii_case("a-Z_9", "A-z_9"));
}

#[test]
fn saved_presets_are_listed_under_their_sanitized_name() {
    for name in ["my preset", " a/b ", "Ünï", "x.y", "..", "a\\b:c"] {
        let file = preset_save_name(name).unwrap();
        assert_eq!(list_presets(&vec![file]), vec![sanitize_preset_name(name)], "{:?}", name);
    }
}

#[test]
fn listings_are_deterministic() {
    let files = owned(&["b.png", "B.png", "a.PNG", "c.mp4"]);
    let first = list_media_files(&files);
    assert_eq!(list_media_files(&files), first);
    assert_eq!(first, owned(&["a.PNG", "b.png", "B.png", "c.mp4"]));
}

#[test]
fn test_vacant_slots_empty_list() {
    assert_eq!(vacant_slots(0, 100), 100);
}

#[test]
fn test_vacant_slots_partial_fill() {
    // 30 shapes recorded, room for 100.
    assert_eq!(vacant_slots(30, 100), 70);
}

#[test]
fn test_vacant_slots_full() {
    assert_eq!(vacant_slots(50, 50), 0);
}

#[test]
fn test_vacant_slots_over_max() {
    assert_eq!(vacant_slots(60, 50), 0);
}
