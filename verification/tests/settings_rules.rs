use gpu_image_approximator::settings::{preset_save_name, sanitize_preset_name, validate_u32};
use gpu_image_approximator::ui::i18n::Language;
use gpu_image_approximator::ui::settings_screen::{
    clamp_selection, control_availability, enforce_smart_rules, reselect_media, FormToggles,
};
use gpu_image_approximator::AppError;

#[test]
fn integer_settings_in_range_pass() {
    assert!(validate_u32("batch_size", 1, 1, 4096).is_ok());
    assert!(validate_u32("batch_size", 4096, 1, 4096).is_ok());
    assert!(validate_u32("interpolation_steps", 0, 0, 20).is_ok());
}

#[test]
fn integer_settings_out_of_range_are_named() {
    match validate_u32("batch_size", 5000, 1, 4096) {
        Err(AppError::SettingsValidation { name, value, range }) => {
            assert_eq!(name, "batch_size");
            assert_eq!(value, "5000");
            assert_eq!(range, "1\u{2013}4096");
        }
        _ => panic!("Expected SettingsValidation error"),
    }
    assert!(validate_u32("target_fps", 0, 1, 60).is_err());
}

#[test]
fn preset_names_are_sanitized() {
    assert_eq!(sanitize_preset_name("My Preset-1_a"), "My Preset-1_a");
    assert_eq!(sanitize_preset_name("  a/b:c  "), "a_b_c");
    assert_eq!(sanitize_preset_name("../etc"), "___etc");
    assert_eq!(sanitize_preset_name("Привет мир"), "Привет мир");
    assert_eq!(sanitize_preset_name("   "), "");
    let once = sanitize_preset_name(" x*y? ");
    assert_eq!(sanitize_preset_name(&once), once);
}

#[test]
fn preset_files_need_a_name() {
    assert_eq!(preset_save_name(" fast ").unwrap(), "fast.toml");
    assert_eq!(preset_save_name("a.b").unwrap(), "a_b.toml");
    match preset_save_name("  ") {
        Err(AppError::SaveFailed { reason }) => assert_eq!(reason, "preset name is empty"),
        _ => panic!("expected SaveFailed"),
    }
}

#[test]
fn languages_and_codes() {
    assert_eq!(Language::default(), Language::English);
    assert_eq!(Language::English.code(), "en");
    assert_eq!(Language::Russian.code(), "ru");
    assert_eq!(Language::English.t("Start", "Старт"), "Start");
    assert_eq!(Language::Russian.t("Start", "Старт"), "Старт");
    assert_eq!(Language::from_code("ru"), Language::Russian);
    assert_eq!(Language::from_code(" RU\n"), Language::Russian);
    assert_eq!(Language::from_code("en"), Language::English);
    assert_eq!(Language::from_code("de"), Language::English);
    assert_eq!(Language::from_code(""), Language::English);
    for l in [Language::English, Language::Russian] {
        assert_eq!(Language::from_code(l.code()), l);
    }
}

fn toggles(diversity: bool, min_imp: bool) -> FormToggles {
    FormToggles {
        diversity_mode: diversity,
        use_min_improvement: min_imp,
        use_original_colors: false,
        save_progress_gif: true,
        diversity_decay_enabled: true,
    }
}

#[test]
fn diversity_mode_turns_the_threshold_off() {
    let mut t = toggles(true, true);
    enforce_smart_rules(&mut t);
    assert!(!t.use_min_improvement);
    assert!(t.diversity_mode);
    let mut u = toggles(false, true);
    enforce_smart_rules(&mut u);
    assert_eq!(u, toggles(false, true));
}

#[test]
fn controls_follow_media_and_toggles() {
    let image = control_availability(&toggles(false, true), false);
    assert!(image.gif_toggle && image.gif_params && !image.video_params && !image.video_recolor);
    assert!(image.min_improvement && image.use_min_improvement && !image.diversity_params);
    let video = control_availability(&toggles(true, false), true);
    assert!(!video.gif_toggle && !video.gif_params && video.video_params && video.video_recolor);
    assert!(!video.use_min_improvement && video.diversity_params && video.decay_amount);
}

#[test]
fn media_selection_survives_a_rescan() {
    let files: Vec<String> = ["a.png", "b.mp4", "c.jpg"].iter().map(|s| s.to_string()).collect();
    let prev = "b.mp4".to_string();
    assert_eq!(reselect_media(Some(&prev), &files), Some(1));
    let gone = "z.png".to_string();
    assert_eq!(reselect_media(Some(&gone), &files), Some(0));
    assert_eq!(reselect_media(None, &files), Some(0));
    assert_eq!(reselect_media(Some(&prev), &Vec::new()), None);
    assert_eq!(clamp_selection(Some(2), 3), Some(2));
    assert_eq!(clamp_selection(Some(3), 3), None);
    assert_eq!(clamp_selection(None, 3), None);
}
