use gpu_image_approximator::window::compute_window_size;

#[test]
fn test_target_fits_within_display() {
    let result = compute_window_size((800, 600), (1920, 1080));
    assert_eq!(result, (800, 600));
}

#[test]
fn test_target_exceeds_width() {
    let result = compute_window_size((2000, 500), (1920, 1080));
    assert_eq!(result.0, 1728);
    assert_eq!(result.1, 432);
}

#[test]
fn test_target_exceeds_height() {
    let result = compute_window_size((500, 1200), (1920, 1080));
    assert_eq!(result.0, 405);
    assert_eq!(result.1, 972);
}

#[test]
fn test_target_exceeds_both_dimensions() {
    let result = compute_window_size((3000, 2000), (1920, 1080));
    assert_eq!(result.0, 1458);
    assert_eq!(result.1, 972);
    assert!(result.0 <= 1728);
    assert!(result.1 <= 972);
}

#[test]
fn test_exact_90_percent_boundary() {
    let result = compute_window_size((1728, 972), (1920, 1080));
    assert_eq!(result, (1728, 972));
}

#[test]
fn test_small_target_on_large_display() {
    let result = compute_window_size((100, 100), (3840, 2160));
    assert_eq!(result, (100, 100));
}

#[test]
fn test_square_target_exceeding_display() {
    let result = compute_window_size((2000, 2000), (1920, 1080));
    assert_eq!(result.0, 972);
    assert_eq!(result.1, 972);
    assert!(result.0 <= 1728);
    assert!(result.1 <= 972);
}

#[test]
fn test_aspect_ratio_preserved() {
    let result = compute_window_size((1600, 900), (1000, 800));
    let original_ratio = 1600.0_f64 / 900.0;
    let result_ratio = result.0 as f64 / result.1 as f64;
    assert!((original_ratio - result_ratio).abs() < 0.01);
    assert!(result.0 <= 900);
    assert!(result.1 <= 720);
}

#[test]
fn window_one_pixel_over_scales_down() {
    // 90% of 1000 is 900: a 901-wide target is scaled by 900/901.
    assert_eq!(compute_window_size((901, 100), (1000, 1000)), (900, 99));
}

#[test]
fn window_thin_target_keeps_one_pixel() {
    // A very wide, one-pixel-high target would round its height to zero.
    assert_eq!(compute_window_size((100_000, 1), (1000, 1000)), (900, 1));
}

#[test]
fn window_tiny_display() {
    // 90% of a 1×1 display rounds down to 0; the window stays at least 1×1.
    assert_eq!(compute_window_size((10, 10), (1, 1)), (1, 1));
}

#[test]
fn window_never_larger_than_target() {
    for &(t, d) in &[((640, 480), (1920, 1080)), ((4000, 300), (1280, 720)), ((300, 4000), (1280, 720))] {
        let r = compute_window_size(t, d);
        assert!(r.0 <= t.0 && r.1 <= t.1);
    }
}
