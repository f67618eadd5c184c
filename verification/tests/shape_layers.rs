use gpu_image_approximator::io::shape_preprocessor::{
    check_vram_budget, convert_to_grayscale_alpha, keep_first_layers, load_and_preprocess,
    preprocess_shape, ShapeImage,
};
use gpu_image_approximator::types::{Rgba16Frame, RgbaFrame, ShapeLayer};
use gpu_image_approximator::AppError;

#[test]
fn test_check_vram_budget_within_budget() {
    // 128² × 4 × 256 = 16 MB, budget = 2048 MB → OK
    assert!(check_vram_budget(128, 256, 2048).is_ok());
}

#[test]
fn test_check_vram_budget_exactly_at_limit() {
    // 512² × 4 × 1 = 1 MB, budget = 1 MB → OK (equal is within budget)
    assert!(check_vram_budget(512, 1, 1).is_ok());
}

#[test]
fn test_check_vram_budget_exceeds_budget() {
    // 1024² × 4 × 256 = 1024 MB, budget = 128 MB → Error
    let result = check_vram_budget(1024, 256, 128);
    assert!(result.is_err());
    match result.unwrap_err() {
        AppError::VramBudget { required_mb, budget_mb } => {
            assert_eq!(required_mb, 1024);
            assert_eq!(budget_mb, 128);
        }
        _ => panic!("Expected VramBudget error"),
    }
}

#[test]
fn test_check_vram_budget_minimal_values() {
    // 16² × 4 × 1 = 1024 bytes, budget = 128 MB → OK
    assert!(check_vram_budget(16, 1, 128).is_ok());
}

#[test]
fn test_check_vram_budget_just_over_limit() {
    // 512² × 4 × 2 = 2 MB, budget = 1 MB → Error
    let result = check_vram_budget(512, 2, 1);
    assert!(result.is_err());
    match result.unwrap_err() {
        AppError::VramBudget { required_mb, budget_mb } => {
            assert_eq!(required_mb, 2);
            assert_eq!(budget_mb, 1);
        }
        _ => panic!("Expected VramBudget error"),
    }
}

#[test]
fn test_check_vram_budget_large_resolution_overflow_safe() {
    // 1024² × 4 × 256 = 1,073,741,824 bytes = 1024 MB
    // budget = 4096 MB → OK (tests that u64 arithmetic doesn't overflow)
    assert!(check_vram_budget(1024, 256, 4096).is_ok());
}

#[test]
fn test_check_vram_budget_required_mb_rounds_up() {
    // 513² × 4 × 1 = 1,052,676 bytes = 1.004 MB → required_mb should be 2 (rounded up)
    // budget = 1 MB → Error
    let result = check_vram_budget(513, 1, 1);
    assert!(result.is_err());
    match result.unwrap_err() {
        AppError::VramBudget { required_mb, budget_mb } => {
            // 513² × 4 = 1,052,676 bytes, ceil(1,052,676 / 1,048,576) = 2
            assert_eq!(required_mb, 2);
            assert_eq!(budget_mb, 1);
        }
        _ => panic!("Expected VramBudget error"),
    }
}

#[test]
fn vram_budget_zero_layers_always_fits() {
    assert!(check_vram_budget(1024, 0, 0).is_ok());
    assert!(matches!(
        check_vram_budget(16, 1, 0),
        Err(AppError::VramBudget { required_mb: 1, budget_mb: 0 })
    ));
}

#[test]
fn grayscale_uses_rec709_weights() {
    let rgba = vec![255, 0, 0, 10, 0, 255, 0, 20, 0, 0, 255, 30, 200, 100, 50, 255];
    let gray = convert_to_grayscale_alpha(&rgba);
    // 0.2126×255 = 54.2, 0.7152×255 = 182.4, 0.0722×255 = 18.4,
    // 0.2126×200 + 0.7152×100 + 0.0722×50 = 117.75
    assert_eq!(gray, vec![54, 54, 54, 10, 182, 182, 182, 20, 18, 18, 18, 30, 118, 118, 118, 255]);
}

#[test]
fn grayscale_keeps_gray_pixels_and_is_idempotent() {
    let rgba = vec![7, 7, 7, 1, 128, 128, 128, 2, 255, 255, 255, 3];
    assert_eq!(convert_to_grayscale_alpha(&rgba), rgba);
    let colored = vec![10, 200, 30, 99, 250, 1, 77, 0];
    let once = convert_to_grayscale_alpha(&colored);
    assert_eq!(convert_to_grayscale_alpha(&once), once);
}

#[test]
fn grayscale_ignores_a_partial_trailing_pixel() {
    assert_eq!(convert_to_grayscale_alpha(&vec![1, 2, 3]), Vec::<u8>::new());
    assert_eq!(convert_to_grayscale_alpha(&vec![0, 0, 0, 9, 5]).len(), 4);
}

#[test]
fn shapes_are_resampled_to_the_layer_size() {
    let red = vec![255, 0, 0, 255, 255, 0, 0, 255, 255, 0, 0, 255, 255, 0, 0, 255];
    let img = ShapeImage::Rgba8(RgbaFrame::from_raw(2, 2, red.clone()).unwrap());
    let tinted = preprocess_shape(ShapeImage::Rgba8(RgbaFrame::from_raw(2, 2, red).unwrap()), 4, false);
    assert_eq!(tinted.pixels.len(), 4 * 4 * 4);
    assert_eq!(&tinted.pixels[0..4], &[54, 54, 54, 255]);
    let colored = preprocess_shape(img, 4, true);
    assert_eq!(colored.pixels.len(), 64);
    assert_eq!(&colored.pixels[0..4], &[255, 0, 0, 255]);
}

#[test]
fn loaded_layers_hold_four_bytes_per_layer_pixel() {
    let a = ShapeImage::Rgba8(RgbaFrame::from_raw(3, 1, vec![10; 12]).unwrap());
    let b = ShapeImage::Rgba16(Rgba16Frame::from_raw(1, 5, vec![51400; 20]).unwrap());
    let layers = load_and_preprocess("shapes", vec![Some(a), None, Some(b)], 6, false).unwrap();
    assert_eq!(layers.len(), 2);
    for layer in &layers {
        assert_eq!(layer.pixels.len(), 4 * 6 * 6);
    }
}

#[test]
fn layers_beyond_the_gpu_limit_are_dropped() {
    let layer = |v: u8| ShapeLayer { pixels: vec![v; 4] };
    let mut layers = vec![layer(1), layer(2), layer(3)];
    assert!(keep_first_layers(&mut layers, 2));
    assert_eq!(layers.iter().map(|l| l.pixels[0]).collect::<Vec<_>>(), vec![1, 2]);
    assert!(!keep_first_layers(&mut layers, 2));
    assert!(!keep_first_layers(&mut layers, 5));
    assert_eq!(layers.len(), 2);
    assert!(keep_first_layers(&mut layers, 0));
    assert!(layers.is_empty());
}

#[test]
fn sixteen_bit_shapes_are_resampled_before_narrowing() {
    // Two pixels, black and a dark grey of 256/65535, averaged into one.
    let wide = Rgba16Frame::from_raw(2, 1, vec![0, 0, 0, 65535, 256, 256, 256, 65535]).unwrap();
    let layer = preprocess_shape(ShapeImage::Rgba16(wide), 1, true);
    // The 16-bit average 128 narrows to 0; narrowing first would give 1.
    assert_eq!(layer.pixels, vec![0, 0, 0, 255]);
    let narrow_first = RgbaFrame::from_raw(2, 1, vec![0, 0, 0, 255, 1, 1, 1, 255]).unwrap();
    assert_eq!(preprocess_shape(ShapeImage::Rgba8(narrow_first), 1, true).pixels, vec![1, 1, 1, 255]);
    // Narrowing rounds to nearest: 65535 -> 255, 32896 -> 128.
    let full = Rgba16Frame::from_raw(1, 1, vec![65535, 32896, 129, 128]).unwrap();
    assert_eq!(preprocess_shape(ShapeImage::Rgba16(full), 1, true).pixels, vec![255, 128, 1, 0]);
}
