use gpu_image_approximator::types::RgbaFrame;

fn solid_target(r: u8, g: u8, b: u8, w: u32, h: u32) -> Vec<u8> {
    let mut data = Vec::with_capacity((w * h * 4) as usize);
    for _ in 0..(w * h) {
        data.extend_from_slice(&[r, g, b, 255]);
    }
    data
}

#[test]
fn test_color_sampling_solid_target() {
    let target = RgbaFrame::from_raw(16, 16, solid_target(100, 150, 200, 16, 16)).unwrap();

    // For a solid color target, the 3×3 average should be the same color
    let (avg_r, avg_g, avg_b) = target.sample_3x3_average(8, 8);
    assert_eq!(avg_r, 100);
    assert_eq!(avg_g, 150);
    assert_eq!(avg_b, 200);
}

#[test]
fn test_color_sampling_clamped_at_corner() {
    let target = RgbaFrame::from_raw(4, 4, solid_target(50, 100, 150, 4, 4)).unwrap();

    // Sampling at (0, 0) should clamp negative offsets to (0, 0)
    let (avg_r, avg_g, avg_b) = target.sample_3x3_average(0, 0);
    // For a solid target, clamping doesn't change the result
    assert_eq!(avg_r, 50);
    assert_eq!(avg_g, 100);
    assert_eq!(avg_b, 150);
}

#[test]
fn sampling_averages_and_rounds_down() {
    // 3×1 image: red channel 0, 10, 20; rows are clamped to the only one.
    let px = vec![0, 0, 0, 255, 10, 1, 0, 255, 20, 2, 0, 255];
    let img = RgbaFrame::from_raw(3, 1, px).unwrap();
    // Neighbourhood of x = 1: columns 0, 1, 2 three times each → (0+10+20)×3 / 9 = 10.
    assert_eq!(img.sample_3x3_average(1, 0), (10, 1, 0));
    // At x = 0 the left column is clamped: columns 0, 0, 1 → (0+0+10)×3 / 9 = 3.
    assert_eq!(img.sample_3x3_average(0, 0), (3, 0, 0));
    // Coordinates beyond the image clamp to its last column.
    assert_eq!(img.sample_3x3_average(50, 7), (20, 2, 0));
}

#[test]
fn frames_need_exactly_four_bytes_per_pixel() {
    assert!(RgbaFrame::from_raw(2, 2, vec![0; 15]).is_none());
    assert!(RgbaFrame::from_raw(2, 2, vec![0; 17]).is_none());
    let f = RgbaFrame::from_raw(2, 2, vec![3; 16]).unwrap();
    assert_eq!((f.width(), f.height()), (2, 2));
    assert_eq!(f.into_raw(), vec![3; 16]);
    assert!(RgbaFrame::from_raw(0, 5, Vec::new()).is_some());
}
