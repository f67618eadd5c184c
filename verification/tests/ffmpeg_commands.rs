use gpu_image_approximator::io::video::{
    assemble_video_args, check_frame_size, decoder_args, encoder_args, first_frame_args,
    first_frame_file_args, first_raw_frame, parse_probe_dimensions, parse_u32, probe_args,
};
use gpu_image_approximator::AppError;

fn strs(v: &[String]) -> Vec<&str> {
    v.iter().map(|s| s.as_str()).collect()
}

#[test]
fn decoder_resamples_to_the_target_rate() {
    let args = decoder_args("in/clip.mp4", 12);
    assert_eq!(
        strs(&args),
        ["-i", "in/clip.mp4", "-vf", "fps=12", "-f", "rawvideo", "-pix_fmt", "rgba", "-v", "quiet", "-"]
    );
}

#[test]
fn encoder_takes_raw_frames_of_the_video_size() {
    let args = encoder_args("out/clip_result.mp4", 1920, 1080, "12");
    assert_eq!(
        strs(&args),
        [
            "-y", "-f", "rawvideo", "-pix_fmt", "rgba", "-s", "1920x1080", "-r", "12", "-i", "-",
            "-c:v", "libx264", "-pix_fmt", "yuv420p", "-v", "quiet", "out/clip_result.mp4"
        ]
    );
}

#[test]
fn assembly_maps_the_source_audio_when_asked() {
    let with = assemble_video_args("36", "out/frame_%05d.png", "in/clip.mp4", "out/clip_result.mp4", true);
    assert_eq!(
        strs(&with),
        [
            "-y", "-framerate", "36", "-i", "out/frame_%05d.png", "-i", "in/clip.mp4", "-map", "0:v:0",
            "-map", "1:a:0?", "-c:a", "aac", "-shortest", "-c:v", "libx264", "-pix_fmt", "yuv420p",
            "-v", "quiet", "out/clip_result.mp4"
        ]
    );
    let without = assemble_video_args("36", "f_%05d.png", "in/clip.mp4", "o.mp4", false);
    assert_eq!(
        strs(&without),
        ["-y", "-framerate", "36", "-i", "f_%05d.png", "-c:v", "libx264", "-pix_fmt", "yuv420p", "-v", "quiet", "o.mp4"]
    );
    // No source path: nothing to take the audio from.
    let no_source = assemble_video_args("36", "f_%05d.png", "", "o.mp4", true);
    assert_eq!(no_source.len(), 12);
}

#[test]
fn first_frame_commands() {
    assert_eq!(
        strs(&first_frame_args("v.mp4")),
        ["-i", "v.mp4", "-vframes", "1", "-f", "image2pipe", "-pix_fmt", "rgba", "-vcodec", "rawvideo", "-v", "quiet", "-"]
    );
    assert_eq!(
        strs(&first_frame_file_args("v.mp4", "/tmp/f0.png")),
        ["-y", "-i", "v.mp4", "-vframes", "1", "-v", "quiet", "/tmp/f0.png"]
    );
    assert_eq!(
        strs(&probe_args("stream=width,height", "v.mp4")),
        ["-v", "quiet", "-select_streams", "v:0", "-show_entries", "stream=width,height", "-of", "csv=p=0", "v.mp4"]
    );
}

#[test]
fn encoder_frames_must_have_the_exact_size() {
    assert!(check_frame_size(2 * 3 * 4, 2, 3).is_ok());
    match check_frame_size(10, 2, 3) {
        Err(AppError::Ffmpeg(m)) => assert_eq!(m, "encode_frame: expected 24 bytes, got 10"),
        _ => panic!("expected an Ffmpeg error"),
    }
}

#[test]
fn unsigned_numbers_parse_like_std() {
    assert_eq!(parse_u32("0"), Some(0));
    assert_eq!(parse_u32("1920"), Some(1920));
    assert_eq!(parse_u32("+7"), Some(7));
    assert_eq!(parse_u32("007"), Some(7));
    assert_eq!(parse_u32("4294967295"), Some(u32::MAX));
    assert_eq!(parse_u32("4294967296"), None);
    assert_eq!(parse_u32("99999999999999999999"), None);
    for bad in ["", "+", "-1", " 1", "1 ", "12a", "N/A", "1.5"] {
        assert_eq!(parse_u32(bad), None, "{:?}", bad);
        assert_eq!(parse_u32(bad), bad.parse::<u32>().ok(), "{:?}", bad);
    }
    for good in ["0", "42", "+42", "0004294967295"] {
        assert_eq!(parse_u32(good), good.parse::<u32>().ok(), "{:?}", good);
    }
}

#[test]
fn probe_dimensions() {
    assert_eq!(parse_probe_dimensions("1920,1080\n"), Some((1920, 1080)));
    assert_eq!(parse_probe_dimensions("  640,360,extra"), Some((640, 360)));
    assert_eq!(parse_probe_dimensions("abc,"), Some((640, 480)));
    assert_eq!(parse_probe_dimensions("320,x"), Some((320, 480)));
    assert_eq!(parse_probe_dimensions("1920"), None);
    assert_eq!(parse_probe_dimensions(""), None);
}

#[test]
fn first_raw_frame_takes_the_leading_bytes() {
    let out: Vec<u8> = (0..10).collect();
    assert_eq!(first_raw_frame(&out, 1, 2), Some((0..8).collect::<Vec<u8>>()));
    assert_eq!(first_raw_frame(&out, 3, 1), None);
    assert_eq!(first_raw_frame(&out, 0, 7), Some(Vec::new()));
}
