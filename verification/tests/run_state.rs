use gpu_image_approximator::algorithm::hill_climber::ClimberProgress;
use gpu_image_approximator::generation::{GifCapture, StepBudget};
use gpu_image_approximator::gpu::context::{choose_adapter, choose_surface_format, AdapterSummary};
use gpu_image_approximator::overlay::state::{
    add_notification, cleanup_notifications, push_frame_time, Notification, MAX_FRAME_TIMES,
};
use gpu_image_approximator::text::{decimal_string, trim};
use gpu_image_approximator::types::GenerationState;

#[test]
fn pause_toggles_and_completion_sticks() {
    assert_eq!(GenerationState::Running.toggle_pause(), GenerationState::Paused);
    assert_eq!(GenerationState::Paused.toggle_pause(), GenerationState::Running);
    assert_eq!(GenerationState::Completed.toggle_pause(), GenerationState::Completed);
    for s in [GenerationState::Running, GenerationState::Paused, GenerationState::Completed] {
        assert_eq!(s.toggle_pause().toggle_pause(), s);
    }
}

#[test]
fn climber_completes_on_rejections_or_shape_limit() {
    let mut p = ClimberProgress::new();
    assert!(!p.check_completed(2, 3));
    p.record_rejected();
    p.record_rejected();
    assert!(p.check_completed(2, 3));
    assert_eq!(p.state, GenerationState::Completed);

    let mut q = ClimberProgress::new();
    q.record_rejected();
    q.record_accepted();
    assert_eq!(q.consecutive_rejections, 0);
    assert_eq!(q.placed_shapes, 1);
    q.record_accepted();
    q.record_accepted();
    assert!(q.check_completed(50, 3));

    let mut r = ClimberProgress::new();
    r.mark_full(10);
    assert_eq!(r.placed_shapes, 10);
    assert!(r.check_completed(50, 10));
}

#[test]
fn frame_budget_stops_at_target_or_attempts() {
    let mut b = StepBudget::new(2);
    assert_eq!(b.max_attempts, 200);
    assert!(b.should_continue());
    b.record(true);
    b.record(false);
    b.record(true);
    assert!(!b.should_continue());
    assert_eq!((b.accepted, b.attempts), (2, 3));

    let mut c = StepBudget::new(1);
    for _ in 0..100 {
        assert!(c.should_continue());
        c.record(false);
    }
    assert!(!c.should_continue());
    assert!(!StepBudget::new(0).should_continue());
}

#[test]
fn gif_capture_schedule() {
    let mut g = GifCapture::new(4000, 120, false, true);
    assert_eq!(g.stride, 33);
    assert_eq!(g.next_capture, 33);
    assert!(!g.due(32));
    assert!(g.due(33));
    g.advance();
    assert_eq!(g.next_capture, 66);

    let off = GifCapture::new(4000, 120, true, true);
    assert_eq!(off.next_capture, u32::MAX);
    let disabled = GifCapture::new(4000, 120, false, false);
    assert!(!disabled.due(1_000_000));
    let few = GifCapture::new(10, 2000, false, true);
    assert_eq!(few.stride, 1);
    let zero = GifCapture::new(10, 0, false, true);
    assert_eq!(zero.stride, 10);
    let mut top = GifCapture { next_capture: u32::MAX - 1, stride: 5 };
    top.advance();
    assert_eq!(top.next_capture, u32::MAX);
}

fn note(msg: &str, at: u64) -> Notification {
    Notification { message: msg.to_string(), expires_at: at, is_error: false }
}

#[test]
fn at_most_five_notifications_newest_kept() {
    let mut list = Vec::new();
    for i in 0..7u64 {
        add_notification(&mut list, note(&format!("n{}", i), 100 + i));
    }
    assert_eq!(list.len(), 5);
    assert_eq!(list[0].message, "n2");
    assert_eq!(list[4].message, "n6");
}

#[test]
fn expired_notifications_are_removed_in_order() {
    let mut list = vec![note("a", 10), note("b", 30), note("c", 20), note("d", 40)];
    cleanup_notifications(&mut list, 20);
    let left: Vec<&str> = list.iter().map(|n| n.message.as_str()).collect();
    assert_eq!(left, ["b", "d"]);
    cleanup_notifications(&mut list, 20);
    assert_eq!(list.len(), 2);
    cleanup_notifications(&mut list, 1000);
    assert!(list.is_empty());
}

#[test]
fn adapter_preference() {
    let a = |s, d| AdapterSummary { surface_supported: s, discrete: d };
    assert_eq!(choose_adapter(&vec![a(true, false), a(true, true), a(true, true)]), Some(1));
    assert_eq!(choose_adapter(&vec![a(false, true), a(true, false), a(true, false)]), Some(1));
    assert_eq!(choose_adapter(&vec![a(false, true), a(false, false)]), None);
    assert_eq!(choose_adapter(&Vec::new()), None);
}

#[test]
fn surface_format_preference() {
    assert_eq!(choose_surface_format(&vec![true, false, false]), 1);
    assert_eq!(choose_surface_format(&vec![false, true]), 0);
    assert_eq!(choose_surface_format(&vec![true, true]), 0);
}

#[test]
fn text_helpers() {
    assert_eq!(decimal_string(0), "0");
    assert_eq!(decimal_string(18_446_744_073_709_551_615), "18446744073709551615");
    assert_eq!(trim("\t  hi there \n"), "hi there");
    assert_eq!(trim("   "), "");
    assert_eq!(trim("\u{3000}x\u{00a0}"), "x");
}

#[test]
fn gif_captures_number_about_gif_frames() {
    for &(max_shapes, frames) in &[(4000u32, 120u32), (10, 4), (11, 6), (100, 100), (1000, 7)] {
        let mut g = GifCapture::new(max_shapes, frames, false, true);
        let mut captures = 0;
        for placed in 1..=max_shapes {
            if g.due(placed) {
                captures += 1;
                g.advance();
            }
        }
        assert!(captures >= frames && captures < 2 * frames, "{} {}", max_shapes, frames);
    }
}

#[test]
fn frame_time_window_keeps_the_latest_sixty() {
    let mut times = Vec::new();
    for t in 0..100u64 {
        push_frame_time(&mut times, t * 10);
    }
    assert_eq!(times.len(), MAX_FRAME_TIMES);
    assert_eq!(times[0], 400);
    assert_eq!(*times.last().unwrap(), 990);
    let mut short = vec![5u64];
    push_frame_time(&mut short, 7);
    assert_eq!(short, vec![5, 7]);
}
