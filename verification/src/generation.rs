//! Per-frame bookkeeping of a generation run: how many placements one
//! rendered frame attempts, when the progress GIF captures the canvas, and
//! the numbering of the frames a video run writes.

use crate::io::output::{frame_filename, frame_name, lemma_frame_names_distinct};
use vstd::prelude::*;

verus! {

/// How many searches one rendered frame may run: it stops after
/// `mutations_per_frame` placements or `100 × mutations_per_frame` attempts.
#[derive(Clone, Copy, Debug)]
pub struct StepBudget {
    pub accepted: u32,
    pub attempts: u32,
    pub target: u32,
    pub max_attempts: u32,
}

impl StepBudget {
    /// The budget of one frame.
    pub fn new(mutations_per_frame: u32) -> (r: StepBudget)
        requires
            mutations_per_frame * 100 <= u32::MAX,
        ensures
            r.accepted == 0,
            r.attempts == 0,
            r.target == mutations_per_frame,
            r.max_attempts == mutations_per_frame * 100,
    {
        StepBudget { accepted: 0, attempts: 0, target: mutations_per_frame, max_attempts: mutations_per_frame * 100 }
    }

    /// Whether another search may run this frame.
    pub fn should_continue(&self) -> (r: bool)
        ensures
            r == (self.accepted < self.target && self.attempts < self.max_attempts),
    {
        self.accepted < self.target && self.attempts < self.max_attempts
    }

    /// Count one search, and one placement if it placed a shape.
    pub fn record(&mut self, accepted: bool)
        requires
            old(self).accepted < old(self).target,
            old(self).attempts < old(self).max_attempts,
        ensures
            final(self).attempts == old(self).attempts + 1,
            final(self).accepted == old(self).accepted + if accepted { 1int } else { 0int },
            final(self).target == old(self).target,
            final(self).max_attempts == old(self).max_attempts,
            final(self).accepted <= final(self).target,
            final(self).attempts <= final(self).max_attempts,
    {
        self.attempts = self.attempts + 1;
        if accepted {
            self.accepted = self.accepted + 1;
        }
    }
}

/// When the image-mode progress GIF captures the canvas: once the placed
/// shape count reaches `next_capture`, then every `stride` shapes.
#[derive(Clone, Copy, Debug)]
pub struct GifCapture {
    pub next_capture: u32,
    pub stride: u32,
}

/// The capture interval: about `gif_frames` captures over `max_shapes`
/// placements, at least one shape apart.
pub open spec fn capture_stride(max_shapes: u32, gif_frames: u32) -> nat {
    let frames: nat = if gif_frames == 0 { 1 } else { gif_frames as nat };
    let s = max_shapes as nat / frames;
    if s == 0 { 1 } else { s }
}

impl GifCapture {
    /// The schedule of a run: captures are spread across the placements when
    /// the GIF is enabled for an image; otherwise none is ever due before the
    /// counter saturates.
    pub fn new(max_shapes: u32, gif_frames: u32, is_video: bool, save_progress_gif: bool) -> (r: GifCapture)
        ensures
            r.stride == capture_stride(max_shapes, gif_frames),
            r.stride >= 1,
            r.next_capture == if !is_video && save_progress_gif {
                r.stride as int
            } else {
                u32::MAX as int
            },
    {
        let frames = if gif_frames == 0 { 1 } else { gif_frames };
        let s = max_shapes / frames;
        let stride = if s == 0 { 1 } else { s };
        let next_capture = if !is_video && save_progress_gif { stride } else { u32::MAX };
        GifCapture { next_capture, stride }
    }

    /// Whether a capture is due at `placed_shapes`.
    pub fn due(&self, placed_shapes: u32) -> (r: bool)
        ensures
            r == (placed_shapes >= self.next_capture),
    {
        placed_shapes >= self.next_capture
    }

    /// Move the next capture one stride on (saturating at `u32::MAX`).
    pub fn advance(&mut self)
        ensures
            final(self).stride == old(self).stride,
            final(self).next_capture == if old(self).next_capture + old(self).stride_or_one()
                > u32::MAX {
                u32::MAX as int
            } else {
                old(self).next_capture + old(self).stride_or_one()
            },
            final(self).next_capture > old(self).next_capture || final(self).next_capture == u32::MAX,
    {
        let step = if self.stride == 0 { 1 } else { self.stride };
        self.next_capture = self.next_capture.saturating_add(step);
    }

    /// The stride, never less than one.
    pub open spec fn stride_or_one(&self) -> nat {
        if self.stride == 0 { 1 } else { self.stride as nat }
    }
}


/// The schedule spreads about `gif_frames` captures over a run: when a run
/// of `max_shapes` placements has at least `gif_frames ≥ 1` of them, the
/// multiples of the stride within it number at least `gif_frames` and fewer
/// than twice as many.
pub proof fn lemma_capture_count(max_shapes: u32, gif_frames: u32)
    requires
        1 <= gif_frames <= max_shapes,
    ensures
        gif_frames <= max_shapes as nat / capture_stride(max_shapes, gif_frames),
        max_shapes as nat / capture_stride(max_shapes, gif_frames) < 2 * gif_frames,
{
    let m = max_shapes as nat;
    let f = gif_frames as nat;
    let s = m / f;
    assert(s >= 1) by (nonlinear_arith)
        requires
            1 <= f <= m,
            s == m / f,
    ;
    assert(capture_stride(max_shapes, gif_frames) == s);
    assert(f <= m / s) by (nonlinear_arith)
        requires
            s == m / f,
            s >= 1,
            f >= 1,
    ;
    assert(m / s < 2 * f) by (nonlinear_arith)
        requires
            s == m / f,
            s >= 1,
            f >= 1,
    ;
}

/// The numbering of the frames a video run writes (`frame_00000.png`,
/// `frame_00001.png`, …), which the final encode reads back in order.
#[derive(Clone, Copy, Debug)]
pub struct FrameSequence {
    pub next_index: u32,
}

/// How many interpolated frames are written before a keyframe: none before
/// the first keyframe, `interpolation_steps` before each later one.
pub open spec fn interpolated_count(interpolation_steps: u32, frame_number: u32) -> nat {
    if interpolation_steps > 0 && frame_number > 0 {
        interpolation_steps as nat
    } else {
        0
    }
}

/// A keyframe after the first is preceded by exactly `interpolation_steps`
/// in-between frames, whatever its number; the first keyframe (number 0), or
/// any keyframe when interpolation is off, gets none. So each batch of names
/// holds `interpolation_steps + 1` frames after the first keyframe, and one
/// frame otherwise, and two later keyframes get batches of the same size.
pub proof fn lemma_keyframe_batch_size(interpolation_steps: u32, n1: u32, n2: u32)
    ensures
        n1 > 0 ==> interpolated_count(interpolation_steps, n1) + 1 == interpolation_steps + 1,
        n1 == 0 ==> interpolated_count(interpolation_steps, n1) + 1 == 1,
        interpolation_steps == 0 ==> interpolated_count(interpolation_steps, n1) + 1 == 1,
        n1 > 0 && n2 > 0 ==> interpolated_count(interpolation_steps, n1) == interpolated_count(
            interpolation_steps,
            n2,
        ),
{
}

impl FrameSequence {
    /// A run that has written no frame yet.
    pub fn new() -> (r: FrameSequence)
        ensures
            r.next_index == 0,
    {
        FrameSequence { next_index: 0 }
    }

    /// The name of the next frame; the counter moves on.
    pub fn next_name(&mut self) -> (r: String)
        requires
            old(self).next_index < u32::MAX,
        ensures
            r@ == frame_name(old(self).next_index as nat),
            final(self).next_index == old(self).next_index + 1,
    {
        let name = frame_filename(self.next_index);
        self.next_index = self.next_index + 1;
        name
    }

    /// The names written when keyframe `frame_number` is complete: first
    /// the interpolated frames leading to it, then the keyframe itself, all
    /// numbered on from the frames written before.
    pub fn keyframe_names(&mut self, interpolation_steps: u32, frame_number: u32) -> (r: Vec<String>)
        requires
            old(self).next_index + interpolated_count(interpolation_steps, frame_number) + 1
                <= u32::MAX,
        ensures
            r@.len() == interpolated_count(interpolation_steps, frame_number) + 1,
            frame_number > 0 ==> r@.len() == interpolation_steps + 1,
            frame_number == 0 ==> r@.len() == 1,
            forall|i: int|
                0 <= i < r@.len() ==> #[trigger] r@[i]@ == frame_name((old(self).next_index + i) as nat),
            final(self).next_index == old(self).next_index + r@.len(),
    {
        let count: u32 = if interpolation_steps > 0 && frame_number > 0 {
            interpolation_steps
        } else {
            0
        };
        let ghost start = self.next_index;
        let mut names: Vec<String> = Vec::new();
        let mut i: u32 = 0;
        while i <= count
            invariant
                i <= count + 1,
                count == interpolated_count(interpolation_steps, frame_number),
                start + count + 1 <= u32::MAX,
                self.next_index == start + i,
                names@.len() == i,
                forall|k: int| 0 <= k < i ==> #[trigger] names@[k]@ == frame_name((start + k) as nat),
            decreases count + 1 - i,
        {
            let name = self.next_name();
            names.push(name);
            i = i + 1;
        }
        names
    }
}

/// The frames of a run never share a name: names handed out at different
/// positions of the sequence differ.
pub proof fn lemma_sequence_names_distinct(first: FrameSequence, i: nat, j: nat)
    requires
        i != j,
    ensures
        frame_name((first.next_index + i) as nat) != frame_name((first.next_index + j) as nat),
{
    lemma_frame_names_distinct((first.next_index + i) as nat, (first.next_index + j) as nat);
}
} // verus!
