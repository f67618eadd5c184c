//! The counters that drive the placement loop: how many shapes are placed,
//! how many searches in a row found nothing, and when the run is complete.

use crate::types::GenerationState;
use vstd::prelude::*;

verus! {

/// Placement progress of the evolutionary shape placer.
#[derive(Clone, Copy, Debug)]
pub struct ClimberProgress {
    /// Number of shapes successfully placed on the canvas
    pub placed_shapes: u32,
    /// Count of consecutive rejections (used for stopping criterion)
    pub consecutive_rejections: u32,
    /// Current state of the generation process
    pub state: GenerationState,
}

/// Whether a run with this progress has met its stopping criterion: too many
/// searches in a row found nothing, or the shape limit is reached.
pub open spec fn run_finished(p: ClimberProgress, max_rejections: u32, max_shapes: u32) -> bool {
    p.consecutive_rejections >= max_rejections || p.placed_shapes >= max_shapes
}

/// The progress after one search that placed a shape (`accepted`) or found
/// none good enough.
pub open spec fn after_search(p: ClimberProgress, accepted: bool) -> ClimberProgress {
    if accepted {
        ClimberProgress { placed_shapes: (p.placed_shapes + 1) as u32, consecutive_rejections: 0, ..p }
    } else {
        ClimberProgress { consecutive_rejections: (p.consecutive_rejections + 1) as u32, ..p }
    }
}

impl ClimberProgress {
    /// A fresh run: nothing placed, running.
    pub fn new() -> (r: ClimberProgress)
        ensures
            r.placed_shapes == 0,
            r.consecutive_rejections == 0,
            r.state == GenerationState::Running,
    {
        ClimberProgress { placed_shapes: 0, consecutive_rejections: 0, state: GenerationState::Running }
    }

    /// The stopping criterion checked before every search: once it holds the
    /// run is marked completed and `true` is returned.
    pub fn check_completed(&mut self, max_rejections: u32, max_shapes: u32) -> (done: bool)
        ensures
            done == run_finished(*old(self), max_rejections, max_shapes),
            done ==> *final(self) == (ClimberProgress { state: GenerationState::Completed, ..*old(self) }),
            !done ==> *final(self) == *old(self),
    {
        if self.consecutive_rejections >= max_rejections || self.placed_shapes >= max_shapes {
            self.state = GenerationState::Completed;
            return true;
        }
        false
    }

    /// A search placed its best candidate: one more shape, the rejection
    /// streak ends.
    pub fn record_accepted(&mut self)
        requires
            old(self).placed_shapes < u32::MAX,
        ensures
            *final(self) == after_search(*old(self), true),
    {
        self.placed_shapes = self.placed_shapes + 1;
        self.consecutive_rejections = 0;
    }

    /// A search found no candidate good enough.
    pub fn record_rejected(&mut self)
        requires
            old(self).consecutive_rejections < u32::MAX,
        ensures
            *final(self) == after_search(*old(self), false),
    {
        self.consecutive_rejections = self.consecutive_rejections + 1;
    }

    /// Mark the run as already full so that its next check completes at once
    /// (used between video frames, where the pipeline places the shapes).
    pub fn mark_full(&mut self, max_shapes: u32)
        ensures
            *final(self) == (ClimberProgress { placed_shapes: max_shapes, ..*old(self) }),
    {
        self.placed_shapes = max_shapes;
    }
}

/// A search only runs when the stopping criterion does not hold, so the
/// counters stay within their limits: never more than `max_shapes` shapes,
/// never more than `max_rejections` rejections in a row.
pub proof fn lemma_search_respects_limits(p: ClimberProgress, accepted: bool, max_rejections: u32, max_shapes: u32)
    requires
        !run_finished(p, max_rejections, max_shapes),
    ensures
        after_search(p, accepted).placed_shapes <= max_shapes,
        after_search(p, accepted).consecutive_rejections <= max_rejections,
{
}

/// `max_rejections` searches in a row without a placement end the run, and
/// a placement always clears the streak.
pub proof fn lemma_rejection_streak_completes(p: ClimberProgress, max_rejections: u32, max_shapes: u32)
    requires
        p.consecutive_rejections + 1 == max_rejections,
    ensures
        run_finished(after_search(p, false), max_rejections, max_shapes),
        after_search(p, true).consecutive_rejections == 0,
{
}

} // verus!
