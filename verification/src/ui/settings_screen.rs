//! The rules that keep the settings form consistent: conflicting options are
//! resolved, irrelevant ones are greyed out, and list selections survive a
//! rescan.

use crate::io::media_loader::{is_video_path, media_kind, MediaKind};
use crate::text::str_equals;
use vstd::prelude::*;

verus! {

/// The switches of the form that other controls depend on.
#[derive(Clone, Copy, Debug, PartialEq, Eq, Structural)]
pub struct FormToggles {
    pub diversity_mode: bool,
    pub use_min_improvement: bool,
    pub use_original_colors: bool,
    pub save_progress_gif: bool,
    pub diversity_decay_enabled: bool,
}

/// Which controls of the form accept input (the others are greyed out).
#[derive(Clone, Copy, Debug, PartialEq, Eq, Structural)]
pub struct ControlAvailability {
    /// Hue, saturation and brightness evolution (real-colour mode only).
    pub color_evolution: bool,
    /// The min-improvement toggle (off in diversity mode).
    pub use_min_improvement: bool,
    /// The min-improvement threshold.
    pub min_improvement: bool,
    /// The diversity penalty and the decay toggle.
    pub diversity_params: bool,
    /// The decay amount.
    pub decay_amount: bool,
    /// The progress-GIF toggle (images only).
    pub gif_toggle: bool,
    /// The progress-GIF parameters.
    pub gif_params: bool,
    /// The video parameters (video input only).
    pub video_params: bool,
    /// Recolouring shapes to new frames (video with tinted shapes only).
    pub video_recolor: bool,
}

/// The toggles after resolving conflicts: diversity mode needs to accept the
/// best candidate every time, so it turns the min-improvement threshold off.
pub open spec fn smart_toggles(t: FormToggles) -> FormToggles {
    FormToggles { use_min_improvement: t.use_min_improvement && !t.diversity_mode, ..t }
}

/// Force the toggles into a self-consistent state (resolve conflicts).
pub fn enforce_smart_rules(toggles: &mut FormToggles)
    ensures
        *final(toggles) == smart_toggles(*old(toggles)),
{
    if toggles.diversity_mode {
        toggles.use_min_improvement = false;
    }
}

/// The availability of each dependent control.
pub open spec fn availability(t: FormToggles, is_video: bool) -> ControlAvailability {
    ControlAvailability {
        color_evolution: t.use_original_colors,
        use_min_improvement: !t.diversity_mode,
        min_improvement: t.use_min_improvement && !t.diversity_mode,
        diversity_params: t.diversity_mode,
        decay_amount: t.diversity_mode && t.diversity_decay_enabled,
        gif_toggle: !is_video,
        gif_params: !is_video && t.save_progress_gif,
        video_params: is_video,
        video_recolor: is_video && !t.use_original_colors,
    }
}

/// Which controls accept input for the selected media.
pub fn control_availability(toggles: &FormToggles, is_video: bool) -> (r: ControlAvailability)
    ensures
        r == availability(*toggles, is_video),
{
    ControlAvailability {
        color_evolution: toggles.use_original_colors,
        use_min_improvement: !toggles.diversity_mode,
        min_improvement: toggles.use_min_improvement && !toggles.diversity_mode,
        diversity_params: toggles.diversity_mode,
        decay_amount: toggles.diversity_mode && toggles.diversity_decay_enabled,
        gif_toggle: !is_video,
        gif_params: !is_video && toggles.save_progress_gif,
        video_params: is_video,
        video_recolor: is_video && !toggles.use_original_colors,
    }
}

/// Once the rules are enforced, diversity mode never runs with the
/// min-improvement threshold on; enforcing again changes nothing; and with
/// diversity mode on neither the threshold nor its toggle can be edited.
pub proof fn lemma_smart_rules(t: FormToggles, is_video: bool)
    ensures
        smart_toggles(t).diversity_mode ==> !smart_toggles(t).use_min_improvement,
        smart_toggles(smart_toggles(t)) == smart_toggles(t),
        t.diversity_mode ==> !availability(smart_toggles(t), is_video).use_min_improvement
            && !availability(smart_toggles(t), is_video).min_improvement,
        !t.diversity_mode ==> smart_toggles(t) == t,
{
}

/// Video options are editable exactly when a video is selected, and the GIF
/// toggle exactly when an image is.
pub proof fn lemma_media_dependent_controls(t: FormToggles, is_video: bool)
    ensures
        availability(t, is_video).video_params == is_video,
        availability(t, is_video).gif_toggle == !is_video,
        availability(t, is_video).gif_params ==> !is_video,
        availability(t, is_video).video_recolor ==> is_video,
{
}

/// The selection after the media list is rescanned: the previously selected
/// file where it still is, otherwise the first file, if any.
pub fn reselect_media(previous: Option<&String>, files: &Vec<String>) -> (r: Option<usize>)
    ensures
        r matches Some(i) ==> i < files@.len(),
        previous is Some && (exists|j: int|
            0 <= j < files@.len() && #[trigger] files@[j]@ == previous->0@) ==> (r matches Some(i)
            && files@[i as int]@ == previous->0@ && forall|j: int|
            0 <= j < i ==> #[trigger] files@[j]@ != previous->0@),
        (previous is None || forall|j: int| 0 <= j < files@.len() ==> #[trigger] files@[j]@ != previous->0@)
            ==> (r is None <==> files@.len() == 0) && (r matches Some(i) ==> i == 0),
{
    if let Some(p) = previous {
        let mut k: usize = 0;
        while k < files.len()
            invariant
                previous == Some(p),
                k <= files@.len(),
                forall|j: int| 0 <= j < k ==> #[trigger] files@[j]@ != p@,
            decreases files@.len() - k,
        {
            if files[k].eq(p) {
                return Some(k);
            }
            k = k + 1;
        }
    }
    if files.len() > 0 {
        Some(0)
    } else {
        None
    }
}

/// A selection index dropped when the list no longer reaches it.
pub fn clamp_selection(selected: Option<usize>, len: usize) -> (r: Option<usize>)
    ensures
        r == (match selected {
            Some(i) => if i < len {
                Some(i)
            } else {
                None
            },
            None => None,
        }),
{
    match selected {
        Some(i) => if i < len {
            Some(i)
        } else {
            None
        },
        None => None,
    }
}


/// Whether the selected entry of the media list is a video (false when
/// nothing, or nothing valid, is selected).
pub fn selected_is_video(files: &Vec<String>, selected: Option<usize>) -> (r: bool)
    ensures
        r == (match selected {
            Some(i) => i < files@.len() && media_kind(files@[i as int]@) == MediaKind::Video,
            None => false,
        }),
{
    match selected {
        Some(i) => if i < files.len() {
            is_video_path(files[i].as_str())
        } else {
            false
        },
        None => false,
    }
}

/// The index of the first entry of `names` equal to `name`, if any.
pub fn position_of(names: &Vec<String>, name: &str) -> (r: Option<usize>)
    ensures
        r is None <==> forall|j: int| 0 <= j < names@.len() ==> #[trigger] names@[j]@ != name@,
        r matches Some(i) ==> i < names@.len() && names@[i as int]@ == name@ && forall|j: int|
            0 <= j < i ==> #[trigger] names@[j]@ != name@,
{
    let mut k: usize = 0;
    while k < names.len()
        invariant
            k <= names@.len(),
            forall|j: int| 0 <= j < k ==> #[trigger] names@[j]@ != name@,
        decreases names@.len() - k,
    {
        if str_equals(names[k].as_str(), name) {
            return Some(k);
        }
        k = k + 1;
    }
    None
}
} // verus!
