//! Choosing the adapter and the surface format the GPU context runs on.

use vstd::prelude::*;

verus! {

/// What the adapter choice reads of each enumerated GPU adapter.
#[derive(Clone, Copy, Debug)]
pub struct AdapterSummary {
    /// The adapter can present to the window's surface.
    pub surface_supported: bool,
    /// The adapter is a discrete GPU.
    pub discrete: bool,
}

/// `i` is the first index of `s` whose element satisfies `p`.
pub open spec fn first_such(s: Seq<AdapterSummary>, p: spec_fn(AdapterSummary) -> bool, i: int) -> bool {
    &&& 0 <= i < s.len()
    &&& p(s[i])
    &&& forall|j: int| 0 <= j < i ==> !p(#[trigger] s[j])
}

/// Usable and discrete.
pub open spec fn usable_discrete(a: AdapterSummary) -> bool {
    a.surface_supported && a.discrete
}

/// Usable.
pub open spec fn usable(a: AdapterSummary) -> bool {
    a.surface_supported
}

/// Pick the adapter to run on, preferring discrete GPUs over integrated
/// graphics: the first surface-compatible discrete adapter, otherwise the
/// first surface-compatible adapter, otherwise none.
pub fn choose_adapter(adapters: &Vec<AdapterSummary>) -> (r: Option<usize>)
    ensures
        r is None <==> forall|j: int| 0 <= j < adapters@.len() ==> !usable(#[trigger] adapters@[j]),
        r matches Some(i) ==> {
            ||| first_such(adapters@, |a: AdapterSummary| usable_discrete(a), i as int)
            ||| (first_such(adapters@, |a: AdapterSummary| usable(a), i as int) && forall|j: int|
                0 <= j < adapters@.len() ==> !usable_discrete(#[trigger] adapters@[j]))
        },
{
    let mut discrete: Option<usize> = None;
    let mut any_compatible: Option<usize> = None;
    let mut k: usize = 0;
    while k < adapters.len()
        invariant
            k <= adapters@.len(),
            discrete is None <==> forall|j: int| 0 <= j < k ==> !usable_discrete(#[trigger] adapters@[j]),
            discrete matches Some(d) ==> d < k && first_such(adapters@, |a: AdapterSummary| usable_discrete(a), d as int),
            any_compatible is None <==> forall|j: int|
                0 <= j < k ==> !(usable(#[trigger] adapters@[j]) && !adapters@[j].discrete),
            any_compatible matches Some(c) ==> c < k && usable(adapters@[c as int]) && !adapters@[c as int].discrete
                && forall|j: int| 0 <= j < c ==> !(usable(#[trigger] adapters@[j]) && !adapters@[j].discrete),
        decreases adapters@.len() - k,
    {
        let a = adapters[k];
        if a.surface_supported {
            if a.discrete {
                if discrete.is_none() {
                    discrete = Some(k);
                }
            } else if any_compatible.is_none() {
                any_compatible = Some(k);
            }
        }
        k = k + 1;
    }
    match discrete {
        Some(d) => Some(d),
        None => {
            proof {
                if let Some(c) = any_compatible {
                    assert forall|j: int| 0 <= j < c implies !usable(#[trigger] adapters@[j]) by {
                        assert(!usable_discrete(adapters@[j]));
                    }
                } else {
                    assert forall|j: int| 0 <= j < adapters@.len() implies !usable(#[trigger] adapters@[j]) by {
                        assert(!usable_discrete(adapters@[j]));
                    }
                }
            }
            any_compatible
        },
    }
}

/// Pick the surface format: the first one that is not sRGB, otherwise the
/// first one offered.
pub fn choose_surface_format(is_srgb: &Vec<bool>) -> (r: usize)
    requires
        is_srgb@.len() > 0,
    ensures
        r < is_srgb@.len(),
        !is_srgb@[r as int] ==> forall|j: int| 0 <= j < r ==> #[trigger] is_srgb@[j],
        is_srgb@[r as int] ==> r == 0 && forall|j: int| 0 <= j < is_srgb@.len() ==> #[trigger] is_srgb@[j],
{
    let mut k: usize = 0;
    while k < is_srgb.len()
        invariant
            k <= is_srgb@.len(),
            forall|j: int| 0 <= j < k ==> #[trigger] is_srgb@[j],
        decreases is_srgb@.len() - k,
    {
        if !is_srgb[k] {
            return k;
        }
        k = k + 1;
    }
    0
}

} // verus!
