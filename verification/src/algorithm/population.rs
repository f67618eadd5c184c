//! Integer bookkeeping of the video shape population: free slots and the
//! stable ids that match shapes across keyframes.

use vstd::prelude::*;

verus! {

/// How many shapes may still be added to a population of `shape_count`
/// shapes (taken as a 32-bit count) without exceeding `max_shapes`.
pub fn vacant_slots(shape_count: usize, max_shapes: u32) -> (r: u32)
    ensures
        r == if (shape_count as u32) >= max_shapes {
            0
        } else {
            max_shapes - (shape_count as u32)
        },
{
    let current = shape_count as u32;
    if current >= max_shapes {
        0
    } else {
        max_shapes - current
    }
}

/// Hands out the stable ids of placed shapes: 0, 1, 2, … in placement order.
#[derive(Clone, Copy, Debug)]
pub struct ShapeIds {
    pub next_id: u64,
}

impl ShapeIds {
    /// A counter that has handed out no id yet.
    pub fn new() -> (r: ShapeIds)
        ensures
            r.next_id == 0,
    {
        ShapeIds { next_id: 0 }
    }

    /// The id of the next placed shape.
    pub fn assign(&mut self) -> (id: u64)
        requires
            old(self).next_id < u64::MAX,
        ensures
            id == old(self).next_id,
            final(self).next_id == old(self).next_id + 1,
    {
        let id = self.next_id;
        self.next_id = self.next_id + 1;
        id
    }
}

proof fn lemma_id_gap(states: Seq<ShapeIds>, i: int, j: int)
    requires
        0 <= i <= j < states.len(),
        forall|k: int| 0 <= k < states.len() - 1 ==> #[trigger] states[k + 1].next_id == states[k].next_id + 1,
    ensures
        states[j].next_id == states[i].next_id + (j - i),
    decreases j - i,
{
    if i < j {
        lemma_id_gap(states, i, j - 1);
        assert(states[j - 1 + 1].next_id == states[j - 1].next_id + 1);
    }
}

/// Over a run of assignments (each counter state the one after the
/// previous `assign`), the ids handed out are 0, 1, 2, … from a fresh
/// counter, and no id is handed out twice.
pub proof fn lemma_assigned_ids_distinct(states: Seq<ShapeIds>)
    requires
        states.len() > 0,
        forall|k: int| 0 <= k < states.len() - 1 ==> #[trigger] states[k + 1].next_id == states[k].next_id + 1,
    ensures
        forall|i: int| 0 <= i < states.len() ==> #[trigger] states[i].next_id == states[0].next_id + i,
        forall|i: int, j: int| 0 <= i < j < states.len() ==> #[trigger] states[i].next_id < #[trigger] states[j].next_id,
{
    assert forall|i: int| 0 <= i < states.len() implies #[trigger] states[i].next_id == states[0].next_id + i by {
        lemma_id_gap(states, 0, i);
    }
}

} // verus!
