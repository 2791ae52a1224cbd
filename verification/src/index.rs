use vstd::prelude::*;
use crate::bounds::Bounds3;

verus! {

struct Slot {
    live: bool,
    bounds: Bounds3,
    value: u64,
}

/// The broad phase's spatial index: a mutable collection from an opaque
/// per-entry identity to a bounds/value pair, with insert, remove,
/// bounds-update and an exact bounds-intersection query.
pub struct SpatialIndex {
    slots: Vec<Slot>,
}

impl SpatialIndex {
    /// The index's contents: a finite map from entry identity to the stored
    /// bounds and value.
    pub closed spec fn entries(self) -> Map<nat, (Bounds3, u64)> {
        Map::new(
            |i: nat| i < self.slots@.len() && self.slots@[i as int].live,
            |i: nat| (self.slots@[i as int].bounds, self.slots@[i as int].value),
        )
    }

    pub fn new() -> (r: SpatialIndex)
        ensures
            r.entries() == Map::<nat, (Bounds3, u64)>::empty(),
    {
        let r = SpatialIndex { slots: Vec::new() };
        proof {
            assert(r.entries() =~= Map::<nat, (Bounds3, u64)>::empty());
        }
        r
    }

    /// Insert a new entry and return its identity, which is distinct from the
    /// identity of every entry currently stored.
    pub fn insert(&mut self, bounds: Bounds3, value: u64) -> (id: usize)
        ensures
            !old(self).entries().contains_key(id as nat),
            final(self).entries() == old(self).entries().insert(id as nat, (bounds, value)),
    {
        let id = self.slots.len();
        self.slots.push(Slot { live: true, bounds, value });
        proof {
            assert(self.entries() =~= old(self).entries().insert(id as nat, (bounds, value)));
        }
        id
    }

    /// Relocate an entry whose bounds changed; the stored value is kept.
    pub fn update_bounds(&mut self, id: usize, bounds: Bounds3)
        requires
            old(self).entries().contains_key(id as nat),
        ensures
            final(self).entries() == old(self).entries().insert(
                id as nat,
                (bounds, old(self).entries()[id as nat].1),
            ),
    {
        let slot = &mut self.slots[id];
        slot.bounds = bounds;
        proof {
            assert(self.entries() =~= old(self).entries().insert(
                id as nat,
                (bounds, old(self).entries()[id as nat].1),
            ));
        }
    }

    /// Delete an entry, returning the value it stored.
    pub fn remove(&mut self, id: usize) -> (value: u64)
        requires
            old(self).entries().contains_key(id as nat),
        ensures
            value == old(self).entries()[id as nat].1,
            final(self).entries() == old(self).entries().remove(id as nat),
    {
        let slot = &mut self.slots[id];
        slot.live = false;
        let value = slot.value;
        proof {
            assert(self.entries() =~= old(self).entries().remove(id as nat));
        }
        value
    }

    /// All stored entries whose bounds overlap the query box, each exactly
    /// once, as (identity, value) pairs.
    pub fn intersections(&self, query: &Bounds3) -> (r: Vec<(usize, u64)>)
        ensures
            forall|k: int| 0 <= k < r@.len() ==> {
                &&& self.entries().contains_key(#[trigger] r@[k].0 as nat)
                &&& self.entries()[r@[k].0 as nat].1 == r@[k].1
                &&& self.entries()[r@[k].0 as nat].0.overlaps_spec(*query)
            },
            forall|id: nat|
                self.entries().contains_key(id)
                    && (#[trigger] self.entries()[id]).0.overlaps_spec(*query)
                    ==> exists|k: int| 0 <= k < r@.len() && r@[k].0 as nat == id,
            forall|k1: int, k2: int|
                0 <= k1 < r@.len() && 0 <= k2 < r@.len() && k1 != k2
                    ==> (#[trigger] r@[k1]).0 != (#[trigger] r@[k2]).0,
    {
        let mut r: Vec<(usize, u64)> = Vec::new();
        let mut i: usize = 0;
        while i < self.slots.len()
            invariant
                i <= self.slots@.len(),
                forall|k: int| 0 <= k < r@.len() ==> {
                    &&& self.entries().contains_key(#[trigger] r@[k].0 as nat)
                    &&& self.entries()[r@[k].0 as nat].1 == r@[k].1
                    &&& self.entries()[r@[k].0 as nat].0.overlaps_spec(*query)
                    &&& r@[k].0 < i
                },
                forall|id: nat|
                    id < i && self.entries().contains_key(id)
                        && (#[trigger] self.entries()[id]).0.overlaps_spec(*query)
                        ==> exists|k: int| 0 <= k < r@.len() && r@[k].0 as nat == id,
                forall|k1: int, k2: int|
                    0 <= k1 < r@.len() && 0 <= k2 < r@.len() && k1 != k2
                        ==> (#[trigger] r@[k1]).0 != (#[trigger] r@[k2]).0,
            decreases self.slots@.len() - i,
        {
            let ghost r_prev = r@;
            let slot = &self.slots[i];
            if slot.live && slot.bounds.overlaps(query) {
                r.push((i, slot.value));
            }
            proof {
                assert forall|id: nat|
                    id < i + 1 && self.entries().contains_key(id)
                        && (#[trigger] self.entries()[id]).0.overlaps_spec(*query)
                        implies exists|k: int| 0 <= k < r@.len() && r@[k].0 as nat == id by {
                    if id < i {
                        let k = choose|k: int| 0 <= k < r_prev.len() && r_prev[k].0 as nat == id;
                        assert(r@[k].0 as nat == id);
                    } else {
                        assert(r@[r@.len() - 1].0 as nat == id);
                    }
                }
            }
            i += 1;
        }
        r
    }
}

} // verus!
