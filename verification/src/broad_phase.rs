use vstd::prelude::*;
use std::collections::HashMap;
use crate::VAL_MAX;
use crate::bounds::Bounds3;
use crate::index::SpatialIndex;

verus! {

broadcast use vstd::std_specs::hash::group_hash_axioms;

/// A candidate pair of colliders discovered or dropped by the broad phase.
#[derive(Clone, Copy, PartialEq, Eq, Structural, Debug)]
pub struct ColliderPair {
    pub collider1: u64,
    pub collider2: u64,
}

/// An event emitted by one broad-phase update.
#[derive(Clone, Copy, PartialEq, Eq, Structural, Debug)]
pub enum BroadPhasePairEvent {
    AddPair(ColliderPair),
    DeletePair(ColliderPair),
}

/// What one update reads of a modified collider, as plain values: its handle,
/// the flags deciding whether its bounds are refreshed, its collision box at
/// zero skin, its owning body's soft continuous-detection prediction margin
/// (zero without one), and, exactly when that margin is positive, the box at
/// the body's velocity-and-force-predicted pose loosened by the contact skin.
#[derive(Clone, Copy, PartialEq, Eq, Structural, Debug)]
pub struct ModifiedCollider {
    pub handle: u64,
    pub enabled: bool,
    pub needs_update: bool,
    pub aabb: Bounds3,
    pub soft_ccd_prediction: i64,
    pub predicted_aabb: Option<Bounds3>,
}

impl ModifiedCollider {
    pub open spec fn wf(self) -> bool {
        &&& self.aabb.wf()
        &&& (self.predicted_aabb matches Option::Some(b) ==> b.wf())
        &&& (self.soft_ccd_prediction > 0 <==> self.predicted_aabb is Some)
    }

    /// Whether this update refreshes the collider's bounds at all.
    pub open spec fn refreshed(self) -> bool {
        self.enabled && self.needs_update
    }

    /// The bounds stored for the collider: its own box, merged with the
    /// predicted-pose box when the owning body opted into soft prediction.
    pub open spec fn new_bounds_spec(self) -> Bounds3 {
        match self.predicted_aabb {
            Option::Some(p) => if self.soft_ccd_prediction > 0 {
                self.aabb.merged_spec(p)
            } else {
                self.aabb
            },
            Option::None => self.aabb,
        }
    }
}

/// Per-collider bookkeeping owned by the broad phase: the spatial-index entry
/// identity, the last bounds handed to the index, and the set of colliders
/// currently considered touching, kept without duplicates.
pub struct ColliderMeta {
    pub id: usize,
    pub bounds: Bounds3,
    pub touching: Vec<u64>,
}

impl Default for ColliderMeta {
    fn default() -> (r: Self)
        ensures
            r.id == 0,
            r.bounds == (Bounds3 {
                min_x: 0, min_y: 0, min_z: 0, max_x: 0, max_y: 0, max_z: 0,
            }),
            r.touching@ == Seq::<u64>::empty(),
    {
        ColliderMeta {
            id: 0,
            bounds: Bounds3 { min_x: 0, min_y: 0, min_z: 0, max_x: 0, max_y: 0, max_z: 0 },
            touching: Vec::new(),
        }
    }
}

/// The collider a pair event was emitted for: the first handle it names.
pub open spec fn event_source(e: BroadPhasePairEvent) -> u64 {
    match e {
        BroadPhasePairEvent::AddPair(p) => p.collider1,
        BroadPhasePairEvent::DeletePair(p) => p.collider1,
    }
}

/// The broad phase: a spatial index over all tracked colliders plus the
/// per-collider metadata, driven by per-step modified/removed deltas and
/// emitting pair events.
pub struct BroadPhaseSieveTree {
    index: SpatialIndex,
    meta: HashMap<u64, ColliderMeta>,
}

impl BroadPhaseSieveTree {
    /// Whether a collider is currently tracked.
    pub closed spec fn contains(self, h: u64) -> bool {
        self.meta@.contains_key(h)
    }

    /// The bounds currently stored for a tracked collider.
    pub closed spec fn bounds_of(self, h: u64) -> Bounds3 {
        self.meta@[h].bounds
    }

    pub closed spec fn id_of(self, h: u64) -> nat {
        self.meta@[h].id as nat
    }

    /// Whether `b` is recorded in `a`'s touching set.
    pub closed spec fn touches(self, a: u64, b: u64) -> bool {
        self.meta@.contains_key(a) && self.meta@[a].touching@.contains(b)
    }

    pub closed spec fn tree(self) -> Map<nat, (Bounds3, u64)> {
        self.index.entries()
    }

    /// Internal well-formedness: metadata and the spatial index agree entry
    /// for entry, stored bounds are well formed, no collider touches itself,
    /// touching sets hold no duplicates, and touching is symmetric over the
    /// tracked colliders.
    pub closed spec fn wf(self) -> bool {
        &&& forall|h: u64| #[trigger] self.meta@.contains_key(h) ==> {
            &&& self.index.entries().contains_key(self.meta@[h].id as nat)
            &&& self.index.entries()[self.meta@[h].id as nat] == (self.meta@[h].bounds, h)
            &&& self.meta@[h].bounds.wf()
            &&& !self.meta@[h].touching@.contains(h)
            &&& self.meta@[h].touching@.no_duplicates()
        }
        &&& forall|id: nat| #[trigger] self.index.entries().contains_key(id) ==> {
            &&& self.meta@.contains_key(self.index.entries()[id].1)
            &&& self.meta@[self.index.entries()[id].1].id as nat == id
        }
        &&& forall|a: u64, b: u64| #[trigger] self.touches(a, b) ==> self.contains(b)
        &&& forall|a: u64, b: u64|
            self.contains(a) && self.contains(b)
                ==> ((#[trigger] self.touches(a, b)) == self.touches(b, a))
    }

    /// The pair bookkeeping is exact for a prediction margin `p`: two distinct
    /// tracked colliders are recorded as touching exactly when their stored
    /// bounds, one loosened by `p`, overlap.
    pub open spec fn consistent(self, p: int) -> bool {
        forall|a: u64, b: u64|
            self.contains(a) && self.contains(b) && a != b
                ==> ((#[trigger] self.touches(a, b))
                    <==> self.bounds_of(a).near(self.bounds_of(b), p))
    }

    /// Create a new empty broad-phase.
    pub fn new() -> (r: Self)
        ensures
            r.wf(),
            forall|h: u64| !(#[trigger] r.contains(h)),
            forall|a: u64, b: u64| !(#[trigger] r.touches(a, b)),
            forall|p: int| #[trigger] r.consistent(p),
    {
        let r = BroadPhaseSieveTree { index: SpatialIndex::new(), meta: HashMap::new() };
        proof {
            assert(forall|h: u64| !(#[trigger] r.meta@.contains_key(h)));
        }
        r
    }

    /// Delete a collider's metadata and its spatial-index entry, and erase the
    /// reciprocal entry from each partner's touching set so that no record of
    /// the collider survives. The index must return the collider's own handle
    /// for the stored entry identity: a mismatch would mean the bookkeeping
    /// desynchronized, which well-formed states rule out.
    fn remove_collider(&mut self, handle: u64)
        requires
            old(self).wf(),
            old(self).contains(handle),
        ensures
            final(self).wf(),
            forall|h: u64| (#[trigger] final(self).contains(h))
                == (old(self).contains(h) && h != handle),
            forall|h: u64| h != handle && old(self).contains(h)
                ==> (#[trigger] final(self).bounds_of(h)) == old(self).bounds_of(h)
                    && (#[trigger] final(self).id_of(h)) == old(self).id_of(h),
            final(self).tree() == old(self).tree().remove(old(self).id_of(handle)),
            forall|a: u64, b: u64| (#[trigger] final(self).touches(a, b))
                == (old(self).touches(a, b) && a != handle && b != handle),
    {
        let meta = match self.meta.remove(&handle) {
            Option::Some(m) => m,
            Option::None => { proof { assert(false); } vstd::pervasive::unreached() }
        };
        let removed = self.index.remove(meta.id);
        assert(removed == handle);
        let partners = meta.touching;
        let ghost mid = *self;
        let mut i: usize = 0;
        while i < partners.len()
            invariant
                i <= partners@.len(),
                old(self).wf(),
                old(self).contains(handle),
                partners@ == old(self).meta@[handle].touching@,
                partners@.no_duplicates(),
                mid.meta@ == old(self).meta@.remove(handle),
                mid.index.entries() == old(self).tree().remove(old(self).id_of(handle)),
                self.index == mid.index,
                forall|h: u64| (#[trigger] self.meta@.contains_key(h)) == mid.meta@.contains_key(h),
                forall|h: u64| #[trigger] self.meta@.contains_key(h)
                    ==> self.meta@[h].bounds == mid.meta@[h].bounds
                        && self.meta@[h].id == mid.meta@[h].id
                        && self.meta@[h].touching@.no_duplicates(),
                forall|a: u64, b: u64| (#[trigger] self.touches(a, b))
                    == (mid.touches(a, b)
                        && !(b == handle && exists|j: int| 0 <= j < i && partners@[j] == a)),
            decreases partners@.len() - i,
        {
            let t = partners[i];
            proof {
                assert(partners@[i as int] == t);
                assert(partners@.contains(t));
                assert(old(self).meta@.contains_key(handle));
                assert(old(self).touches(handle, t));
                assert(old(self).contains(t));
                assert(old(self).touches(t, handle));
                assert(t != handle);
                assert(mid.meta@.contains_key(t));
                assert(self.meta@.contains_key(t));
            }
            let ghost pre_iter = *self;
            let mut m = match self.meta.remove(&t) {
                Option::Some(m) => m,
                Option::None => { proof { assert(false); } vstd::pervasive::unreached() }
            };
            vec_remove_item(&mut m.touching, handle);
            self.meta.insert(t, m);
            proof {
                assert forall|a: u64, b: u64| (#[trigger] self.touches(a, b))
                    == (mid.touches(a, b)
                        && !(b == handle && exists|j: int| 0 <= j < i + 1 && partners@[j] == a)) by {
                    if a == t {
                        assert(self.touches(a, b) == (pre_iter.touches(a, b) && b != handle));
                        assert(pre_iter.touches(a, b)
                            == (mid.touches(a, b)
                                && !(b == handle
                                    && exists|j: int| 0 <= j < i && partners@[j] == a)));
                        if b == handle {
                            assert(partners@[i as int] == a);
                            assert(exists|j: int| 0 <= j < i + 1 && partners@[j] == a);
                        }
                    } else {
                        assert(self.touches(a, b) == pre_iter.touches(a, b));
                        if b == handle && exists|j: int| 0 <= j < i + 1 && partners@[j] == a {
                            let j = choose|j: int| 0 <= j < i + 1 && partners@[j] == a;
                            assert(j != i);
                            assert(exists|jj: int| 0 <= jj < i && partners@[jj] == a);
                        }
                        if b == handle && exists|j: int| 0 <= j < i && partners@[j] == a {
                            let j = choose|j: int| 0 <= j < i && partners@[j] == a;
                            assert(exists|jj: int| 0 <= jj < i + 1 && partners@[jj] == a);
                        }
                    }
                }
            }
            i += 1;
        }
        proof {
            assert forall|a: u64, b: u64| (#[trigger] self.touches(a, b))
                == (old(self).touches(a, b) && a != handle && b != handle) by {
                if self.touches(a, b) {
                    assert(mid.touches(a, b));
                    assert(a != handle);
                    if b == handle {
                        assert(old(self).touches(a, handle));
                        assert(old(self).touches(handle, a));
                        assert(partners@.contains(a));
                        let j = choose|j: int| 0 <= j < partners@.len() && partners@[j] == a;
                        assert(!(self.touches(a, b)));
                    }
                }
                if old(self).touches(a, b) && a != handle && b != handle {
                    assert(mid.touches(a, b));
                    assert(self.touches(a, b));
                }
            }
            assert forall|a: u64, b: u64|
                self.contains(a) && self.contains(b)
                    implies ((#[trigger] self.touches(a, b)) == self.touches(b, a)) by {
                assert(old(self).touches(a, b) == old(self).touches(b, a));
            }
            assert forall|h: u64| #[trigger] self.meta@.contains_key(h) implies {
                &&& self.index.entries().contains_key(self.meta@[h].id as nat)
                &&& self.index.entries()[self.meta@[h].id as nat] == (self.meta@[h].bounds, h)
                &&& self.meta@[h].bounds.wf()
                &&& !self.meta@[h].touching@.contains(h)
                &&& self.meta@[h].touching@.no_duplicates()
            } by {
                assert(h != handle);
                assert(old(self).meta@.contains_key(h));
                assert(old(self).index.entries()[old(self).meta@[h].id as nat]
                    == (old(self).meta@[h].bounds, h));
                assert(old(self).meta@[h].id as nat != old(self).id_of(handle));
                assert(self.meta@[h].bounds == old(self).meta@[h].bounds
                    && self.meta@[h].id == old(self).meta@[h].id);
                assert(self.touches(h, h) == (old(self).touches(h, h) && h != handle));
                assert(!old(self).meta@[h].touching@.contains(h));
                assert(!self.touches(h, h));
            }
            assert forall|id: nat| #[trigger] self.index.entries().contains_key(id) implies {
                &&& self.meta@.contains_key(self.index.entries()[id].1)
                &&& self.meta@[self.index.entries()[id].1].id as nat == id
            } by {
                assert(old(self).index.entries().contains_key(id));
                let v = old(self).index.entries()[id].1;
                assert(old(self).meta@.contains_key(v) && old(self).meta@[v].id as nat == id);
                assert(v != handle);
                assert(self.meta@.contains_key(v));
                assert(self.meta@[v].id == old(self).meta@[v].id);
            }
            assert forall|a: u64, b: u64| #[trigger] self.touches(a, b)
                implies self.contains(b) by {
                assert(old(self).touches(a, b) && b != handle);
                assert(old(self).contains(b));
            }
            assert forall|h: u64| h != handle && old(self).contains(h)
                implies (#[trigger] self.bounds_of(h)) == old(self).bounds_of(h)
                    && (#[trigger] self.id_of(h)) == old(self).id_of(h) by {
                assert(self.meta@.contains_key(h));
                assert(self.meta@[h].bounds == old(self).meta@[h].bounds
                    && self.meta@[h].id == old(self).meta@[h].id);
            }
        }
    }

    /// Refresh one modified collider's bounds: insert it with an empty
    /// touching set on first observation, else relocate its index entry.
    fn refresh_collider(&mut self, mc: &ModifiedCollider)
        requires
            old(self).wf(),
            mc.wf(),
            mc.refreshed(),
        ensures
            final(self).wf(),
            final(self).contains(mc.handle),
            final(self).bounds_of(mc.handle) == mc.new_bounds_spec(),
            forall|h: u64| h != mc.handle
                ==> (#[trigger] final(self).contains(h)) == old(self).contains(h),
            forall|h: u64| h != mc.handle && old(self).contains(h)
                ==> (#[trigger] final(self).bounds_of(h)) == old(self).bounds_of(h),
            forall|a: u64, b: u64|
                (#[trigger] final(self).touches(a, b))
                    == if a == mc.handle && !old(self).contains(mc.handle) {
                        false
                    } else {
                        old(self).touches(a, b)
                    },
    {
        let new_bounds = match mc.predicted_aabb {
            Option::Some(p) => if mc.soft_ccd_prediction > 0 {
                mc.aabb.merged(&p)
            } else {
                mc.aabb
            },
            Option::None => mc.aabb,
        };
        if !self.meta.contains_key(&mc.handle) {
            let id = self.index.insert(new_bounds, mc.handle);
            self.meta.insert(mc.handle, ColliderMeta { id, bounds: new_bounds, touching: Vec::new() });
        } else {
            let m = match self.meta.remove(&mc.handle) {
                Option::Some(m) => m,
                Option::None => { proof { assert(false); } unreached() }
            };
            self.index.update_bounds(m.id, new_bounds);
            self.meta.insert(mc.handle, ColliderMeta { id: m.id, bounds: new_bounds, touching: m.touching });
        }
        proof {
            let h = mc.handle;
            if !old(self).contains(h) {
                assert forall|a: u64, b: u64| (#[trigger] self.touches(a, b))
                    == if a == h { false } else { old(self).touches(a, b) } by {
                    if a == h {
                        assert(!self.meta@[h].touching@.contains(b));
                    }
                }
                assert forall|a: u64, b: u64| #[trigger] self.touches(a, b)
                    implies self.contains(b) by {
                    assert(old(self).touches(a, b));
                    assert(old(self).contains(b));
                }
                assert forall|a: u64, b: u64|
                    self.contains(a) && self.contains(b)
                        implies ((#[trigger] self.touches(a, b)) == self.touches(b, a)) by {
                    if a == h {
                        assert(old(self).touches(b, h) ==> old(self).contains(h));
                        assert(!self.touches(a, b) && !self.touches(b, a));
                    } else if b == h {
                        assert(old(self).touches(a, h) ==> old(self).contains(h));
                        assert(!self.touches(a, b) && !self.touches(b, a));
                    } else {
                        assert(old(self).touches(a, b) == old(self).touches(b, a));
                    }
                }
            } else {
                assert forall|a: u64, b: u64| (#[trigger] self.touches(a, b))
                    == old(self).touches(a, b) by {}
                assert forall|a: u64, b: u64| #[trigger] self.touches(a, b)
                    implies self.contains(b) by {
                    assert(old(self).touches(a, b));
                    assert(old(self).contains(b));
                }
                assert forall|a: u64, b: u64|
                    self.contains(a) && self.contains(b)
                        implies ((#[trigger] self.touches(a, b)) == self.touches(b, a)) by {
                    assert(old(self).contains(a) && old(self).contains(b));
                    assert(old(self).touches(a, b) == old(self).touches(b, a));
                }
            }
        }
    }
}

impl BroadPhaseSieveTree {
    /// Recompute one collider's touching set from a loosened-bounds query of
    /// the spatial index, emitting an add-pair event for each overlap found
    /// and a delete-pair event for each entry of the previous set that the
    /// query no longer returns, keeping the reciprocal sets in step.
    #[verifier::loop_isolation(false)]
    #[verifier::rlimit(100)]
    fn diff_pairs_one(
        &mut self,
        c1: u64,
        prediction_distance: i64,
        events: &mut Vec<BroadPhasePairEvent>,
    )
        requires
            old(self).wf(),
            old(self).contains(c1),
            0 <= prediction_distance <= VAL_MAX,
        ensures
            final(self).wf(),
            forall|h: u64| (#[trigger] final(self).contains(h)) == old(self).contains(h),
            forall|h: u64| old(self).contains(h)
                ==> (#[trigger] final(self).bounds_of(h)) == old(self).bounds_of(h),
            forall|h: u64| old(self).contains(h)
                ==> (#[trigger] final(self).id_of(h)) == old(self).id_of(h),
            final(self).tree() == old(self).tree(),
            forall|b: u64| b != c1 ==> ((#[trigger] final(self).touches(c1, b))
                <==> old(self).contains(b)
                    && old(self).bounds_of(c1).near(
                        old(self).bounds_of(b), prediction_distance as int)),
            forall|b: u64| b != c1 && old(self).contains(b)
                ==> ((#[trigger] final(self).touches(b, c1))
                    <==> old(self).bounds_of(c1).near(
                        old(self).bounds_of(b), prediction_distance as int)),
            forall|a: u64, b: u64| a != c1 && b != c1
                ==> (#[trigger] final(self).touches(a, b)) == old(self).touches(a, b),
            old(events)@.is_prefix_of(final(events)@),
            forall|e: int| old(events)@.len() <= e < final(events)@.len()
                ==> match (#[trigger] final(events)@[e]) {
                    BroadPhasePairEvent::AddPair(p) =>
                        p.collider1 == c1 && final(self).touches(c1, p.collider2),
                    BroadPhasePairEvent::DeletePair(p) =>
                        p.collider1 == c1 && old(self).touches(c1, p.collider2)
                            && !final(self).touches(c1, p.collider2),
                },
    {
        let ghost ev0 = old(events)@;
        let m1 = match self.meta.remove(&c1) {
            Option::Some(m) => m,
            Option::None => { proof { assert(false); } vstd::pervasive::unreached() }
        };
        let id1 = m1.id;
        let bounds1 = m1.bounds;
        let was_touching = m1.touching;
        self.meta.insert(c1, ColliderMeta { id: id1, bounds: bounds1, touching: Vec::new() });

        proof {
            assert(bounds1.wf());
            assert(!was_touching@.contains(c1));
        }
        let query = bounds1.loosened(prediction_distance);
        let hits = self.index.intersections(&query);

        // Whether the query found entry `b`, other than this collider's own
        // index entry.
        let ghost hit = |b: u64|
            exists|j: int| 0 <= j < hits@.len() && hits@[j].1 == b && hits@[j].0 as nat != id1 as nat;

        proof {
            assert forall|b: u64| #[trigger] hit(b) implies {
                &&& old(self).contains(b)
                &&& b != c1
                &&& old(self).bounds_of(c1).near(old(self).bounds_of(b), prediction_distance as int)
            } by {
                let j = choose|j: int|
                    0 <= j < hits@.len() && hits@[j].1 == b && hits@[j].0 as nat != id1 as nat;
                let id2 = hits@[j].0 as nat;
                assert(self.index.entries().contains_key(id2));
                assert(old(self).meta@.contains_key(b));
                assert(old(self).meta@[b].id as nat == id2);
                assert(old(self).bounds_of(b) == self.index.entries()[id2].0);
                assert(b != c1) by {
                    if b == c1 {
                        assert(old(self).meta@[c1].id == id1);
                    }
                }
            }
            assert forall|b: u64|
                old(self).contains(b) && b != c1
                    && old(self).bounds_of(c1).near(
                        old(self).bounds_of(b), prediction_distance as int)
                    implies #[trigger] hit(b) by {
                let id2 = old(self).meta@[b].id as nat;
                assert(self.index.entries().contains_key(id2));
                assert(self.index.entries()[id2] == (old(self).bounds_of(b), b));
                assert(self.index.entries()[id2].0.overlaps_spec(query));
                let j = choose|j: int| 0 <= j < hits@.len() && hits@[j].0 as nat == id2;
                assert(hits@[j].1 == b);
                assert(id2 != id1 as nat) by {
                    if id2 == id1 as nat {
                        assert(self.index.entries()[id1 as nat] == (old(self).bounds_of(c1), c1));
                    }
                }
            }
        }

        proof {
            assert forall|a: u64, b: u64| #[trigger] self.touches(a, b)
                implies self.contains(b) by {
                if a != c1 {
                    assert(old(self).touches(a, b));
                    assert(old(self).contains(b));
                } else {
                    assert(!self.meta@[c1].touching@.contains(b));
                }
            }
        }
        let mut k: usize = 0;
        while k < hits.len()
            invariant
                k <= hits@.len(),
                self.index == old(self).index,
                forall|h: u64| (#[trigger] self.meta@.contains_key(h))
                    == old(self).meta@.contains_key(h),
                forall|h: u64| #[trigger] self.meta@.contains_key(h)
                    ==> self.meta@[h].bounds == old(self).meta@[h].bounds
                        && self.meta@[h].id == old(self).meta@[h].id
                        && self.meta@[h].touching@.no_duplicates()
                        && !self.meta@[h].touching@.contains(h),
                forall|a: u64, b: u64| #[trigger] self.touches(a, b) ==> self.contains(b),
                forall|b: u64| (#[trigger] self.touches(c1, b))
                    <==> exists|j: int|
                        0 <= j < k && hits@[j].1 == b && hits@[j].0 as nat != id1 as nat,
                forall|a: u64| a != c1 ==> ((#[trigger] self.touches(a, c1))
                    <==> (old(self).touches(a, c1)
                        || exists|j: int|
                            0 <= j < k && hits@[j].1 == a && hits@[j].0 as nat != id1 as nat)),
                forall|a: u64, b: u64| a != c1 && b != c1
                    ==> (#[trigger] self.touches(a, b)) == old(self).touches(a, b),
                ev0.is_prefix_of(events@),
                forall|e: int| ev0.len() <= e < events@.len()
                    ==> match (#[trigger] events@[e]) {
                        BroadPhasePairEvent::AddPair(p) => p.collider1 == c1 && hit(p.collider2),
                        BroadPhasePairEvent::DeletePair(p) => false,
                    },
            decreases hits@.len() - k,
        {
            let ghost s_iter = *self;
            let (id2, c2) = hits[k];
            if id2 != id1 {
                proof {
                    assert(hits@[k as int].1 == c2 && hits@[k as int].0 as nat != id1 as nat);
                    assert(hit(c2));
                    assert(c2 != c1);
                    assert(self.meta@.contains_key(c2));
                }
                let ghost pre = *self;
                let mut m1 = match self.meta.remove(&c1) {
                    Option::Some(m) => m,
                    Option::None => { proof { assert(false); } vstd::pervasive::unreached() }
                };
                vec_insert_unique(&mut m1.touching, c2);
                self.meta.insert(c1, m1);
                proof {
                    assert forall|b: u64| (#[trigger] self.touches(c1, b))
                        <==> (pre.touches(c1, b) || b == c2) by {
                        assert(self.meta@[c1].touching@.contains(b)
                            == (pre.meta@[c1].touching@.contains(b) || b == c2));
                    }
                }
                // This tests the collider's own handle against its previous
                // touching set, not the newly found partner's, so it always
                // holds (a collider never touches itself): an add-pair event
                // goes out for every overlap found, found again or not. Kept
                // as is; changing it to test the partner would change exactly
                // when add-pair events repeat, which downstream consumers may
                // rely on.
                if !vec_contains(&was_touching, c1) {
                    events.push(BroadPhasePairEvent::AddPair(ColliderPair {
                        collider1: c1,
                        collider2: c2,
                    }));
                    let ghost pre2 = *self;
                    let mut m2 = match self.meta.remove(&c2) {
                        Option::Some(m) => m,
                        Option::None => { proof { assert(false); } vstd::pervasive::unreached() }
                    };
                    vec_insert_unique(&mut m2.touching, c1);
                    self.meta.insert(c2, m2);
                    proof {
                        assert forall|a: u64, b: u64| (#[trigger] self.touches(a, b))
                            <==> (pre2.touches(a, b) || (a == c2 && b == c1)) by {
                            if a == c2 {
                                assert(self.meta@[c2].touching@.contains(b)
                                    == (pre2.meta@[c2].touching@.contains(b) || b == c1));
                            }
                        }
                    }
                }
            }
            proof {
                assert forall|a: u64, b: u64| #[trigger] self.touches(a, b)
                    implies self.contains(b) by {
                    if s_iter.touches(a, b) {
                        assert(s_iter.contains(b));
                    } else {
                        assert((a == c1 && b == c2) || (a == c2 && b == c1));
                    }
                }
                assert forall|a: u64, b: u64| a != c1 && b != c1
                    implies (#[trigger] self.touches(a, b)) == old(self).touches(a, b) by {
                    assert(self.touches(a, b) == s_iter.touches(a, b));
                }
                assert forall|b: u64| (#[trigger] self.touches(c1, b))
                    <==> exists|j: int|
                        0 <= j < k + 1 && hits@[j].1 == b && hits@[j].0 as nat != id1 as nat by {
                    if self.touches(c1, b) {
                        if id2 != id1 && b == c2 {
                            assert(hits@[k as int].1 == b && hits@[k as int].0 as nat != id1 as nat);
                        } else {
                            let j = choose|j: int|
                                0 <= j < k && hits@[j].1 == b && hits@[j].0 as nat != id1 as nat;
                            assert(0 <= j < k + 1 && hits@[j].1 == b && hits@[j].0 as nat != id1 as nat);
                        }
                    }
                    if exists|j: int|
                        0 <= j < k + 1 && hits@[j].1 == b && hits@[j].0 as nat != id1 as nat {
                        let j = choose|j: int|
                            0 <= j < k + 1 && hits@[j].1 == b && hits@[j].0 as nat != id1 as nat;
                        if j == k {
                            assert(id2 != id1 && b == c2);
                            assert(self.touches(c1, b));
                        } else {
                            assert(self.touches(c1, b));
                        }
                    }
                }
                assert forall|a: u64| a != c1 implies ((#[trigger] self.touches(a, c1))
                    <==> (old(self).touches(a, c1)
                        || exists|j: int|
                            0 <= j < k + 1 && hits@[j].1 == a && hits@[j].0 as nat != id1 as nat)) by {
                    if id2 != id1 && a == c2 {
                        assert(self.touches(a, c1));
                        assert(hits@[k as int].1 == a && hits@[k as int].0 as nat != id1 as nat);
                        assert(exists|j: int|
                            0 <= j < k + 1 && hits@[j].1 == a && hits@[j].0 as nat != id1 as nat);
                    } else {
                        assert(self.touches(a, c1) == s_iter.touches(a, c1));
                        assert(s_iter.touches(a, c1)
                            <==> (old(self).touches(a, c1)
                                || exists|j: int|
                                    0 <= j < k && hits@[j].1 == a && hits@[j].0 as nat != id1 as nat));
                        if s_iter.touches(a, c1) && !old(self).touches(a, c1) {
                            let j = choose|j: int|
                                0 <= j < k && hits@[j].1 == a && hits@[j].0 as nat != id1 as nat;
                            assert(0 <= j < k + 1 && hits@[j].1 == a
                                && hits@[j].0 as nat != id1 as nat);
                        }
                        if exists|j: int|
                            0 <= j < k + 1 && hits@[j].1 == a && hits@[j].0 as nat != id1 as nat {
                            let j = choose|j: int|
                                0 <= j < k + 1 && hits@[j].1 == a && hits@[j].0 as nat != id1 as nat;
                            if j == k {
                                assert(hits@[k as int].1 == a && hits@[k as int].0 as nat != id1 as nat);
                                assert(false);
                            } else {
                                assert(exists|jj: int|
                                    0 <= jj < k && hits@[jj].1 == a && hits@[jj].0 as nat != id1 as nat);
                            }
                        }
                    }
                }
            }
            k += 1;
        }

        let ghost s_add = *self;
        let ghost ev1 = events@;
        proof {
            assert(forall|b: u64| (#[trigger] s_add.touches(c1, b)) <==> hit(b));
            assert(forall|a: u64| a != c1 ==> ((#[trigger] s_add.touches(a, c1))
                <==> (old(self).touches(a, c1) || hit(a))));
        }

        let mut j: usize = 0;
        while j < was_touching.len()
            invariant
                j <= was_touching@.len(),
                self.index == old(self).index,
                forall|h: u64| (#[trigger] self.meta@.contains_key(h))
                    == old(self).meta@.contains_key(h),
                forall|h: u64| #[trigger] self.meta@.contains_key(h)
                    ==> self.meta@[h].bounds == old(self).meta@[h].bounds
                        && self.meta@[h].id == old(self).meta@[h].id
                        && self.meta@[h].touching@.no_duplicates()
                        && !self.meta@[h].touching@.contains(h),
                forall|a: u64, b: u64| #[trigger] self.touches(a, b) ==> self.contains(b),
                forall|b: u64| (#[trigger] self.touches(c1, b)) <==> hit(b),
                forall|a: u64| a != c1 ==> ((#[trigger] self.touches(a, c1))
                    <==> (hit(a)
                        || (old(self).touches(a, c1)
                            && !exists|jj: int| 0 <= jj < j && was_touching@[jj] == a))),
                forall|a: u64, b: u64| a != c1 && b != c1
                    ==> (#[trigger] self.touches(a, b)) == old(self).touches(a, b),
                ev1.is_prefix_of(events@),
                forall|e: int| ev1.len() <= e < events@.len()
                    ==> match (#[trigger] events@[e]) {
                        BroadPhasePairEvent::AddPair(p) => false,
                        BroadPhasePairEvent::DeletePair(p) =>
                            p.collider1 == c1 && was_touching@.contains(p.collider2)
                                && !hit(p.collider2),
                    },
            decreases was_touching@.len() - j,
        {
            let c2 = was_touching[j];
            proof {
                assert(was_touching@[j as int] == c2);
                assert(was_touching@.contains(c2));
                assert(old(self).touches(c1, c2));
                assert(old(self).contains(c2));
                assert(c2 != c1);
                assert(self.meta@.contains_key(c2));
            }
            let still = {
                let m1r = match self.meta.get(&c1) {
                    Option::Some(m) => m,
                    Option::None => { proof { assert(false); } vstd::pervasive::unreached() }
                };
                vec_contains(&m1r.touching, c2)
            };
            proof {
                assert(still == self.touches(c1, c2));
                assert(still == hit(c2));
            }
            if !still {
                events.push(BroadPhasePairEvent::DeletePair(ColliderPair {
                    collider1: c1,
                    collider2: c2,
                }));
                let ghost pre = *self;
                let mut m2 = match self.meta.remove(&c2) {
                    Option::Some(m) => m,
                    Option::None => { proof { assert(false); } vstd::pervasive::unreached() }
                };
                vec_remove_item(&mut m2.touching, c1);
                self.meta.insert(c2, m2);
                proof {
                    assert forall|a: u64, b: u64| (#[trigger] self.touches(a, b))
                        <==> (pre.touches(a, b) && !(a == c2 && b == c1)) by {
                        if a == c2 {
                            assert(self.meta@[c2].touching@.contains(b)
                                == (pre.meta@[c2].touching@.contains(b) && b != c1));
                        }
                    }
                }
            }
            proof {
                assert forall|a: u64| a != c1 implies ((#[trigger] self.touches(a, c1))
                    <==> (hit(a)
                        || (old(self).touches(a, c1)
                            && !exists|jj: int| 0 <= jj < j + 1 && was_touching@[jj] == a))) by {
                    if a == c2 {
                        assert(was_touching@[j as int] == a);
                        assert(exists|jj: int| 0 <= jj < j + 1 && was_touching@[jj] == a);
                        if !hit(a) {
                            assert(!still);
                            assert(!self.touches(a, c1));
                        }
                    } else {
                        if exists|jj: int| 0 <= jj < j + 1 && was_touching@[jj] == a {
                            let jj = choose|jj: int| 0 <= jj < j + 1 && was_touching@[jj] == a;
                            assert(jj != j);
                            assert(exists|jx: int| 0 <= jx < j && was_touching@[jx] == a);
                        }
                        if exists|jj: int| 0 <= jj < j && was_touching@[jj] == a {
                            assert(exists|jx: int| 0 <= jx < j + 1 && was_touching@[jx] == a);
                        }
                    }
                }
            }
            j += 1;
        }

        proof {
            assert forall|a: u64| a != c1 implies ((#[trigger] self.touches(a, c1)) <==> hit(a)) by {
                if self.touches(a, c1) && !hit(a) {
                    assert(old(self).touches(a, c1));
                    assert(old(self).touches(c1, a));
                    assert(was_touching@.contains(a));
                    let jj = choose|jj: int|
                        0 <= jj < was_touching@.len() && was_touching@[jj] == a;
                    assert(false);
                }
                if hit(a) {
                    assert(self.touches(a, c1));
                }
            }
            assert forall|a: u64, b: u64|
                self.contains(a) && self.contains(b)
                    implies ((#[trigger] self.touches(a, b)) == self.touches(b, a)) by {
                if a == c1 && b != c1 {
                    assert(self.touches(c1, b) <==> hit(b));
                    assert(self.touches(b, c1) <==> hit(b));
                } else if b == c1 && a != c1 {
                    assert(self.touches(c1, a) <==> hit(a));
                    assert(self.touches(a, c1) <==> hit(a));
                } else if a != c1 && b != c1 {
                    assert(old(self).touches(a, b) == old(self).touches(b, a));
                }
            }
            assert forall|h: u64| #[trigger] self.meta@.contains_key(h) implies {
                &&& self.index.entries().contains_key(self.meta@[h].id as nat)
                &&& self.index.entries()[self.meta@[h].id as nat] == (self.meta@[h].bounds, h)
                &&& self.meta@[h].bounds.wf()
            } by {
                assert(old(self).meta@.contains_key(h));
                assert(self.meta@[h].bounds == old(self).meta@[h].bounds
                    && self.meta@[h].id == old(self).meta@[h].id);
            }
            assert forall|h: u64| old(self).contains(h)
                implies (#[trigger] self.bounds_of(h)) == old(self).bounds_of(h) by {
                assert(self.meta@.contains_key(h));
            }
            assert forall|h: u64| old(self).contains(h)
                implies (#[trigger] self.id_of(h)) == old(self).id_of(h) by {
                assert(self.meta@.contains_key(h));
            }
            assert(ev0.is_prefix_of(events@));
            assert forall|e: int| ev0.len() <= e < events@.len()
                implies match (#[trigger] events@[e]) {
                    BroadPhasePairEvent::AddPair(p) =>
                        p.collider1 == c1 && self.touches(c1, p.collider2),
                    BroadPhasePairEvent::DeletePair(p) =>
                        p.collider1 == c1 && old(self).touches(c1, p.collider2)
                            && !self.touches(c1, p.collider2),
                } by {
                if e < ev1.len() {
                    assert(events@[e] == ev1[e]);
                    match events@[e] {
                        BroadPhasePairEvent::AddPair(p) => {
                            assert(hit(p.collider2));
                            assert(self.touches(c1, p.collider2));
                        }
                        BroadPhasePairEvent::DeletePair(_) => {}
                    }
                } else {
                    match events@[e] {
                        BroadPhasePairEvent::AddPair(_) => {}
                        BroadPhasePairEvent::DeletePair(p) => {
                            assert(was_touching@.contains(p.collider2));
                            assert(old(self).touches(c1, p.collider2));
                            assert(!hit(p.collider2));
                            assert(!self.touches(c1, p.collider2));
                        }
                    }
                }
            }
        }
    }
}

impl BroadPhaseSieveTree {
    /// Whether one of the first `n` modified entries refreshes handle `h`.
    pub open spec fn refreshed_in(modified: Seq<ModifiedCollider>, h: u64) -> bool {
        exists|i: int| 0 <= i < modified.len() && (#[trigger] modified[i]).handle == h
            && modified[i].refreshed()
    }

    /// Whether handle `h` is named by one of the modified entries.
    pub open spec fn named_in(modified: Seq<ModifiedCollider>, h: u64) -> bool {
        exists|i: int| 0 <= i < modified.len() && (#[trigger] modified[i]).handle == h
    }

    /// One broad-phase step. Removed colliders are deleted first, together
    /// with every record of them. Each modified collider that is enabled and
    /// flagged for refresh has its stored bounds recomputed and its index
    /// entry relocated (or created, with an empty touching set, on first
    /// observation). Then every modified collider's touching set is rebuilt
    /// from a loosened-bounds index query, emitting add-pair and delete-pair
    /// events and keeping the reciprocal sets in step.
    ///
    /// Starting from bookkeeping that was exact for the same prediction
    /// margin, the bookkeeping is exact again afterwards, and it is always
    /// symmetric.
    #[verifier::loop_isolation(false)]
    #[verifier::rlimit(100)]
    pub fn update(
        &mut self,
        prediction_distance: i64,
        modified: &Vec<ModifiedCollider>,
        removed: &Vec<u64>,
        events: &mut Vec<BroadPhasePairEvent>,
    )
        requires
            old(self).wf(),
            0 <= prediction_distance <= VAL_MAX,
            forall|i: int| 0 <= i < removed@.len() ==> old(self).contains(#[trigger] removed@[i]),
            removed@.no_duplicates(),
            forall|i: int| 0 <= i < modified@.len() ==> (#[trigger] modified@[i]).wf(),
            forall|i: int, j: int| 0 <= i < j < modified@.len()
                ==> modified@[i].handle != modified@[j].handle,
            forall|i: int| 0 <= i < modified@.len() ==> ((#[trigger] modified@[i]).refreshed()
                || (old(self).contains(modified@[i].handle)
                    && !removed@.contains(modified@[i].handle))),
        ensures
            final(self).wf(),
            forall|h: u64| (#[trigger] final(self).contains(h))
                == ((old(self).contains(h) && !removed@.contains(h))
                    || Self::refreshed_in(modified@, h)),
            forall|i: int| 0 <= i < modified@.len() && (#[trigger] modified@[i]).refreshed()
                ==> final(self).bounds_of(modified@[i].handle)
                    == modified@[i].new_bounds_spec(),
            forall|h: u64| final(self).contains(h) && !Self::refreshed_in(modified@, h)
                ==> (#[trigger] final(self).bounds_of(h)) == old(self).bounds_of(h),
            old(self).consistent(prediction_distance as int)
                ==> final(self).consistent(prediction_distance as int),
            old(events)@.is_prefix_of(final(events)@),
            forall|e: int| old(events)@.len() <= e < final(events)@.len()
                ==> Self::named_in(modified@, event_source(#[trigger] final(events)@[e])),
    {
        let mut i: usize = 0;
        while i < removed.len()
            invariant
                i <= removed@.len(),
                self.wf(),
                forall|h: u64| (#[trigger] self.contains(h))
                    == (old(self).contains(h)
                        && !exists|j: int| 0 <= j < i && removed@[j] == h),
                forall|h: u64| self.contains(h)
                    ==> (#[trigger] self.bounds_of(h)) == old(self).bounds_of(h),
                forall|a: u64, b: u64| (#[trigger] self.touches(a, b))
                    == (old(self).touches(a, b) && self.contains(a) && self.contains(b)),
                events@ == old(events)@,
            decreases removed@.len() - i,
        {
            let handle = removed[i];
            proof {
                assert(removed@[i as int] == handle);
                assert(removed@.contains(handle));
                assert(self.contains(handle)) by {
                    if exists|j: int| 0 <= j < i && removed@[j] == handle {
                        let j = choose|j: int| 0 <= j < i && removed@[j] == handle;
                        assert(removed@[j] == removed@[i as int]);
                        assert(false);
                    }
                }
            }
            let ghost pre = *self;
            self.remove_collider(handle);
            proof {
                assert forall|h: u64| (#[trigger] self.contains(h))
                    == (old(self).contains(h)
                        && !exists|j: int| 0 <= j < i + 1 && removed@[j] == h) by {
                    if h == handle {
                        assert(removed@[i as int] == h);
                        assert(exists|j: int| 0 <= j < i + 1 && removed@[j] == h);
                    } else {
                        assert(self.contains(h) == pre.contains(h));
                        if exists|j: int| 0 <= j < i + 1 && removed@[j] == h {
                            let j = choose|j: int| 0 <= j < i + 1 && removed@[j] == h;
                            assert(j != i);
                            assert(exists|jj: int| 0 <= jj < i && removed@[jj] == h);
                        }
                        if exists|j: int| 0 <= j < i && removed@[j] == h {
                            assert(exists|jj: int| 0 <= jj < i + 1 && removed@[jj] == h);
                        }
                    }
                }
                assert forall|h: u64| self.contains(h)
                    implies (#[trigger] self.bounds_of(h)) == old(self).bounds_of(h) by {
                    assert(h != handle);
                    assert(pre.contains(h));
                    assert(self.bounds_of(h) == pre.bounds_of(h));
                }
            }
            i += 1;
        }

        let ghost s1 = *self;
        proof {
            assert forall|h: u64| (#[trigger] s1.contains(h))
                == (old(self).contains(h) && !removed@.contains(h)) by {
                if removed@.contains(h) {
                    let j = choose|j: int| 0 <= j < removed@.len() && removed@[j] == h;
                    assert(exists|jj: int| 0 <= jj < removed@.len() && removed@[jj] == h);
                }
            }
        }

        let mut i: usize = 0;
        while i < modified.len()
            invariant
                i <= modified@.len(),
                self.wf(),
                forall|h: u64| (#[trigger] self.contains(h))
                    == (s1.contains(h)
                        || Self::refreshed_in(modified@.take(i as int), h)),
                forall|j: int| 0 <= j < i && (#[trigger] modified@[j]).refreshed()
                    ==> self.contains(modified@[j].handle)
                        && self.bounds_of(modified@[j].handle)
                            == modified@[j].new_bounds_spec(),
                forall|h: u64| self.contains(h)
                    && !Self::refreshed_in(modified@.take(i as int), h)
                    ==> (#[trigger] self.bounds_of(h)) == s1.bounds_of(h),
                forall|a: u64, b: u64| (#[trigger] self.touches(a, b)) == s1.touches(a, b),
                events@ == old(events)@,
            decreases modified@.len() - i,
        {
            let mc = &modified[i];
            let ghost pre = *self;
            if mc.enabled && mc.needs_update {
                self.refresh_collider(mc);
            }
            proof {
                assert(modified@.take(i as int + 1) =~= modified@.take(i as int).push(modified@[i as int]));
                assert forall|h: u64| (#[trigger] self.contains(h))
                    == (s1.contains(h)
                        || Self::refreshed_in(modified@.take(i as int + 1), h)) by {
                    if Self::refreshed_in(modified@.take(i as int + 1), h) {
                        let j = choose|j: int| 0 <= j < i + 1
                            && (#[trigger] modified@.take(i as int + 1)[j]).handle == h
                            && modified@.take(i as int + 1)[j].refreshed();
                        if j == i {
                            assert(self.contains(h));
                        } else {
                            assert(Self::refreshed_in(modified@.take(i as int), h));
                        }
                    }
                    if self.contains(h) && !s1.contains(h)
                        && !Self::refreshed_in(modified@.take(i as int), h) {
                        assert(h == mc.handle && mc.refreshed());
                        assert(modified@.take(i as int + 1)[i as int].handle == h);
                        assert(Self::refreshed_in(modified@.take(i as int + 1), h));
                    }
                }
                assert forall|h: u64| self.contains(h)
                    && !Self::refreshed_in(modified@.take(i as int + 1), h)
                    implies (#[trigger] self.bounds_of(h)) == s1.bounds_of(h) by {
                    assert(h != mc.handle || !mc.refreshed());
                    assert(!Self::refreshed_in(modified@.take(i as int), h)) by {
                        if Self::refreshed_in(modified@.take(i as int), h) {
                            let j = choose|j: int| 0 <= j < i
                                && (#[trigger] modified@.take(i as int)[j]).handle == h
                                && modified@.take(i as int)[j].refreshed();
                            assert(modified@.take(i as int + 1)[j].handle == h
                                && modified@.take(i as int + 1)[j].refreshed());
                        }
                    }
                }
                assert forall|j: int| 0 <= j < i + 1 && (#[trigger] modified@[j]).refreshed()
                    implies self.contains(modified@[j].handle)
                        && self.bounds_of(modified@[j].handle)
                            == modified@[j].new_bounds_spec() by {
                    if j < i {
                        assert(modified@[j].handle != mc.handle);
                        assert(pre.contains(modified@[j].handle));
                        assert(pre.bounds_of(modified@[j].handle)
                            == modified@[j].new_bounds_spec());
                    }
                }
            }
            i += 1;
        }

        let ghost s2 = *self;
        proof {
            assert(modified@.take(modified@.len() as int) =~= modified@);
        }

        let mut i: usize = 0;
        while i < modified.len()
            invariant
                i <= modified@.len(),
                self.wf(),
                forall|h: u64| (#[trigger] self.contains(h)) == s2.contains(h),
                forall|h: u64| self.contains(h)
                    ==> (#[trigger] self.bounds_of(h)) == s2.bounds_of(h),
                forall|a: u64, b: u64|
                    self.contains(a) && self.contains(b) && a != b
                        && (Self::named_in(modified@.take(i as int), a)
                            || Self::named_in(modified@.take(i as int), b))
                        ==> ((#[trigger] self.touches(a, b))
                            <==> self.bounds_of(a).near(
                                self.bounds_of(b), prediction_distance as int)),
                forall|a: u64, b: u64|
                    !Self::named_in(modified@.take(i as int), a)
                        && !Self::named_in(modified@.take(i as int), b)
                        ==> (#[trigger] self.touches(a, b)) == s2.touches(a, b),
                old(events)@.is_prefix_of(events@),
                forall|e: int| old(events)@.len() <= e < events@.len()
                    ==> Self::named_in(modified@, event_source(#[trigger] events@[e])),
            decreases modified@.len() - i,
        {
            let c1 = modified[i].handle;
            proof {
                assert(self.contains(c1)) by {
                    if modified@[i as int].refreshed() {
                        assert(s2.contains(c1));
                    } else {
                        assert(s1.contains(c1));
                        assert(s2.contains(c1));
                    }
                }
            }
            let ghost pre = *self;
            let ghost ev_pre = events@;
            self.diff_pairs_one(c1, prediction_distance, events);
            proof {
                assert forall|e: int| old(events)@.len() <= e < events@.len()
                    implies Self::named_in(modified@, event_source(#[trigger] events@[e])) by {
                    if e < ev_pre.len() {
                        assert(events@[e] == ev_pre[e]);
                    } else {
                        assert(event_source(events@[e]) == c1);
                        assert(modified@[i as int].handle == c1);
                    }
                }
                assert(old(events)@.is_prefix_of(events@)) by {
                    assert forall|e: int| 0 <= e < old(events)@.len()
                        implies events@[e] == old(events)@[e] by {
                        assert(ev_pre[e] == old(events)@[e]);
                        assert(events@[e] == ev_pre[e]);
                    }
                    assert(events@.subrange(0, old(events)@.len() as int)
                        =~= old(events)@);
                }
                assert(modified@.take(i as int + 1)
                    =~= modified@.take(i as int).push(modified@[i as int]));
                assert forall|h: u64| Self::named_in(modified@.take(i as int + 1), h)
                    implies (h == c1 || Self::named_in(modified@.take(i as int), h)) by {
                    let j = choose|j: int| 0 <= j < i + 1
                        && (#[trigger] modified@.take(i as int + 1)[j]).handle == h;
                    if j < i {
                        assert(modified@.take(i as int)[j].handle == h);
                    }
                }
                assert forall|h: u64| (h == c1 || Self::named_in(modified@.take(i as int), h))
                    implies Self::named_in(modified@.take(i as int + 1), h) by {
                    if h == c1 {
                        assert(modified@.take(i as int + 1)[i as int].handle == h);
                    } else {
                        let j = choose|j: int| 0 <= j < i
                            && (#[trigger] modified@.take(i as int)[j]).handle == h;
                        assert(modified@.take(i as int + 1)[j].handle == h);
                    }
                }
                assert forall|a: u64, b: u64|
                    self.contains(a) && self.contains(b) && a != b
                        && (Self::named_in(modified@.take(i as int + 1), a)
                            || Self::named_in(modified@.take(i as int + 1), b))
                        implies ((#[trigger] self.touches(a, b))
                            <==> self.bounds_of(a).near(
                                self.bounds_of(b), prediction_distance as int)) by {
                    if a == c1 {
                        assert(self.touches(c1, b)
                            <==> pre.contains(b)
                                && pre.bounds_of(c1).near(
                                    pre.bounds_of(b), prediction_distance as int));
                    } else if b == c1 {
                        assert(self.touches(a, c1)
                            <==> pre.bounds_of(c1).near(
                                pre.bounds_of(a), prediction_distance as int));
                    } else {
                        assert(self.touches(a, b) == pre.touches(a, b));
                        assert(Self::named_in(modified@.take(i as int), a)
                            || Self::named_in(modified@.take(i as int), b));
                    }
                }
                assert forall|a: u64, b: u64|
                    !Self::named_in(modified@.take(i as int + 1), a)
                        && !Self::named_in(modified@.take(i as int + 1), b)
                        implies (#[trigger] self.touches(a, b)) == s2.touches(a, b) by {
                    assert(a != c1 && b != c1);
                    assert(self.touches(a, b) == pre.touches(a, b));
                }
            }
            i += 1;
        }

        proof {
            assert(modified@.take(modified@.len() as int) =~= modified@);
            assert forall|h: u64| (#[trigger] self.contains(h))
                == ((old(self).contains(h) && !removed@.contains(h))
                    || Self::refreshed_in(modified@, h)) by {}
            if old(self).consistent(prediction_distance as int) {
                assert forall|a: u64, b: u64|
                    self.contains(a) && self.contains(b) && a != b
                        implies ((#[trigger] self.touches(a, b))
                            <==> self.bounds_of(a).near(
                                self.bounds_of(b), prediction_distance as int)) by {
                    if !Self::named_in(modified@, a) && !Self::named_in(modified@, b) {
                        assert(self.touches(a, b) == s2.touches(a, b));
                        assert(s2.touches(a, b) == s1.touches(a, b));
                        assert(s1.touches(a, b)
                            == (old(self).touches(a, b) && s1.contains(a) && s1.contains(b)));
                        assert(s1.contains(a) && s1.contains(b)) by {
                            assert(!Self::refreshed_in(modified@, a));
                            assert(!Self::refreshed_in(modified@, b));
                        }
                        assert(old(self).contains(a) && old(self).contains(b));
                        assert(old(self).touches(a, b)
                            <==> old(self).bounds_of(a).near(
                                old(self).bounds_of(b), prediction_distance as int));
                        assert(self.bounds_of(a) == old(self).bounds_of(a)) by {
                            assert(!Self::refreshed_in(modified@, a));
                            assert(self.bounds_of(a) == s2.bounds_of(a));
                            assert(s2.bounds_of(a) == s1.bounds_of(a));
                            assert(s1.bounds_of(a) == old(self).bounds_of(a));
                        }
                        assert(self.bounds_of(b) == old(self).bounds_of(b)) by {
                            assert(!Self::refreshed_in(modified@, b));
                            assert(self.bounds_of(b) == s2.bounds_of(b));
                            assert(s2.bounds_of(b) == s1.bounds_of(b));
                            assert(s1.bounds_of(b) == old(self).bounds_of(b));
                        }
                    }
                }
            }
        }
    }
}

impl BroadPhaseSieveTree {
    /// Whether a collider is currently tracked by the broad phase.
    pub fn has_collider(&self, h: u64) -> (r: bool)
        ensures
            r == self.contains(h),
    {
        self.meta.contains_key(&h)
    }

    /// Whether `b` currently stands in `a`'s touching set.
    pub fn is_touching(&self, a: u64, b: u64) -> (r: bool)
        ensures
            r == self.touches(a, b),
    {
        match self.meta.get(&a) {
            Option::Some(m) => vec_contains(&m.touching, b),
            Option::None => false,
        }
    }

    /// The bounds currently stored for a tracked collider.
    pub fn stored_bounds(&self, h: u64) -> (r: Bounds3)
        requires
            self.contains(h),
        ensures
            r == self.bounds_of(h),
    {
        match self.meta.get(&h) {
            Option::Some(m) => m.bounds,
            Option::None => { proof { assert(false); } vstd::pervasive::unreached() }
        }
    }
}

/// Touching is symmetric: in any well-formed broad-phase state, the first
/// collider's touching set holds the second exactly when the second's holds
/// the first.
pub proof fn lemma_touching_symmetric(s: BroadPhaseSieveTree, a: u64, b: u64)
    requires
        s.wf(),
        s.contains(a),
        s.contains(b),
    ensures
        s.touches(a, b) == s.touches(b, a),
{
}

/// No stale entries: in any well-formed broad-phase state, a touching record
/// only ever names colliders the broad phase still tracks, and no collider
/// touches itself.
pub proof fn lemma_touching_within_store(s: BroadPhaseSieveTree, a: u64, b: u64)
    requires
        s.wf(),
        s.touches(a, b),
    ensures
        s.contains(a),
        s.contains(b),
        a != b,
{
    assert(!s.meta@[a].touching@.contains(a));
}

/// Exact bookkeeping is a function of the tracked handles and their stored
/// bounds alone: two consistent broad-phase states tracking the same handles
/// with the same bounds record exactly the same touching pairs. In
/// particular, removing a collider and re-inserting it with identical bounds
/// reproduces the touching sets it would have had without the removal.
pub proof fn lemma_touching_determined_by_bounds(
    s1: BroadPhaseSieveTree,
    s2: BroadPhaseSieveTree,
    p: int,
)
    requires
        s1.consistent(p),
        s2.consistent(p),
        forall|h: u64| (#[trigger] s1.contains(h)) == s2.contains(h),
        forall|h: u64| s1.contains(h) ==> (#[trigger] s1.bounds_of(h)) == s2.bounds_of(h),
    ensures
        forall|a: u64, b: u64|
            s1.contains(a) && s1.contains(b) && a != b
                ==> ((#[trigger] s1.touches(a, b)) == s2.touches(a, b)),
{
    assert forall|a: u64, b: u64|
        s1.contains(a) && s1.contains(b) && a != b
            implies ((#[trigger] s1.touches(a, b)) == s2.touches(a, b)) by {
        assert(s1.touches(a, b) <==> s1.bounds_of(a).near(s1.bounds_of(b), p));
        assert(s2.touches(a, b) <==> s2.bounds_of(a).near(s2.bounds_of(b), p));
    }
}

/// Whether a slice of handles holds the given handle.
pub fn vec_contains(v: &Vec<u64>, x: u64) -> (r: bool)
    ensures
        r == v@.contains(x),
{
    let mut i: usize = 0;
    while i < v.len()
        invariant
            i <= v@.len(),
            forall|j: int| 0 <= j < i ==> v@[j] != x,
        decreases v@.len() - i,
    {
        if v[i] == x {
            return true;
        }
        i += 1;
    }
    false
}

/// Add a handle to a duplicate-free list unless it is already there.
pub fn vec_insert_unique(v: &mut Vec<u64>, x: u64)
    requires
        old(v)@.no_duplicates(),
    ensures
        final(v)@.no_duplicates(),
        forall|y: u64| (#[trigger] final(v)@.contains(y)) == (old(v)@.contains(y) || y == x),
{
    if !vec_contains(v, x) {
        v.push(x);
        proof {
            assert forall|y: u64| (#[trigger] v@.contains(y))
                == (old(v)@.contains(y) || y == x) by {
                if v@.contains(y) {
                    let i = choose|i: int| 0 <= i < v@.len() && v@[i] == y;
                    if i < v@.len() - 1 {
                        assert(old(v)@[i] == y);
                        assert(old(v)@.contains(y));
                    } else {
                        assert(y == x);
                    }
                }
                if old(v)@.contains(y) {
                    let i = choose|i: int| 0 <= i < old(v)@.len() && old(v)@[i] == y;
                    assert(v@[i] == y);
                }
                if y == x {
                    assert(v@[v@.len() - 1] == x);
                }
            }
            assert(v@.no_duplicates()) by {
                assert forall|i1: int, i2: int|
                    0 <= i1 < v@.len() && 0 <= i2 < v@.len() && i1 != i2
                        implies v@[i1] != v@[i2] by {
                    if i1 < v@.len() - 1 && i2 < v@.len() - 1 {
                        assert(old(v)@[i1] != old(v)@[i2]);
                    } else if i1 == v@.len() - 1 {
                        assert(v@[i1] == x && old(v)@[i2] == v@[i2]);
                        assert(!old(v)@.contains(x));
                    } else {
                        assert(v@[i2] == x && old(v)@[i1] == v@[i1]);
                        assert(!old(v)@.contains(x));
                    }
                }
            }
        }
    }
}

/// Remove every occurrence of a handle from a duplicate-free list.
pub fn vec_remove_item(v: &mut Vec<u64>, x: u64)
    requires
        old(v)@.no_duplicates(),
    ensures
        final(v)@.no_duplicates(),
        forall|y: u64| (#[trigger] final(v)@.contains(y)) == (old(v)@.contains(y) && y != x),
{
    let mut i: usize = 0;
    while i < v.len()
        invariant
            i <= v@.len(),
            v@.no_duplicates(),
            forall|j: int| 0 <= j < i ==> v@[j] != x,
            forall|y: u64| #[trigger] old(v)@.contains(y) && y != x ==> v@.contains(y),
            forall|y: u64| #[trigger] v@.contains(y) ==> old(v)@.contains(y),
        decreases v@.len() - i,
    {
        if v[i] == x {
            let ghost pre = v@;
            v.swap_remove(i);
            proof {
                assert(forall|j: int| 0 <= j < v@.len() ==> pre.contains(#[trigger] v@[j]));
                assert forall|y: u64| #[trigger] old(v)@.contains(y) && y != x
                    implies v@.contains(y) by {
                    let k = choose|k: int| 0 <= k < pre.len() && pre[k] == y;
                    if k < v@.len() as int && k != i {
                        assert(v@[k] == y);
                    } else if k == i {
                        assert(false);
                    } else {
                        assert(v@[i as int] == y);
                    }
                }
                assert(v@.no_duplicates()) by {
                    assert forall|j1: int, j2: int|
                        0 <= j1 < v@.len() && 0 <= j2 < v@.len() && j1 != j2
                            implies v@[j1] != v@[j2] by {
                        assert(pre.no_duplicates());
                    }
                }
            }
            return;
        }
        i += 1;
    }
}

/// Order a pair of values, smallest first.
pub fn sort2(a: i64, b: i64) -> (r: (i64, i64))
    ensures
        r.0 <= r.1,
        (r.0 == a && r.1 == b) || (r.0 == b && r.1 == a),
{
    if a < b {
        (a, b)
    } else {
        (b, a)
    }
}

} // verus!
