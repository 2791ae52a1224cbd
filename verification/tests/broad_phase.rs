use broadphase_ccd::bounds::Bounds3;
use broadphase_ccd::broad_phase::{
    sort2, BroadPhasePairEvent, BroadPhaseSieveTree, ColliderPair, ModifiedCollider,
};
use broadphase_ccd::index::SpatialIndex;

fn cube(center_x: i64, half: i64) -> Bounds3 {
    Bounds3 {
        min_x: center_x - half,
        min_y: -half,
        min_z: -half,
        max_x: center_x + half,
        max_y: half,
        max_z: half,
    }
}

fn modified(handle: u64, aabb: Bounds3) -> ModifiedCollider {
    ModifiedCollider {
        handle,
        enabled: true,
        needs_update: true,
        aabb,
        soft_ccd_prediction: 0,
        predicted_aabb: None,
    }
}

fn add(a: u64, b: u64) -> BroadPhasePairEvent {
    BroadPhasePairEvent::AddPair(ColliderPair { collider1: a, collider2: b })
}

fn delete(a: u64, b: u64) -> BroadPhasePairEvent {
    BroadPhasePairEvent::DeletePair(ColliderPair { collider1: a, collider2: b })
}

#[test]
fn update_discovers_overlapping_pair() {
    let mut bp = BroadPhaseSieveTree::new();
    let mut events = Vec::new();
    let m = vec![modified(1, cube(0, 1_000_000)), modified(2, cube(1_500_000, 1_000_000))];
    bp.update(0, &m, &vec![], &mut events);
    assert!(bp.is_touching(1, 2));
    assert!(bp.is_touching(2, 1));
    // The second collider's pass re-finds the pair and reports it again.
    assert_eq!(events, vec![add(1, 2), add(2, 1)]);
}

#[test]
fn update_ignores_distant_pair() {
    let mut bp = BroadPhaseSieveTree::new();
    let mut events = Vec::new();
    let m = vec![modified(1, cube(0, 1_000_000)), modified(2, cube(9_000_000, 1_000_000))];
    bp.update(0, &m, &vec![], &mut events);
    assert!(!bp.is_touching(1, 2));
    assert!(!bp.is_touching(2, 1));
    assert!(events.is_empty());
}

#[test]
fn prediction_distance_loosens_the_query() {
    let mut bp = BroadPhaseSieveTree::new();
    let mut events = Vec::new();
    // Gap of 1.0 between the boxes; a prediction margin of 1.5 bridges it.
    let m = vec![modified(1, cube(0, 1_000_000)), modified(2, cube(3_000_000, 1_000_000))];
    bp.update(1_500_000, &m, &vec![], &mut events);
    assert!(bp.is_touching(1, 2));
    assert!(bp.is_touching(2, 1));
}

#[test]
fn separation_emits_delete_pair() {
    let mut bp = BroadPhaseSieveTree::new();
    let mut events = Vec::new();
    let m = vec![modified(1, cube(0, 1_000_000)), modified(2, cube(1_500_000, 1_000_000))];
    bp.update(0, &m, &vec![], &mut events);

    events.clear();
    let away = vec![modified(1, cube(20_000_000, 1_000_000))];
    bp.update(0, &away, &vec![], &mut events);
    assert!(!bp.is_touching(1, 2));
    assert!(!bp.is_touching(2, 1));
    assert_eq!(events, vec![delete(1, 2)]);
}

#[test]
fn touching_is_symmetric_after_updates() {
    let mut bp = BroadPhaseSieveTree::new();
    let mut events = Vec::new();
    let m = vec![
        modified(1, cube(0, 1_000_000)),
        modified(2, cube(1_500_000, 1_000_000)),
        modified(3, cube(2_500_000, 400_000)),
        modified(4, cube(9_000_000, 400_000)),
    ];
    bp.update(0, &m, &vec![], &mut events);
    let m2 = vec![modified(2, cube(8_500_000, 1_000_000))];
    bp.update(0, &m2, &vec![], &mut events);
    let handles = [1u64, 2, 3, 4];
    for &a in &handles {
        for &b in &handles {
            assert_eq!(bp.is_touching(a, b), bp.is_touching(b, a));
        }
    }
}

#[test]
fn removal_erases_every_record() {
    let mut bp = BroadPhaseSieveTree::new();
    let mut events = Vec::new();
    let m = vec![modified(1, cube(0, 1_000_000)), modified(2, cube(1_500_000, 1_000_000))];
    bp.update(0, &m, &vec![], &mut events);
    assert!(bp.has_collider(2));

    bp.update(0, &vec![], &vec![2], &mut events);
    assert!(!bp.has_collider(2));
    assert!(!bp.is_touching(1, 2));
    assert!(!bp.is_touching(2, 1));
}

#[test]
fn reinsertion_with_identical_bounds_restores_touching() {
    let mut bp = BroadPhaseSieveTree::new();
    let mut events = Vec::new();
    let b2 = cube(1_500_000, 1_000_000);
    let m = vec![modified(1, cube(0, 1_000_000)), modified(2, b2)];
    bp.update(0, &m, &vec![], &mut events);
    assert!(bp.is_touching(1, 2));

    bp.update(0, &vec![], &vec![2], &mut events);
    assert!(!bp.is_touching(1, 2));

    bp.update(0, &vec![modified(2, b2)], &vec![], &mut events);
    assert!(bp.is_touching(1, 2));
    assert!(bp.is_touching(2, 1));
}

#[test]
fn disabled_collider_keeps_stale_bounds() {
    let mut bp = BroadPhaseSieveTree::new();
    let mut events = Vec::new();
    let m = vec![modified(1, cube(0, 1_000_000)), modified(2, cube(1_500_000, 1_000_000))];
    bp.update(0, &m, &vec![], &mut events);

    // A disabled modification refreshes nothing: the old bounds stand and the
    // pair survives.
    let mut away = modified(1, cube(20_000_000, 1_000_000));
    away.enabled = false;
    bp.update(0, &vec![away], &vec![], &mut events);
    assert!(bp.is_touching(1, 2));
    assert_eq!(bp.stored_bounds(1), cube(0, 1_000_000));
}

#[test]
fn soft_ccd_merges_predicted_box() {
    let mut bp = BroadPhaseSieveTree::new();
    let mut events = Vec::new();
    let mut fast = modified(1, cube(0, 1_000_000));
    fast.soft_ccd_prediction = 500_000;
    fast.predicted_aabb = Some(cube(8_000_000, 1_000_000));
    let m = vec![fast, modified(2, cube(8_500_000, 1_000_000))];
    bp.update(0, &m, &vec![], &mut events);
    assert!(bp.is_touching(1, 2));
    assert_eq!(bp.stored_bounds(1).max_x, 9_000_000);
    assert_eq!(bp.stored_bounds(1).min_x, -1_000_000);
}

#[test]
fn index_query_is_exact() {
    let mut index = SpatialIndex::new();
    let a = index.insert(cube(0, 1_000_000), 10);
    let _b = index.insert(cube(5_000_000, 1_000_000), 20);
    let hits = index.intersections(&cube(500_000, 1_000_000));
    assert_eq!(hits.len(), 1);
    assert_eq!(hits[0], (a, 10));

    let all = index.intersections(&cube(2_500_000, 4_000_000));
    assert_eq!(all.len(), 2);

    let removed = index.remove(a);
    assert_eq!(removed, 10);
    let hits = index.intersections(&cube(500_000, 1_000_000));
    assert!(hits.is_empty());
}

#[test]
fn index_update_relocates_entry() {
    let mut index = SpatialIndex::new();
    let a = index.insert(cube(0, 1_000_000), 10);
    index.update_bounds(a, cube(6_000_000, 1_000_000));
    assert!(index.intersections(&cube(0, 1_000_000)).is_empty());
    let hits = index.intersections(&cube(6_500_000, 1_000_000));
    assert_eq!(hits, vec![(a, 10)]);
}

#[test]
fn bounds_overlap_is_closed_interval() {
    let a = cube(0, 1_000_000);
    let touching_edge = cube(2_000_000, 1_000_000);
    let apart = cube(2_000_001, 1_000_000);
    assert!(a.overlaps(&touching_edge));
    assert!(!a.overlaps(&apart));
}

#[test]
fn bounds_merge_and_loosen() {
    let a = cube(0, 1_000_000);
    let b = cube(3_000_000, 1_000_000);
    let m = a.merged(&b);
    assert_eq!(m.min_x, -1_000_000);
    assert_eq!(m.max_x, 4_000_000);
    let l = a.loosened(250_000);
    assert_eq!(l.min_x, -1_250_000);
    assert_eq!(l.max_x, 1_250_000);
    assert_eq!(l.min_y, -1_250_000);
}

#[test]
fn touching_equals_loosened_overlap() {
    // After an update, each pair of tracked colliders touches exactly when
    // their stored boxes, one loosened by the prediction margin, overlap.
    let mut bp = BroadPhaseSieveTree::new();
    let mut events = Vec::new();
    let p = 250_000;
    let m = vec![
        modified(1, cube(0, 1_000_000)),
        modified(2, cube(2_100_000, 1_000_000)),
        modified(3, cube(2_500_000, 300_000)),
        modified(4, cube(12_000_000, 1_000_000)),
    ];
    bp.update(p, &m, &vec![], &mut events);
    let handles = [1u64, 2, 3, 4];
    for &a in &handles {
        for &b in &handles {
            if a == b {
                assert!(!bp.is_touching(a, a));
                continue;
            }
            let expected = bp.stored_bounds(a).loosened(p).overlaps(&bp.stored_bounds(b));
            assert_eq!(bp.is_touching(a, b), expected);
        }
    }
}

#[test]
fn sort2_orders_any_pair() {
    assert_eq!(sort2(3, 7), (3, 7));
    assert_eq!(sort2(7, 3), (3, 7));
    assert_eq!(sort2(5, 5), (5, 5));
    assert_eq!(sort2(-2, 1), (-2, 1));
}
