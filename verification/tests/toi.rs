use std::cell::Cell;
use std::cmp::Ordering;
use std::collections::BinaryHeap;

use broadphase_ccd::SCALE;
use broadphase_ccd::toi_entry::{
    ceil_norm3, BodyInfo, BodyMotion, ColliderInfo, ColliderMotion, ColliderParentInfo, Pose,
    Quat, QueryDispatcher, TOIEntry, Unsupported, Vect3,
};

fn vect(x: i64, y: i64, z: i64) -> Vect3 {
    Vect3 { x, y, z }
}

fn pose_at(x: i64) -> Pose {
    Pose {
        translation: vect(x, 0, 0),
        rotation: Quat { i: 0, j: 0, k: 0, w: SCALE },
    }
}

fn sphere_collider(x: i64, radius: i64) -> ColliderInfo {
    ColliderInfo {
        is_sensor: false,
        ccd_thickness: radius,
        position: pose_at(x),
        parent: None,
    }
}

fn moving_body(linvel_x: i64) -> BodyInfo {
    BodyInfo {
        position: pose_at(0),
        next_position: pose_at(0),
        linvel: vect(linvel_x, 0, 0),
        angvel: vect(0, 0, 0),
        local_com: vect(0, 0, 0),
        ccd_active: true,
        ccd_max_dist: 500_000,
    }
}

/// A linear sphere-sphere solver along the x axis, instrumented to count how
/// often it is invoked.
struct SphereSolver {
    radius1: i64,
    radius2: i64,
    calls: Cell<u32>,
}

fn x_and_vx(m: &ColliderMotion) -> (i64, i64) {
    match &m.body {
        BodyMotion::Screw { start, linvel, .. } => {
            (start.translation.x + m.local.translation.x, linvel.x)
        }
        BodyMotion::Constant { pose } => (pose.translation.x + m.local.translation.x, 0),
    }
}

impl SphereSolver {
    fn solve(
        &self,
        m1: &ColliderMotion,
        m2: &ColliderMotion,
        start_time: i64,
        end_time: i64,
    ) -> Option<i64> {
        self.calls.set(self.calls.get() + 1);
        let (x1, v1) = x_and_vx(m1);
        let (x2, v2) = x_and_vx(m2);
        let gap = (x2 - x1).abs() - self.radius1 - self.radius2;
        let closing = if x2 > x1 { v1 - v2 } else { v2 - v1 };
        if closing <= 0 {
            return None;
        }
        let t = gap as i128 * SCALE as i128 / closing as i128;
        let t = t as i64;
        if t < start_time || t > end_time {
            None
        } else {
            Some(t)
        }
    }
}

impl QueryDispatcher for SphereSolver {
    fn nonlinear_time_of_impact(
        &self,
        _ch1: u64,
        motion1: &ColliderMotion,
        _ch2: u64,
        motion2: &ColliderMotion,
        start_time: i64,
        end_time: i64,
        _stop_at_penetration: bool,
    ) -> Result<Option<i64>, Unsupported> {
        Ok(self.solve(motion1, motion2, start_time, end_time))
    }

    fn time_of_impact(
        &self,
        _ch1: u64,
        motion1: &ColliderMotion,
        _ch2: u64,
        motion2: &ColliderMotion,
        start_time: i64,
        _rel_linvel: &Vect3,
        max_duration: i64,
    ) -> Option<i64> {
        self.solve(motion1, motion2, start_time, start_time + max_duration)
    }
}

/// A solver whose nonlinear query is unsupported, falling back to a fixed
/// linear answer.
struct UnsupportedNonlinear {
    linear_answer: Option<i64>,
    linear_calls: Cell<u32>,
}

impl QueryDispatcher for UnsupportedNonlinear {
    fn nonlinear_time_of_impact(
        &self,
        _ch1: u64,
        _motion1: &ColliderMotion,
        _ch2: u64,
        _motion2: &ColliderMotion,
        _start_time: i64,
        _end_time: i64,
        _stop_at_penetration: bool,
    ) -> Result<Option<i64>, Unsupported> {
        Err(Unsupported)
    }

    fn time_of_impact(
        &self,
        _ch1: u64,
        _motion1: &ColliderMotion,
        _ch2: u64,
        _motion2: &ColliderMotion,
        _start_time: i64,
        _rel_linvel: &Vect3,
        _max_duration: i64,
    ) -> Option<i64> {
        self.linear_calls.set(self.linear_calls.get() + 1);
        self.linear_answer
    }
}

#[test]
fn two_spheres_head_on() {
    // Two spheres of radius 0.5 whose surfaces stand 1.5 apart along x, the
    // first closing at 4.0 units per time, zero contact distance, window
    // [0, 1]: the impact comes at 1.5 / 4.0 = 0.375.
    let solver = SphereSolver { radius1: 500_000, radius2: 500_000, calls: Cell::new(0) };
    let c1 = sphere_collider(0, 500_000);
    let c2 = sphere_collider(2_500_000, 500_000);
    let b1 = moving_body(4_000_000);
    let r = TOIEntry::try_from_colliders(
        &solver, 1, 2, &c1, &c2, Some(&b1), None, None, None, 0, SCALE, 0,
    );
    let entry = r.expect("an impact candidate");
    assert_eq!(entry.toi, 375_000);
    assert_eq!(entry.c1, 1);
    assert_eq!(entry.c2, 2);
    assert_eq!(entry.b1, None);
    assert_eq!(entry.b2, None);
    assert!(!entry.is_intersection_test);
    assert_eq!(entry.timestamp, 0);
    assert_eq!(solver.calls.get(), 1);
}

#[test]
fn early_out_skips_solver() {
    // Same spheres, closing at only 0.5 units per time over window [0, 1]:
    // 1.0 * 0.5 is under the thickness margin 1.0, so the solver is never
    // invoked.
    let solver = SphereSolver { radius1: 500_000, radius2: 500_000, calls: Cell::new(0) };
    let c1 = sphere_collider(0, 500_000);
    let c2 = sphere_collider(2_500_000, 500_000);
    let b1 = moving_body(500_000);
    let r = TOIEntry::try_from_colliders(
        &solver, 1, 2, &c1, &c2, Some(&b1), None, None, None, 0, SCALE, 0,
    );
    assert!(r.is_none());
    assert_eq!(solver.calls.get(), 0);
}

#[test]
fn fixed_pair_returns_nothing() {
    // Two colliders without owning bodies cannot collide dynamically.
    let solver = SphereSolver { radius1: 500_000, radius2: 500_000, calls: Cell::new(0) };
    let c1 = sphere_collider(0, 500_000);
    let c2 = sphere_collider(1_000_000, 500_000);
    let r = TOIEntry::try_from_colliders(
        &solver, 1, 2, &c1, &c2, None, None, None, None, 0, SCALE, 0,
    );
    assert!(r.is_none());
    assert_eq!(solver.calls.get(), 0);
}

#[test]
fn frozen_side_contributes_no_speed() {
    // Freezing the only moving side zeroes its velocity contribution, so the
    // early-out fires even at high body speed.
    let solver = SphereSolver { radius1: 500_000, radius2: 500_000, calls: Cell::new(0) };
    let c1 = sphere_collider(0, 500_000);
    let c2 = sphere_collider(2_500_000, 500_000);
    let b1 = moving_body(4_000_000);
    let r = TOIEntry::try_from_colliders(
        &solver, 1, 2, &c1, &c2, Some(&b1), None, Some(0), None, 0, SCALE, 0,
    );
    assert!(r.is_none());
    assert_eq!(solver.calls.get(), 0);
}

#[test]
fn unsupported_pair_falls_back_to_linear() {
    let solver = UnsupportedNonlinear { linear_answer: Some(123_456), linear_calls: Cell::new(0) };
    let c1 = sphere_collider(0, 500_000);
    let c2 = sphere_collider(2_500_000, 500_000);
    let b1 = moving_body(4_000_000);
    let r = TOIEntry::try_from_colliders(
        &solver, 7, 9, &c1, &c2, Some(&b1), None, None, None, 0, SCALE, 0,
    );
    let entry = r.expect("the linear fallback result");
    assert_eq!(entry.toi, 123_456);
    assert_eq!(solver.linear_calls.get(), 1);
}

#[test]
fn solver_reporting_no_impact_gives_no_candidate() {
    let solver = UnsupportedNonlinear { linear_answer: None, linear_calls: Cell::new(0) };
    let c1 = sphere_collider(0, 500_000);
    let c2 = sphere_collider(2_500_000, 500_000);
    let b1 = moving_body(4_000_000);
    let r = TOIEntry::try_from_colliders(
        &solver, 7, 9, &c1, &c2, Some(&b1), None, None, None, 0, SCALE, 0,
    );
    assert!(r.is_none());
}

#[test]
fn sensor_marks_intersection_test() {
    let solver = SphereSolver { radius1: 500_000, radius2: 500_000, calls: Cell::new(0) };
    let mut c1 = sphere_collider(0, 500_000);
    c1.is_sensor = true;
    let c2 = sphere_collider(2_500_000, 500_000);
    let b1 = moving_body(4_000_000);
    let r = TOIEntry::try_from_colliders(
        &solver, 1, 2, &c1, &c2, Some(&b1), None, None, None, 0, SCALE, 0,
    );
    let entry = r.expect("an impact candidate");
    assert!(entry.is_intersection_test);
}

#[test]
fn parent_handles_are_recorded() {
    let solver = SphereSolver { radius1: 500_000, radius2: 500_000, calls: Cell::new(0) };
    let mut c1 = sphere_collider(0, 500_000);
    c1.parent = Some(ColliderParentInfo { handle: 42, pos_wrt_parent: pose_at(0) });
    let c2 = sphere_collider(2_500_000, 500_000);
    let b1 = moving_body(4_000_000);
    let r = TOIEntry::try_from_colliders(
        &solver, 1, 2, &c1, &c2, Some(&b1), None, None, None, 0, SCALE, 0,
    );
    let entry = r.expect("an impact candidate");
    assert_eq!(entry.b1, Some(42));
    assert_eq!(entry.b2, None);
}

struct ByOrder(TOIEntry);

impl PartialEq for ByOrder {
    fn eq(&self, other: &Self) -> bool {
        self.0 == other.0
    }
}

impl Eq for ByOrder {}

impl PartialOrd for ByOrder {
    fn partial_cmp(&self, other: &Self) -> Option<Ordering> {
        self.0.partial_cmp(&other.0)
    }
}

impl Ord for ByOrder {
    fn cmp(&self, other: &Self) -> Ordering {
        self.partial_cmp(other).unwrap()
    }
}

fn entry_with_toi(toi: i64) -> TOIEntry {
    TOIEntry::new(toi, 1, None, 2, None, false, 0)
}

#[test]
fn ordering_yields_ascending_times() {
    // Candidates with times 0.7, 0.1, 0.4 come out of a max-first priority
    // structure in ascending time: 0.1, 0.4, 0.7.
    let mut heap = BinaryHeap::new();
    heap.push(ByOrder(entry_with_toi(700_000)));
    heap.push(ByOrder(entry_with_toi(100_000)));
    heap.push(ByOrder(entry_with_toi(400_000)));
    assert_eq!(heap.pop().unwrap().0.toi, 100_000);
    assert_eq!(heap.pop().unwrap().0.toi, 400_000);
    assert_eq!(heap.pop().unwrap().0.toi, 700_000);
}

#[test]
fn comparison_is_on_negated_time() {
    let sooner = entry_with_toi(100_000);
    let later = entry_with_toi(400_000);
    assert_eq!(sooner.partial_cmp(&later), Some(Ordering::Greater));
    assert_eq!(later.partial_cmp(&sooner), Some(Ordering::Less));
    assert_eq!(sooner.partial_cmp(&sooner), Some(Ordering::Equal));
    assert!(sooner == entry_with_toi(100_000));
    assert!(!(sooner == later));
}

#[test]
fn body_motion_follows_ccd_flag() {
    let mut b = moving_body(1_000_000);
    b.next_position = pose_at(9_000_000);
    let m = TOIEntry::body_motion(&b);
    assert!(matches!(m, BodyMotion::Screw { .. }));
    b.ccd_active = false;
    let m = TOIEntry::body_motion(&b);
    match m {
        BodyMotion::Constant { pose } => assert_eq!(pose.translation.x, 9_000_000),
        _ => panic!("a constant motion"),
    }
}

#[test]
fn collider_motion_uses_own_pose_without_parent() {
    let c = sphere_collider(3_000_000, 500_000);
    let m = TOIEntry::collider_motion(&c, None, Some(777));
    assert_eq!(m.local.translation.x, 3_000_000);
    assert_eq!(m.frozen, Some(777));
    assert!(matches!(m.body, BodyMotion::Constant { .. }));
}

#[test]
fn ceil_norm_is_exact_on_pythagorean_triples() {
    assert_eq!(ceil_norm3(&vect(3_000_000, 4_000_000, 0)), 5_000_000);
    assert_eq!(ceil_norm3(&vect(0, 0, 0)), 0);
    assert_eq!(ceil_norm3(&vect(-3_000_000, 0, 4_000_000)), 5_000_000);
}

#[test]
fn ceil_norm_rounds_up() {
    // |(1, 1, 1)| is between 1 and 2, and the conservative bound rounds up.
    assert_eq!(ceil_norm3(&vect(1, 1, 1)), 2);
    assert_eq!(ceil_norm3(&vect(1, 0, 0)), 1);
}
