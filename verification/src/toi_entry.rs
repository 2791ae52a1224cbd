use vstd::prelude::*;
use core::cmp::Ordering;
use vstd::std_specs::cmp::PartialOrdSpec;
use crate::{in_range, VAL_MAX, SCALE};
use crate::math::{ceil_sqrt, ceil_isqrt, lemma_ceil_sqrt_nonneg, SQRT_HI};

verus! {

/// A velocity vector in the crate's fixed-point coordinates.
#[derive(Clone, Copy, PartialEq, Eq, Structural, Debug)]
pub struct Vect3 {
    pub x: i64,
    pub y: i64,
    pub z: i64,
}

impl Vect3 {
    pub open spec fn wf(self) -> bool {
        in_range(self.x) && in_range(self.y) && in_range(self.z)
    }

    pub open spec fn zero_spec() -> Vect3 {
        Vect3 { x: 0, y: 0, z: 0 }
    }

    pub fn zero() -> (r: Vect3)
        ensures
            r == Vect3::zero_spec(),
    {
        Vect3 { x: 0, y: 0, z: 0 }
    }
}

/// A unit quaternion in fixed-point form; pure data for this crate, consumed
/// by the geometric query capability.
#[derive(Clone, Copy, PartialEq, Eq, Structural, Debug)]
pub struct Quat {
    pub i: i64,
    pub j: i64,
    pub k: i64,
    pub w: i64,
}

/// A rigid pose: a translation and a rotation. This crate never composes or
/// inverts poses itself; it only decides which pose describes each side of a
/// query and hands them to the geometric query capability.
#[derive(Clone, Copy, PartialEq, Eq, Structural, Debug)]
pub struct Pose {
    pub translation: Vect3,
    pub rotation: Quat,
}

impl Pose {
    pub open spec fn identity_spec() -> Pose {
        Pose {
            translation: Vect3 { x: 0, y: 0, z: 0 },
            rotation: Quat { i: 0, j: 0, k: 0, w: SCALE },
        }
    }

    pub fn identity() -> (r: Pose)
        ensures
            r == Pose::identity_spec(),
    {
        Pose {
            translation: Vect3 { x: 0, y: 0, z: 0 },
            rotation: Quat { i: 0, j: 0, k: 0, w: SCALE },
        }
    }
}

/// The parent relation of a collider: the owning body's handle and the
/// collider's fixed pose in the body's frame.
#[derive(Clone, Copy, PartialEq, Eq, Structural, Debug)]
pub struct ColliderParentInfo {
    pub handle: u64,
    pub pos_wrt_parent: Pose,
}

/// What the estimator reads of a collider: its sensor flag, its shape's
/// intrinsic continuous-detection thickness, its world pose, and its optional
/// parent relation.
#[derive(Clone, Copy, PartialEq, Eq, Structural, Debug)]
pub struct ColliderInfo {
    pub is_sensor: bool,
    pub ccd_thickness: i64,
    pub position: Pose,
    pub parent: Option<ColliderParentInfo>,
}

impl ColliderInfo {
    pub open spec fn wf(self) -> bool {
        0 <= self.ccd_thickness <= VAL_MAX
    }
}

/// What the estimator reads of a rigid body: current and committed next pose,
/// velocities, center of mass, whether continuous tracking is active, and the
/// body's precomputed maximum sweep radius.
#[derive(Clone, Copy, PartialEq, Eq, Structural, Debug)]
pub struct BodyInfo {
    pub position: Pose,
    pub next_position: Pose,
    pub linvel: Vect3,
    pub angvel: Vect3,
    pub local_com: Vect3,
    pub ccd_active: bool,
    pub ccd_max_dist: i64,
}

impl BodyInfo {
    pub open spec fn wf(self) -> bool {
        &&& self.linvel.wf()
        &&& self.angvel.wf()
        &&& 0 <= self.ccd_max_dist <= VAL_MAX
    }
}

/// A body's trajectory over the query window: either a screw motion about its
/// center of mass from its current pose and velocities, or a constant pose for
/// bodies not requiring continuous tracking.
#[derive(Clone, Copy, PartialEq, Eq, Structural, Debug)]
pub enum BodyMotion {
    Screw { start: Pose, local_com: Vect3, linvel: Vect3, angvel: Vect3 },
    Constant { pose: Pose },
}

/// One side's complete trajectory: the underlying body motion, an optional
/// freeze time clamping the trajectory to a single pose from that time on,
/// and the collider's fixed pose relative to the moving frame.
#[derive(Clone, Copy, PartialEq, Eq, Structural, Debug)]
pub struct ColliderMotion {
    pub body: BodyMotion,
    pub frozen: Option<i64>,
    pub local: Pose,
}

/// Signals that a shape pair has no nonlinear time-of-impact solver.
#[derive(Clone, Copy, PartialEq, Eq, Structural, Debug)]
pub struct Unsupported;

/// The geometric query capability: shape-pair-specific time-of-impact solvers,
/// supplied by a collaborator. Shapes are addressed by collider handle into an
/// external store. The nonlinear solver may signal `Unsupported` for a shape
/// pair, in which case the estimator falls back to the linear solver.
pub trait QueryDispatcher {
    fn nonlinear_time_of_impact(
        &self,
        ch1: u64,
        motion1: &ColliderMotion,
        ch2: u64,
        motion2: &ColliderMotion,
        start_time: i64,
        end_time: i64,
        stop_at_penetration: bool,
    ) -> Result<Option<i64>, Unsupported>;

    fn time_of_impact(
        &self,
        ch1: u64,
        motion1: &ColliderMotion,
        ch2: u64,
        motion2: &ColliderMotion,
        start_time: i64,
        rel_linvel: &Vect3,
        max_duration: i64,
    ) -> Option<i64>;
}

/// An ordered impact candidate: the estimated impact time, both collider
/// handles with their optional owning bodies, the intersection-only flag, and
/// a sequencing counter assigned by the consumer.
#[derive(Clone, Copy, Debug)]
pub struct TOIEntry {
    pub toi: i64,
    pub c1: u64,
    pub b1: Option<u64>,
    pub c2: u64,
    pub b2: Option<u64>,
    pub is_intersection_test: bool,
    pub timestamp: usize,
}

/// The effective linear velocity of one side: the body's linear velocity,
/// zeroed when the side is frozen or has no body.
pub open spec fn lin_of(b: Option<&BodyInfo>, frozen: Option<i64>) -> Vect3 {
    if frozen is Some {
        Vect3::zero_spec()
    } else {
        match b {
            Option::Some(bb) => bb.linvel,
            Option::None => Vect3::zero_spec(),
        }
    }
}

/// The effective angular velocity of one side, zeroed in the same way.
pub open spec fn ang_of(b: Option<&BodyInfo>, frozen: Option<i64>) -> Vect3 {
    if frozen is Some {
        Vect3::zero_spec()
    } else {
        match b {
            Option::Some(bb) => bb.angvel,
            Option::None => Vect3::zero_spec(),
        }
    }
}

/// The body's configured maximum sweep radius, or zero without a body.
pub open spec fn ccd_dist_of(b: Option<&BodyInfo>) -> int {
    match b {
        Option::Some(bb) => bb.ccd_max_dist as int,
        Option::None => 0,
    }
}

pub open spec fn norm_sq3(x: int, y: int, z: int) -> int {
    x * x + y * y + z * z
}

/// A conservative bound on the relative closing speed of the pair, scaled by
/// `SCALE`: the ceiling norm of the relative linear velocity (in raw units,
/// times `SCALE`) plus each side's ceiling angular speed times that body's
/// maximum sweep radius.
pub open spec fn speed_bound_scaled(
    b1: Option<&BodyInfo>,
    b2: Option<&BodyInfo>,
    frozen1: Option<i64>,
    frozen2: Option<i64>,
) -> int {
    let l1 = lin_of(b1, frozen1);
    let l2 = lin_of(b2, frozen2);
    let a1 = ang_of(b1, frozen1);
    let a2 = ang_of(b2, frozen2);
    ceil_sqrt(norm_sq3(l2.x - l1.x, l2.y - l1.y, l2.z - l1.z)) * SCALE
        + ceil_sqrt(norm_sq3(a1.x as int, a1.y as int, a1.z as int)) * ccd_dist_of(b1)
        + ceil_sqrt(norm_sq3(a2.x as int, a2.y as int, a2.z as int)) * ccd_dist_of(b2)
}

/// The thickness margin of the pair: both shapes' intrinsic thicknesses plus
/// the non-negative part of the smallest contact distance.
pub open spec fn thickness_of(c1: &ColliderInfo, c2: &ColliderInfo, smallest_contact_dist: i64) -> int {
    c1.ccd_thickness + c2.ccd_thickness
        + if smallest_contact_dist >= 0 { smallest_contact_dist as int } else { 0 }
}

/// The speed-bound early-out: over the window, even the conservative closing
/// speed cannot cover the thickness margin, so no impact is reachable.
/// Both sides are scaled by `SCALE * SCALE` so the comparison is exact.
pub open spec fn no_impact_early_out(
    b1: Option<&BodyInfo>,
    b2: Option<&BodyInfo>,
    frozen1: Option<i64>,
    frozen2: Option<i64>,
    c1: &ColliderInfo,
    c2: &ColliderInfo,
    start_time: int,
    end_time: int,
    smallest_contact_dist: i64,
) -> bool {
    (end_time - start_time) * speed_bound_scaled(b1, b2, frozen1, frozen2)
        < thickness_of(c1, c2, smallest_contact_dist) * SCALE * SCALE
}

/// The owning body recorded on a candidate: the collider's parent handle.
pub open spec fn parent_handle(c: &ColliderInfo) -> Option<u64> {
    match c.parent {
        Option::Some(p) => Option::Some(p.handle),
        Option::None => Option::None,
    }
}

/// The trajectory built for one body.
pub open spec fn body_motion_spec(b: BodyInfo) -> BodyMotion {
    if b.ccd_active {
        BodyMotion::Screw {
            start: b.position,
            local_com: b.local_com,
            linvel: b.linvel,
            angvel: b.angvel,
        }
    } else {
        BodyMotion::Constant { pose: b.next_position }
    }
}

/// The trajectory built for one side of a query: the body's motion (a constant
/// identity frame without a body), the freeze time passed through, and the
/// collider's pose relative to its parent, or its own world pose without one.
pub open spec fn collider_motion_spec(
    c: &ColliderInfo,
    b: Option<&BodyInfo>,
    frozen: Option<i64>,
) -> ColliderMotion {
    ColliderMotion {
        body: match b {
            Option::Some(bb) => body_motion_spec(*bb),
            Option::None => BodyMotion::Constant { pose: Pose::identity_spec() },
        },
        frozen,
        local: match c.parent {
            Option::Some(p) => p.pos_wrt_parent,
            Option::None => c.position,
        },
    }
}

/// Ceiling norm of a vector: the ceiling square root of the sum of squared
/// components. Components may range up to twice the crate's value range so
/// that relative velocities fit.
pub fn ceil_norm3(v: &Vect3) -> (r: u64)
    requires
        -2 * VAL_MAX <= v.x <= 2 * VAL_MAX,
        -2 * VAL_MAX <= v.y <= 2 * VAL_MAX,
        -2 * VAL_MAX <= v.z <= 2 * VAL_MAX,
    ensures
        r as int == ceil_sqrt(norm_sq3(v.x as int, v.y as int, v.z as int)),
        r <= SQRT_HI,
{
    proof {
        assert(0 <= (v.x as int) * (v.x as int) <= 4_000_000_000_000_000_000_000_000) by (nonlinear_arith)
            requires -2 * VAL_MAX as int <= v.x as int <= 2 * VAL_MAX as int,
        {}
        assert(0 <= (v.y as int) * (v.y as int) <= 4_000_000_000_000_000_000_000_000) by (nonlinear_arith)
            requires -2 * VAL_MAX as int <= v.y as int <= 2 * VAL_MAX as int,
        {}
        assert(0 <= (v.z as int) * (v.z as int) <= 4_000_000_000_000_000_000_000_000) by (nonlinear_arith)
            requires -2 * VAL_MAX as int <= v.z as int <= 2 * VAL_MAX as int,
        {}
    }
    let xx: i128 = (v.x as i128) * (v.x as i128);
    let yy: i128 = (v.y as i128) * (v.y as i128);
    let zz: i128 = (v.z as i128) * (v.z as i128);
    let sum: i128 = xx + yy + zz;
    ceil_isqrt(sum as u128)
}

impl TOIEntry {
    /// Assemble an impact candidate from its parts.
    pub fn new(
        toi: i64,
        c1: u64,
        b1: Option<u64>,
        c2: u64,
        b2: Option<u64>,
        is_intersection_test: bool,
        timestamp: usize,
    ) -> (r: Self)
        ensures
            r.toi == toi,
            r.c1 == c1,
            r.b1 == b1,
            r.c2 == c2,
            r.b2 == b2,
            r.is_intersection_test == is_intersection_test,
            r.timestamp == timestamp,
    {
        Self {
            toi,
            c1,
            b1,
            c2,
            b2,
            is_intersection_test,
            timestamp,
        }
    }

    /// The trajectory of a body: a screw motion about its center of mass when
    /// continuous tracking is active, else a constant pose at its committed
    /// next position.
    pub fn body_motion(b: &BodyInfo) -> (m: BodyMotion)
        ensures
            m == body_motion_spec(*b),
    {
        if b.ccd_active {
            BodyMotion::Screw {
                start: b.position,
                local_com: b.local_com,
                linvel: b.linvel,
                angvel: b.angvel,
            }
        } else {
            BodyMotion::Constant { pose: b.next_position }
        }
    }

    /// One side's full trajectory for a query.
    pub fn collider_motion(c: &ColliderInfo, b: Option<&BodyInfo>, frozen: Option<i64>) -> (m: ColliderMotion)
        ensures
            m == collider_motion_spec(c, b, frozen),
    {
        let body = match b {
            Option::Some(bb) => Self::body_motion(bb),
            Option::None => BodyMotion::Constant { pose: Pose::identity() },
        };
        let local = match &c.parent {
            Option::Some(p) => p.pos_wrt_parent,
            Option::None => c.position,
        };
        ColliderMotion { body, frozen, local }
    }

    /// Estimate the time of impact of a candidate pair over the window
    /// `[start_time, end_time]`.
    ///
    /// Returns nothing when both sides lack an owning body, or when the
    /// speed-bound early-out shows no impact is reachable in the window, or
    /// when the solver reports no impact. On success the candidate carries the
    /// solver's time, both handles, each side's parent body, and the
    /// intersection-only flag (set when either collider is a sensor); the
    /// sequencing counter is left at zero for the caller.
    pub fn try_from_colliders<QD: QueryDispatcher>(
        query_dispatcher: &QD,
        ch1: u64,
        ch2: u64,
        c1: &ColliderInfo,
        c2: &ColliderInfo,
        b1: Option<&BodyInfo>,
        b2: Option<&BodyInfo>,
        frozen1: Option<i64>,
        frozen2: Option<i64>,
        start_time: i64,
        end_time: i64,
        smallest_contact_dist: i64,
    ) -> (r: Option<Self>)
        requires
            c1.wf(),
            c2.wf(),
            (b1 matches Option::Some(b) ==> b.wf()),
            (b2 matches Option::Some(b) ==> b.wf()),
            0 <= start_time <= end_time <= VAL_MAX,
            in_range(smallest_contact_dist),
        ensures
            b1 is None && b2 is None ==> r is None,
            !(b1 is None && b2 is None)
                && no_impact_early_out(b1, b2, frozen1, frozen2, c1, c2,
                    start_time as int, end_time as int, smallest_contact_dist)
                ==> r is None,
            (r matches Option::Some(e) ==> {
                &&& e.c1 == ch1
                &&& e.c2 == ch2
                &&& e.b1 == parent_handle(c1)
                &&& e.b2 == parent_handle(c2)
                &&& e.is_intersection_test == (c1.is_sensor || c2.is_sensor)
                &&& e.timestamp == 0
                &&& !(b1 is None && b2 is None)
                &&& !no_impact_early_out(b1, b2, frozen1, frozen2, c1, c2,
                        start_time as int, end_time as int, smallest_contact_dist)
            }),
    {
        if b1.is_none() && b2.is_none() {
            return None;
        }

        let zero = Vect3::zero();
        let l1 = if frozen1.is_some() { zero } else {
            match b1 { Option::Some(b) => b.linvel, Option::None => zero }
        };
        let l2 = if frozen2.is_some() { zero } else {
            match b2 { Option::Some(b) => b.linvel, Option::None => zero }
        };
        let a1 = if frozen1.is_some() { zero } else {
            match b1 { Option::Some(b) => b.angvel, Option::None => zero }
        };
        let a2 = if frozen2.is_some() { zero } else {
            match b2 { Option::Some(b) => b.angvel, Option::None => zero }
        };
        proof {
            assert(l1 == lin_of(b1, frozen1));
            assert(l2 == lin_of(b2, frozen2));
            assert(a1 == ang_of(b1, frozen1));
            assert(a2 == ang_of(b2, frozen2));
        }

        let rel = Vect3 { x: l2.x - l1.x, y: l2.y - l1.y, z: l2.z - l1.z };
        let linspeed: u64 = ceil_norm3(&rel);
        let angspeed1: u64 = ceil_norm3(&a1);
        let angspeed2: u64 = ceil_norm3(&a2);
        let ccd1: i64 = match b1 { Option::Some(b) => b.ccd_max_dist, Option::None => 0 };
        let ccd2: i64 = match b2 { Option::Some(b) => b.ccd_max_dist, Option::None => 0 };

        proof {
            assert((linspeed as int) * (SCALE as int) <= (SQRT_HI as int) * (SCALE as int)
                && (linspeed as int) * (SCALE as int) >= 0) by (nonlinear_arith)
                requires 0 <= linspeed as int <= SQRT_HI as int,
            {}
            assert(0 <= (angspeed1 as int) * (ccd1 as int)
                && (angspeed1 as int) * (ccd1 as int) <= (SQRT_HI as int) * (VAL_MAX as int))
                by (nonlinear_arith)
                requires 0 <= angspeed1 as int <= SQRT_HI as int && 0 <= ccd1 as int <= VAL_MAX as int,
            {}
            assert(0 <= (angspeed2 as int) * (ccd2 as int)
                && (angspeed2 as int) * (ccd2 as int) <= (SQRT_HI as int) * (VAL_MAX as int))
                by (nonlinear_arith)
                requires 0 <= angspeed2 as int <= SQRT_HI as int && 0 <= ccd2 as int <= VAL_MAX as int,
            {}
        }
        let vel12: i128 = (linspeed as i128) * (SCALE as i128)
            + (angspeed1 as i128) * (ccd1 as i128)
            + (angspeed2 as i128) * (ccd2 as i128);
        proof {
            assert(vel12 as int == speed_bound_scaled(b1, b2, frozen1, frozen2));
        }

        // Taking the non-negative part of the contact distance is slightly
        // over-conservative, which is welcome at this stage.
        let thickness: i64 = c1.ccd_thickness + c2.ccd_thickness + crate::nonneg(smallest_contact_dist);
        let is_intersection_test = c1.is_sensor || c2.is_sensor;

        proof {
            assert(((end_time - start_time) as int) * (vel12 as int)
                <= (VAL_MAX as int) * (9_000_000_000_000_000_000_000_000 as int)
                && ((end_time - start_time) as int) * (vel12 as int) >= 0) by (nonlinear_arith)
                requires 0 <= (end_time - start_time) as int <= VAL_MAX as int
                    && 0 <= vel12 as int <= 9_000_000_000_000_000_000_000_000,
            {}
            assert((thickness as int) * (SCALE as int) * (SCALE as int)
                <= (3 * VAL_MAX as int) * (SCALE as int) * (SCALE as int)
                && (thickness as int) * (SCALE as int) * (SCALE as int) >= 0) by (nonlinear_arith)
                requires 0 <= thickness as int <= 3 * VAL_MAX as int,
            {}
        }
        let lhs: i128 = ((end_time - start_time) as i128) * vel12;
        let rhs: i128 = (thickness as i128) * (SCALE as i128) * (SCALE as i128);
        if lhs < rhs {
            return None;
        }

        let motion_c1 = Self::collider_motion(c1, b1, frozen1);
        let motion_c2 = Self::collider_motion(c2, b2, frozen2);

        // For a pair involving a sensor, the first penetration found is
        // enough; for two physical colliders the search must not stop there,
        // since the pair may be on a separating trajectory.
        let stop_at_penetration = is_intersection_test;

        let res_toi = match query_dispatcher.nonlinear_time_of_impact(
            ch1, &motion_c1, ch2, &motion_c2, start_time, end_time, stop_at_penetration,
        ) {
            Result::Ok(t) => t,
            Result::Err(_) => {
                // Fall back on the linear solver when the nonlinear one does
                // not support this shape pair.
                query_dispatcher.time_of_impact(
                    ch1, &motion_c1, ch2, &motion_c2, start_time, &rel, end_time - start_time,
                )
            }
        };

        let toi = match res_toi {
            Option::Some(t) => t,
            Option::None => { return None; }
        };

        let bh1 = match &c1.parent { Option::Some(p) => Option::Some(p.handle), Option::None => Option::None };
        let bh2 = match &c2.parent { Option::Some(p) => Option::Some(p.handle), Option::None => Option::None };

        Some(Self::new(toi, ch1, bh1, ch2, bh2, is_intersection_test, 0))
    }
}

/// Shrinking the query window cannot defeat the speed-bound early-out: if no
/// impact is reachable over `[t0, t1]`, none is reachable over any sub-window
/// with the same velocities.
pub proof fn lemma_no_impact_monotone(
    b1: Option<&BodyInfo>,
    b2: Option<&BodyInfo>,
    frozen1: Option<i64>,
    frozen2: Option<i64>,
    c1: &ColliderInfo,
    c2: &ColliderInfo,
    t0: int,
    t1: int,
    t0p: int,
    t1p: int,
    smallest_contact_dist: i64,
)
    requires
        (b1 matches Option::Some(b) ==> b.wf()),
        (b2 matches Option::Some(b) ==> b.wf()),
        no_impact_early_out(b1, b2, frozen1, frozen2, c1, c2, t0, t1, smallest_contact_dist),
        t0 <= t0p <= t1p <= t1,
    ensures
        no_impact_early_out(b1, b2, frozen1, frozen2, c1, c2, t0p, t1p, smallest_contact_dist),
{
    let s = speed_bound_scaled(b1, b2, frozen1, frozen2);
    lemma_speed_bound_nonneg(b1, b2, frozen1, frozen2);
    assert((t1p - t0p) * s <= (t1 - t0) * s) by (nonlinear_arith)
        requires 0 <= t1p - t0p <= t1 - t0 && s >= 0,
    {}
}

/// A square is never negative.
pub proof fn lemma_sq_nonneg(a: int)
    ensures
        a * a >= 0,
{
    assert(a * a >= 0) by (nonlinear_arith);
}

/// The conservative closing-speed bound is never negative.
pub proof fn lemma_speed_bound_nonneg(
    b1: Option<&BodyInfo>,
    b2: Option<&BodyInfo>,
    frozen1: Option<i64>,
    frozen2: Option<i64>,
)
    requires
        (b1 matches Option::Some(b) ==> b.wf()),
        (b2 matches Option::Some(b) ==> b.wf()),
    ensures
        speed_bound_scaled(b1, b2, frozen1, frozen2) >= 0,
{
    let l1 = lin_of(b1, frozen1);
    let l2 = lin_of(b2, frozen2);
    let a1 = ang_of(b1, frozen1);
    let a2 = ang_of(b2, frozen2);
    let nl = norm_sq3(l2.x - l1.x, l2.y - l1.y, l2.z - l1.z);
    let n1 = norm_sq3(a1.x as int, a1.y as int, a1.z as int);
    let n2 = norm_sq3(a2.x as int, a2.y as int, a2.z as int);
    lemma_sq_nonneg(l2.x - l1.x);
    lemma_sq_nonneg(l2.y - l1.y);
    lemma_sq_nonneg(l2.z - l1.z);
    lemma_sq_nonneg(a1.x as int);
    lemma_sq_nonneg(a1.y as int);
    lemma_sq_nonneg(a1.z as int);
    lemma_sq_nonneg(a2.x as int);
    lemma_sq_nonneg(a2.y as int);
    lemma_sq_nonneg(a2.z as int);
    assert(nl >= 0 && n1 >= 0 && n2 >= 0);
    lemma_ceil_sqrt_nonneg(nl);
    lemma_ceil_sqrt_nonneg(n1);
    lemma_ceil_sqrt_nonneg(n2);
    assert(ceil_sqrt(nl) * SCALE >= 0) by (nonlinear_arith)
        requires ceil_sqrt(nl) >= 0,
    {}
    assert(ceil_sqrt(n1) * ccd_dist_of(b1) >= 0) by (nonlinear_arith)
        requires ceil_sqrt(n1) >= 0 && ccd_dist_of(b1) >= 0,
    {}
    assert(ceil_sqrt(n2) * ccd_dist_of(b2) >= 0) by (nonlinear_arith)
        requires ceil_sqrt(n2) >= 0 && ccd_dist_of(b2) >= 0,
    {}
}

impl PartialEq for TOIEntry {
    /// Candidates compare equal exactly when their impact times are equal.
    fn eq(&self, other: &Self) -> (r: bool) {
        self.toi == other.toi
    }
}

impl Eq for TOIEntry {}

impl vstd::std_specs::cmp::PartialEqSpecImpl for TOIEntry {
    open spec fn obeys_eq_spec() -> bool {
        true
    }

    open spec fn eq_spec(&self, other: &Self) -> bool {
        self.toi == other.toi
    }
}

impl PartialOrd for TOIEntry {
    /// The total order on candidates: comparison on the negated impact time,
    /// so that a structure retrieving its maximum element yields the soonest
    /// impact first.
    fn partial_cmp(&self, other: &Self) -> (r: Option<Ordering>) {
        if self.toi > other.toi {
            Some(Ordering::Less)
        } else if self.toi == other.toi {
            Some(Ordering::Equal)
        } else {
            Some(Ordering::Greater)
        }
    }
}

impl vstd::std_specs::cmp::PartialOrdSpecImpl for TOIEntry {
    open spec fn obeys_partial_cmp_spec() -> bool {
        true
    }

    open spec fn partial_cmp_spec(&self, other: &Self) -> Option<Ordering> {
        if self.toi > other.toi {
            Option::Some(Ordering::Less)
        } else if self.toi == other.toi {
            Option::Some(Ordering::Equal)
        } else {
            Option::Some(Ordering::Greater)
        }
    }
}

/// The defined order ranks the candidate with the greater impact time lower:
/// retrieving maxima yields candidates in ascending impact time.
pub proof fn lemma_order_is_by_soonest_impact(a: TOIEntry, b: TOIEntry)
    ensures
        a.partial_cmp_spec(&b) == Option::Some(Ordering::Less) <==> a.toi > b.toi,
        a.partial_cmp_spec(&b) == Option::Some(Ordering::Equal) <==> a.toi == b.toi,
        a.partial_cmp_spec(&b) == Option::Some(Ordering::Greater) <==> a.toi < b.toi,
{
}

} // verus!
