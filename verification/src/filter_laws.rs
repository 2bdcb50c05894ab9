//! What the filter's corrections do, where arithmetic does not round.

use vstd::prelude::*;

use crate::camera_laws::{lemma_cancel, lemma_commutes};
use crate::cuvslam_model::{speed_of, Speed};
use crate::eskf::{injected, shifted, three_rows_of, RowView, StateView};
use crate::estimator::{applied_by, first_delta, pose_of, pose_row, twist_row, twist_seen};
use crate::estimator::{ApplyTrace, Constants, Measurement, Memory, StepRules};
use crate::exact::{constants_exact, exact, held_within, product6, small, turns_lawful};
use crate::exact::{whole_part, Meaning, Vec3};
use crate::exact_laws::law_residual_takes_the_estimate_to_the_target;
use crate::exact_laws::{law_turn_is_about_the_bodys_axis, lemma_times_one, lemma_times_zero};
use crate::exact_laws::lemma_zero_stays;
use crate::formulas::{body_motion_of, congruent_of, milliseconds_of, nanoseconds_of, period_of};
use crate::formulas::{pose_residual_of, seconds_of, turn_of, BodyMotion, BILLION_BITS};
use crate::fusion_model::{given_out_by, EventView, FusionCore};
use crate::motion_laws::law_body_velocity_turns_into_the_worlds;
use crate::motion_laws::{law_covariance_turns_into_the_body, law_seconds_are_nanoseconds};
use crate::numerics::Numerics;
use crate::scalar::{spec_larger, Scalar};
use crate::stamp::span;
use crate::tracker::{adjoint_entries, adjoint_of, cuv_pose_of, pose_of_cuv, rotation_widened};
use crate::tracker::CuvPose;
use crate::types::{spec_skew, Matrix3, Matrix6, OdometryEstimate, Pose, Quaternion, Six, Vector3};

verus! {

/// What a measured number's row reads off an error of the state.
pub open spec fn row_reads(m: Meaning, row: RowView, e: ErrorState) -> real {
    m.vec(row.jacobian.position).dot(e.position) + m.vec(row.jacobian.velocity).dot(e.velocity)
        + m.vec(row.jacobian.theta).dot(e.theta) + if row.jacobian.biases.len() > 0 {
        m.vec(row.jacobian.biases[0].gyro).dot(e.gyro_bias) + m.vec(
            row.jacobian.biases[0].accel,
        ).dot(e.accel_bias)
    } else {
        0real
    }
}

/// By how much a state is off: the parts that are added, and the axis about which the attitude is
/// turned in the body.
pub struct ErrorState {
    pub position: Vec3,
    pub velocity: Vec3,
    pub theta: Vec3,
    pub gyro_bias: Vec3,
    pub accel_bias: Vec3,
}

/// Component 0, 1 or 2.
pub open spec fn part(v: Vec3, dim: int) -> real {
    if dim == 0 {
        v.x
    } else if dim == 1 {
        v.y
    } else {
        v.z
    }
}

proof fn lemma_along(m: Meaning, dim: int, value: Scalar, v: Vec3)
    requires
        constants_exact(m),
        0 <= dim < 3,
    ensures
        m.vec(Vector3::spec_along(dim, value)).dot(v) == m.num(value) * part(v, dim),
{
    lemma_times_zero(0real, v.x);
    lemma_times_zero(0real, v.y);
    lemma_times_zero(0real, v.z);
}

proof fn lemma_nothing(m: Meaning, v: Vec3)
    requires
        constants_exact(m),
    ensures
        m.vec(Vector3::zeros()).dot(v) == 0real,
{
    lemma_times_zero(0real, v.x);
    lemma_times_zero(0real, v.y);
    lemma_times_zero(0real, v.z);
}

/// Law: a row of the pose reads the error of its own dimension: of the position, or of the
/// attitude about the body's axis; and its residual and variance are that dimension's.
pub proof fn law_pose_row_reads_its_dimension(
    m: Meaning,
    dim: int,
    residual: Six,
    variance: Six,
    e: ErrorState,
)
    requires
        constants_exact(m),
        0 <= dim < 6,
    ensures
        row_reads(m, pose_row(dim, residual, variance), e) == if dim < 3 {
            part(e.position, dim)
        } else {
            part(e.theta, dim - 3)
        },
        pose_row(dim, residual, variance).residual == residual.at(dim),
        pose_row(dim, residual, variance).variance == variance.at(dim),
{
    lemma_nothing(m, e.position);
    lemma_nothing(m, e.velocity);
    lemma_nothing(m, e.theta);
    if dim < 3 {
        lemma_along(m, dim, Scalar::one(), e.position);
        lemma_times_one(1real, part(e.position, dim));
    } else {
        lemma_along(m, dim - 3, Scalar::one(), e.theta);
        lemma_times_one(1real, part(e.theta, dim - 3));
    }
}

/// The matrix of a cross product.
pub proof fn lemma_skew(m: Meaning, a: Vector3, v: Vec3)
    requires
        constants_exact(m),
    ensures
        m.on(spec_skew(a), v) == m.vec(a).cross(v),
{
    let w = m.vec(a);
    lemma_times_zero(0real, v.x);
    lemma_times_zero(0real, v.y);
    lemma_times_zero(0real, v.z);
    lemma_opposite_factor(w.z, v.y);
    lemma_opposite_factor(w.x, v.z);
    lemma_opposite_factor(w.y, v.x);
}

pub proof fn lemma_opposite_factor(a: real, b: real)
    ensures
        (0real - a) * b == 0real - a * b,
{
    assert((0real - a) * b == 0real - a * b) by (nonlinear_arith);
}

/// Law: a row of the body's velocity reads by how much an error changes the velocity that the body
/// sees: the velocity's error as the body sees it, and the velocity across the attitude's error.
pub proof fn law_velocity_row_reads_the_bodys_velocity<N: Numerics>(
    n: &N,
    m: Meaning,
    x: StateView,
    motion: BodyMotion,
    dim: int,
    residual: Six,
    variance: Six,
    e: ErrorState,
)
    requires
        exact(n, m),
        body_motion_of(n, x.q, x.velocity, motion),
        0 <= dim < 3,
    ensures
        row_reads(m, twist_row(dim, motion, residual, variance), e) == part(
            m.turn(x.q.back(), m.vec(x.velocity).plus(e.velocity)).minus(m.vec(motion.velocity)),
            dim,
        ) + part(m.vec(motion.velocity).cross(e.theta), dim),
        m.turn(x.q, m.vec(motion.velocity)) == m.vec(x.velocity),
{
    lemma_nothing(m, e.position);
    law_body_velocity_turns_into_the_worlds(n, m, x.q, x.velocity, motion, e.velocity);
    let b = motion.body_from_world;
    let v = m.vec(x.velocity);
    assert(m.on(b, e.velocity) == m.turn(x.q.back(), e.velocity));
    assert(m.on(b, v) == m.turn(x.q.back(), v));
    assert(m.vec(motion.velocity) == m.turn(x.q.back(), v));
    assert(m.turns_sums(x.q.back(), v, e.velocity));
    lemma_skew(m, motion.velocity, e.theta);
}

/// Law: a row of the angular rate reads by how much an error changes the predicted rate: the last
/// gyro reading less its bias.
pub proof fn law_rate_row_reads_the_gyro_bias(
    m: Meaning,
    motion: BodyMotion,
    dim: int,
    residual: Six,
    variance: Six,
    e: ErrorState,
    gyro: Vec3,
    bias: Vec3,
)
    requires
        constants_exact(m),
        3 <= dim < 6,
    ensures
        row_reads(m, twist_row(dim, motion, residual, variance), e) == part(
            gyro.minus(bias.plus(e.gyro_bias)).minus(gyro.minus(bias)),
            dim - 3,
        ),
{
    lemma_nothing(m, e.position);
    lemma_nothing(m, e.velocity);
    lemma_nothing(m, e.theta);
    lemma_nothing(m, e.accel_bias);
    lemma_along(m, dim - 3, Scalar::minus_one(), e.gyro_bias);
    lemma_opposite_factor(1real, part(e.gyro_bias, dim - 3));
    lemma_times_one(1real, part(e.gyro_bias, dim - 3));
}

/// Law: a twist's residual takes the predicted twist to the measured one: the velocity that the
/// body sees, and the last gyro reading less its bias.
pub proof fn law_twist_residual_takes_the_prediction_to_the_measurement<N: Numerics>(
    n: &N,
    m: Meaning,
    x: StateView,
    last_gyro: Vector3,
    linear: Vector3,
    angular: Vector3,
    motion: BodyMotion,
    predicted: Vector3,
    residual: Six,
)
    requires
        exact(n, m),
        twist_seen(n, x, last_gyro, linear, angular, motion, predicted, residual),
    ensures
        m.turn(x.q, m.vec(linear).minus(m.vec(residual.linear))) == m.vec(x.velocity),
        m.vec(angular).minus(m.vec(residual.angular)).plus(m.vec(x.biases[0].gyro)) == m.vec(
            last_gyro,
        ),
{
    law_body_velocity_turns_into_the_worlds(n, m, x.q, x.velocity, motion, Vec3::zero());
    assert(m.vec(linear).minus(m.vec(residual.linear)) == m.vec(motion.velocity));
    assert(m.vec(angular).minus(m.vec(residual.angular)) == m.vec(predicted));
}

/// Law: a source's motion is applied where the estimate was when the source was last fused. The
/// target is the anchor moved by the motion, and the residual takes the estimate to it.
pub proof fn law_target_is_the_anchor_moved<N: Numerics>(
    n: &N,
    m: Meaning,
    c: Constants,
    rules: StepRules,
    before: Memory<N::Matrix>,
    z: Measurement,
    t: ApplyTrace<N::Matrix>,
    after: Memory<N::Matrix>,
    gated: int,
)
    requires
        exact(n, m),
        applied_by(n, c, rules, before, z, t, after, gated),
        z.delta is Some,
        before.anchors[z.source as int] is Some,
    ensures
        t.target is Some,
        m.is_after(t.target->0, before.anchors[z.source as int]->0, z.delta->0),
        m.vec(before.x.position).plus(m.vec(t.residual.linear)) == m.vec(
            (t.target->0).translation,
        ),
        m.turns_from(before.x.q, (t.target->0).rotation, m.vec(t.residual.angular)),
{
    let anchor = before.anchors[z.source as int]->0;
    assert forall|v: Vec3| #[trigger]
        m.moves(t.target->0, v) == m.moves(anchor, m.moves(z.delta->0, v)) by {}
    law_residual_takes_the_estimate_to_the_target(
        n,
        m,
        t.target->0,
        before.x.position,
        before.x.q,
        t.residual,
        Vec3::zero(),
    );
}

/// Law: a source that stands still agrees with the estimate. Once a pose of the source was taken,
/// and if nothing moved the estimate since, a message that it has not moved has the estimate itself
/// for its target and no residual.
pub proof fn law_still_source_agrees_with_the_estimate<N: Numerics>(
    n: &N,
    m: Meaning,
    c: Constants,
    rules: StepRules,
    before: Memory<N::Matrix>,
    z: Measurement,
    t: ApplyTrace<N::Matrix>,
    settled: Memory<N::Matrix>,
    gated: int,
    again: Measurement,
    s: ApplyTrace<N::Matrix>,
    after: Memory<N::Matrix>,
    more: int,
)
    requires
        exact(n, m),
        applied_by(n, c, rules, before, z, t, settled, gated),
        first_delta(before, z) || (t.accepted && t.target is Some && t.constraint.len() == 0),
        0 <= z.source < before.anchors.len(),
        again.source == z.source,
        again.delta is Some,
        forall|v: Vec3| #[trigger] m.moves(again.delta->0, v) == v,
        applied_by(n, c, rules, settled, again, s, after, more),
    ensures
        s.target is Some,
        m.same_motion(s.target->0, pose_of(settled.x)),
        m.vec(s.residual.linear) == Vec3::zero(),
        m.vec(s.residual.angular) == Vec3::zero(),
{
    let here = pose_of(settled.x);
    assert(settled.anchors[z.source as int] == Some(here));
    law_target_is_the_anchor_moved(n, m, c, rules, settled, again, s, after, more);
    let target = s.target->0;
    assert forall|v: Vec3| #[trigger] m.moves(target, v) == m.moves(here, v) by {
        assert(m.moves(again.delta->0, v) == v);
    }
    lemma_same_motion_parts(m, target, here);
    assert(m.turns_from(settled.x.q, target.rotation, Vec3::zero())) by {
        assert forall|v: Vec3| #[trigger]
            m.turn(target.rotation, v) == m.turn(settled.x.q, m.swing(Vec3::zero(), v)) by {
            assert(m.swing(Vec3::zero(), v) == v);
            assert(m.turn(target.rotation, v) == m.turn(here.rotation, v));
        }
    }
    lemma_times_zero(0real, 0real);
    law_residual_takes_the_estimate_to_the_target(
        n,
        m,
        target,
        settled.x.position,
        settled.x.q,
        s.residual,
        Vec3::zero(),
    );
}

/// The same motion has the same shift and the same turn.
pub proof fn lemma_same_motion_parts(m: Meaning, a: Pose, b: Pose)
    requires
        turns_lawful(m),
        m.same_motion(a, b),
    ensures
        m.vec(a.translation) == m.vec(b.translation),
        m.same_turn(a.rotation, b.rotation),
{
    let z = Vec3::zero();
    lemma_zero_stays(m, a.rotation);
    lemma_zero_stays(m, b.rotation);
    assert(m.moves(a, z) == m.moves(b, z));
    assert(z.plus(m.vec(a.translation)) == m.vec(a.translation));
    assert(z.plus(m.vec(b.translation)) == m.vec(b.translation));
    assert forall|v: Vec3| #[trigger] m.turn(a.rotation, v) == m.turn(b.rotation, v) by {
        assert(m.moves(a, v) == m.moves(b, v));
        let t = m.vec(a.translation);
        assert(m.turn(a.rotation, v).plus(t).minus(t) == m.turn(a.rotation, v));
        assert(m.turn(b.rotation, v).plus(t).minus(t) == m.turn(b.rotation, v));
    }
}

/// The entries of the column stand for these reals.
pub open spec fn column<N: Numerics>(
    n: &N,
    m: Meaning,
    dx: N::Matrix,
    e: spec_fn(int) -> real,
) -> bool {
    forall|i: usize, r: Scalar| #[trigger]
        call_ensures(N::entry, (n, &dx, i, 0usize), r) ==> m.num(r) == e(i as int)
}

/// Three entries from a place on.
pub open spec fn three(e: spec_fn(int) -> real, at: int) -> Vec3 {
    Vec3 { x: e(at), y: e(at + 1), z: e(at + 2) }
}

/// Law: a correction is put where the error state has it: the position, the velocity and each
/// IMU's biases are shifted by their entries, and the attitude is turned by its entries about the
/// body's own axis.
pub proof fn law_injection_adds_the_error<N: Numerics>(
    n: &N,
    m: Meaning,
    before: StateView,
    dx: N::Matrix,
    after: StateView,
    e: spec_fn(int) -> real,
    imu: int,
)
    requires
        exact(n, m),
        injected(n, before, dx, after),
        column(n, m, dx, e),
        0 <= imu < before.biases.len(),
        9 + 6 * before.biases.len() <= usize::MAX,
    ensures
        m.vec(after.position) == m.vec(before.position).plus(three(e, 0)),
        m.vec(after.velocity) == m.vec(before.velocity).plus(three(e, 3)),
        m.turns_from(before.q, after.q, three(e, 6)),
        m.vec(after.biases[imu].gyro) == m.vec(before.biases[imu].gyro).plus(
            three(e, 9 + 6 * imu),
        ),
        m.vec(after.biases[imu].accel) == m.vec(before.biases[imu].accel).plus(
            three(e, 12 + 6 * imu),
        ),
{
    lemma_shift(n, m, before.position, dx, 0, after.position, e);
    lemma_shift(n, m, before.velocity, dx, 3, after.velocity, e);
    let step = choose|step: Vector3|
        three_rows_of(n, dx, 6, step) && #[trigger] turn_of(n, before.q, step, after.q);
    assert(m.vec(step) == three(e, 6));
    law_turn_is_about_the_bodys_axis(n, m, before.q, step, after.q);
    assert(after.biases[imu] == after.biases[imu]);
    lemma_shift(
        n,
        m,
        before.biases[imu].gyro,
        dx,
        (9 + 6 * imu) as usize,
        after.biases[imu].gyro,
        e,
    );
    lemma_shift(
        n,
        m,
        before.biases[imu].accel,
        dx,
        (12 + 6 * imu) as usize,
        after.biases[imu].accel,
        e,
    );
}

proof fn lemma_shift<N: Numerics>(
    n: &N,
    m: Meaning,
    before: Vector3,
    dx: N::Matrix,
    at: usize,
    after: Vector3,
    e: spec_fn(int) -> real,
)
    requires
        exact(n, m),
        shifted(n, before, dx, at, after),
        column(n, m, dx, e),
        at + 2 <= usize::MAX,
    ensures
        m.vec(after) == m.vec(before).plus(three(e, at as int)),
{
    let step = choose|step: Vector3|
        three_rows_of(n, dx, at, step) && #[trigger] call_ensures(
            N::plus,
            (n, &before, &step),
            after,
        );
    assert(m.vec(step) == three(e, at as int));
}

/// Law: a correction by the whole residual brings the estimate to the target.
pub proof fn law_whole_residual_reaches_the_target<N: Numerics>(
    n: &N,
    m: Meaning,
    target: Pose,
    before: StateView,
    residual: Six,
    dx: N::Matrix,
    after: StateView,
    e: spec_fn(int) -> real,
)
    requires
        exact(n, m),
        pose_residual_of(n, target, before.position, before.q, residual),
        injected(n, before, dx, after),
        column(n, m, dx, e),
        three(e, 0) == m.vec(residual.linear),
        three(e, 6) == m.vec(residual.angular),
    ensures
        m.same_motion(pose_of(after), target),
{
    law_residual_takes_the_estimate_to_the_target(
        n,
        m,
        target,
        before.position,
        before.q,
        residual,
        Vec3::zero(),
    );
    lemma_shift(n, m, before.position, dx, 0, after.position, e);
    let step = choose|step: Vector3|
        three_rows_of(n, dx, 6, step) && #[trigger] turn_of(n, before.q, step, after.q);
    assert(m.vec(step) == three(e, 6));
    law_turn_is_about_the_bodys_axis(n, m, before.q, step, after.q);
    assert forall|v: Vec3| #[trigger] m.moves(pose_of(after), v) == m.moves(target, v) by {
        assert(m.turn(after.q, v) == m.turn(before.q, m.swing(m.vec(step), v)));
        assert(m.turn(target.rotation, v) == m.turn(before.q, m.swing(
            m.vec(residual.angular),
            v,
        )));
    }
}

/// Law: what is given out is the estimate as the body has it. The twist's velocity, turned by the
/// pose, is the velocity in the world; its angular rate is the last gyro reading less its bias; and
/// the velocity's covariance says of the body's directions what the world's says of where the pose
/// turns them.
pub proof fn law_output_is_the_estimate_in_the_body<N: Numerics>(
    m: Meaning,
    core: FusionCore<N>,
    latest: EventView<N::Matrix>,
    motion: BodyMotion,
    velocity_world: Matrix3,
    velocity_body: Matrix3,
    out: OdometryEstimate,
    u: Vec3,
    v: Vec3,
)
    requires
        exact(&core.numerics, m),
        given_out_by(core, latest, motion, velocity_world, velocity_body, out),
    ensures
        m.turn(out.pose.rotation, m.vec(out.twist.linear)) == m.vec(latest.left.x.velocity),
        m.vec(out.twist.angular).plus(m.vec(latest.left.x.biases[0].gyro)) == m.vec(
            latest.left.last_gyro,
        ),
        u.dot(m.on(velocity_block(out.twist_covariance), v)) == m.turn(out.pose.rotation, u).dot(
            m.on(velocity_world, m.turn(out.pose.rotation, v)),
        ),
{
    let x = latest.left.x;
    let n = &core.numerics;
    law_body_velocity_turns_into_the_worlds(n, m, x.q, x.velocity, motion, u);
    law_covariance_turns_into_the_body(
        n,
        m,
        x.q,
        x.velocity,
        motion,
        velocity_world,
        velocity_body,
        u,
        v,
    );
    let c = out.twist_covariance;
    assert(c.at(0, 0) == velocity_body.row(0).axis(0));
    assert(c.at(0, 1) == velocity_body.row(0).axis(1));
    assert(c.at(0, 2) == velocity_body.row(0).axis(2));
    assert(c.at(1, 0) == velocity_body.row(1).axis(0));
    assert(c.at(1, 1) == velocity_body.row(1).axis(1));
    assert(c.at(1, 2) == velocity_body.row(1).axis(2));
    assert(c.at(2, 0) == velocity_body.row(2).axis(0));
    assert(c.at(2, 1) == velocity_body.row(2).axis(1));
    assert(c.at(2, 2) == velocity_body.row(2).axis(2));
    assert(velocity_block(c) == velocity_body);
}

/// The covariance of the velocity in a twist's.
pub open spec fn velocity_block(c: Matrix6) -> Matrix3 {
    Matrix3 {
        first: Vector3 { x: c.at(0, 0), y: c.at(0, 1), z: c.at(0, 2) },
        second: Vector3 { x: c.at(1, 0), y: c.at(1, 1), z: c.at(1, 2) },
        third: Vector3 { x: c.at(2, 0), y: c.at(2, 1), z: c.at(2, 2) },
    }
}

/// Where a six by six matrix takes six numbers.
pub open spec fn on6(m: Meaning, a: Matrix6, e: spec_fn(int) -> real, row: int) -> real {
    m.num(a.at(row, 0)) * e(0) + m.num(a.at(row, 1)) * e(1) + m.num(a.at(row, 2)) * e(2) + m.num(
        a.at(row, 3),
    ) * e(3) + m.num(a.at(row, 4)) * e(4) + m.num(a.at(row, 5)) * e(5)
}

/// Law: the adjoint carries a small motion over. With the axes turned by the transform, what the
/// rotation does at the transform's lever arm adds to the shift.
pub proof fn law_adjoint_carries_a_small_motion<N: Numerics>(
    n: &N,
    m: Meaning,
    parent_from_child: Pose,
    adjoint: Matrix6,
    e: spec_fn(int) -> real,
)
    requires
        exact(n, m),
        adjoint_of(n, parent_from_child, adjoint),
    ensures
        three(|row: int| on6(m, adjoint, e, row), 3) == m.turn(
            parent_from_child.rotation,
            three(e, 3),
        ),
        three(|row: int| on6(m, adjoint, e, row), 0) == m.turn(
            parent_from_child.rotation,
            three(e, 0),
        ).plus(
            m.vec(parent_from_child.translation).cross(
                m.turn(parent_from_child.rotation, three(e, 3)),
            ),
        ),
{
    let (rotation, coupling) = choose|rotation: Matrix3, coupling: Matrix3|
        {
            &&& call_ensures(N::rotation_matrix, (n, &parent_from_child.rotation), rotation)
            &&& call_ensures(
                N::matrix3_times,
                (n, &spec_skew(parent_from_child.translation), &rotation),
                coupling,
            )
            &&& #[trigger] adjoint_entries(rotation, coupling, adjoint)
        };
    let (v, w) = (three(e, 0), three(e, 3));
    let turned = m.turn(parent_from_child.rotation, w);
    assert(m.on(rotation, v) == m.turn(parent_from_child.rotation, v));
    assert(m.on(rotation, w) == turned);
    assert(m.on(coupling, w) == m.on(spec_skew(parent_from_child.translation), turned));
    lemma_skew(m, parent_from_child.translation, turned);
    lemma_adjoint_row(m, rotation, coupling, adjoint, e, 0);
    lemma_adjoint_row(m, rotation, coupling, adjoint, e, 1);
    lemma_adjoint_row(m, rotation, coupling, adjoint, e, 2);
    let f = |row: int| on6(m, adjoint, e, row);
    assert(f(0) == on6(m, adjoint, e, 0) && f(1) == on6(m, adjoint, e, 1) && f(2) == on6(
        m,
        adjoint,
        e,
        2,
    ) && f(3) == on6(m, adjoint, e, 3) && f(4) == on6(m, adjoint, e, 4) && f(5) == on6(
        m,
        adjoint,
        e,
        5,
    ));
}

proof fn lemma_adjoint_row(
    m: Meaning,
    rotation: Matrix3,
    coupling: Matrix3,
    adjoint: Matrix6,
    e: spec_fn(int) -> real,
    row: int,
)
    requires
        constants_exact(m),
        adjoint_entries(rotation, coupling, adjoint),
        0 <= row < 3,
    ensures
        on6(m, adjoint, e, row) == m.vec(rotation.row(row)).dot(three(e, 0)) + m.vec(
            coupling.row(row),
        ).dot(three(e, 3)),
        on6(m, adjoint, e, row + 3) == m.vec(rotation.row(row)).dot(three(e, 3)),
{
    assert(adjoint.at(row, 0) == rotation.row(row).axis(0));
    assert(adjoint.at(row, 1) == rotation.row(row).axis(1));
    assert(adjoint.at(row, 2) == rotation.row(row).axis(2));
    assert(adjoint.at(row, 3) == coupling.row(row).axis(0));
    assert(adjoint.at(row, 4) == coupling.row(row).axis(1));
    assert(adjoint.at(row, 5) == coupling.row(row).axis(2));
    assert(adjoint.at(row + 3, 0) == Scalar::zero());
    assert(adjoint.at(row + 3, 1) == Scalar::zero());
    assert(adjoint.at(row + 3, 2) == Scalar::zero());
    assert(adjoint.at(row + 3, 3) == rotation.row(row).axis(0));
    assert(adjoint.at(row + 3, 4) == rotation.row(row).axis(1));
    assert(adjoint.at(row + 3, 5) == rotation.row(row).axis(2));
    lemma_times_zero(0real, e(0));
    lemma_times_zero(0real, e(1));
    lemma_times_zero(0real, e(2));
}

proof fn lemma_factor_six(
    a: real,
    b: real,
    c: real,
    d: real,
    e: real,
    f: real,
    k: real,
)
    ensures
        (a + b + c + d + e + f) * k == a * k + b * k + c * k + d * k + e * k + f * k,
{
    assert((a + b + c + d + e + f) * k == a * k + b * k + c * k + d * k + e * k + f * k)
        by (nonlinear_arith);
}

proof fn lemma_regroup(a: real, b: real, k: real)
    ensures
        a * (b * k) == (a * b) * k,
        (k * b) * a == k * (a * b),
{
    assert(a * (b * k) == (a * b) * k) by (nonlinear_arith);
    assert((k * b) * a == k * (a * b)) by (nonlinear_arith);
}

/// Law: a covariance that is moved is that of the moved error. Where the covariance is the spread
/// of one error, the moved one is the spread of where the matrix takes it.
pub proof fn law_moved_covariance_is_that_of_the_moved_error<N: Numerics>(
    n: &N,
    m: Meaning,
    a: Matrix6,
    c: Matrix6,
    r: Matrix6,
    e: spec_fn(int) -> real,
    row: int,
    col: int,
)
    requires
        exact(n, m),
        congruent_of(n, a, c, r),
        forall|i: int, j: int|
            0 <= i < 6 && 0 <= j < 6 ==> m.num(#[trigger] c.at(i, j)) == e(i) * e(j),
        0 <= row < 6,
        0 <= col < 6,
    ensures
        m.num(r.at(row, col)) == on6(m, a, e, row) * on6(m, a, e, col),
{
    let (half, flipped) = choose|half: Matrix6, flipped: Matrix6|
        {
            &&& call_ensures(N::matrix6_times, (n, &a, &c), half)
            &&& a.flips_to(flipped)
            &&& #[trigger] call_ensures(N::matrix6_times, (n, &half, &flipped), r)
        };
    let moved = on6(m, a, e, row);
    lemma_half(n, m, a, c, half, e, row, 0);
    lemma_half(n, m, a, c, half, e, row, 1);
    lemma_half(n, m, a, c, half, e, row, 2);
    lemma_half(n, m, a, c, half, e, row, 3);
    lemma_half(n, m, a, c, half, e, row, 4);
    lemma_half(n, m, a, c, half, e, row, 5);
    assert(flipped.at(0, col) == a.at(col, 0));
    assert(flipped.at(1, col) == a.at(col, 1));
    assert(flipped.at(2, col) == a.at(col, 2));
    assert(flipped.at(3, col) == a.at(col, 3));
    assert(flipped.at(4, col) == a.at(col, 4));
    assert(flipped.at(5, col) == a.at(col, 5));
    lemma_regroup(m.num(a.at(col, 0)), e(0), moved);
    lemma_regroup(m.num(a.at(col, 1)), e(1), moved);
    lemma_regroup(m.num(a.at(col, 2)), e(2), moved);
    lemma_regroup(m.num(a.at(col, 3)), e(3), moved);
    lemma_regroup(m.num(a.at(col, 4)), e(4), moved);
    lemma_regroup(m.num(a.at(col, 5)), e(5), moved);
    lemma_spread_six(
        moved,
        m.num(a.at(col, 0)) * e(0),
        m.num(a.at(col, 1)) * e(1),
        m.num(a.at(col, 2)) * e(2),
        m.num(a.at(col, 3)) * e(3),
        m.num(a.at(col, 4)) * e(4),
        m.num(a.at(col, 5)) * e(5),
    );
    assert(m.num(r.at(row, col)) == product6(m, half, flipped, row, col));
}

proof fn lemma_spread_six(
    k: real,
    a: real,
    b: real,
    c: real,
    d: real,
    e: real,
    f: real,
)
    ensures
        k * (a + b + c + d + e + f) == k * a + k * b + k * c + k * d + k * e + k * f,
{
    assert(k * (a + b + c + d + e + f) == k * a + k * b + k * c + k * d + k * e + k * f)
        by (nonlinear_arith);
}

proof fn lemma_half<N: Numerics>(
    n: &N,
    m: Meaning,
    a: Matrix6,
    c: Matrix6,
    half: Matrix6,
    e: spec_fn(int) -> real,
    row: int,
    col: int,
)
    requires
        exact(n, m),
        call_ensures(N::matrix6_times, (n, &a, &c), half),
        forall|i: int, j: int|
            0 <= i < 6 && 0 <= j < 6 ==> m.num(#[trigger] c.at(i, j)) == e(i) * e(j),
        0 <= row < 6,
        0 <= col < 6,
    ensures
        m.num(half.at(row, col)) == on6(m, a, e, row) * e(col),
{
    let k = e(col);
    assert(m.num(half.at(row, col)) == product6(m, a, c, row, col));
    assert(m.num(c.at(0, col)) == e(0) * k);
    assert(m.num(c.at(1, col)) == e(1) * k);
    assert(m.num(c.at(2, col)) == e(2) * k);
    assert(m.num(c.at(3, col)) == e(3) * k);
    assert(m.num(c.at(4, col)) == e(4) * k);
    assert(m.num(c.at(5, col)) == e(5) * k);
    lemma_regroup(m.num(a.at(row, 0)), e(0), k);
    lemma_regroup(m.num(a.at(row, 1)), e(1), k);
    lemma_regroup(m.num(a.at(row, 2)), e(2), k);
    lemma_regroup(m.num(a.at(row, 3)), e(3), k);
    lemma_regroup(m.num(a.at(row, 4)), e(4), k);
    lemma_regroup(m.num(a.at(row, 5)), e(5), k);
    lemma_factor_six(
        m.num(a.at(row, 0)) * e(0),
        m.num(a.at(row, 1)) * e(1),
        m.num(a.at(row, 2)) * e(2),
        m.num(a.at(row, 3)) * e(3),
        m.num(a.at(row, 4)) * e(4),
        m.num(a.at(row, 5)) * e(5),
        k,
    );
}

/// Law: the speed, times the interval, is the way; and the angular speed, times the interval, is
/// the angle of the turn from one attitude to the other.
pub proof fn law_speed_is_the_way_over_the_interval<N: Numerics>(
    n: &N,
    m: Meaning,
    previous: Pose,
    previous_ns: i64,
    raw: Pose,
    timestamp_ns: i64,
    v: Speed,
    axis: Vec3,
    dt: real,
)
    requires
        exact(n, m),
        speed_of(n, previous, previous_ns, raw, timestamp_ns, v),
        span(previous_ns, timestamp_ns) > 0,
        dt * 1000000000real == span(previous_ns, timestamp_ns) as real,
        m.turns_from(previous.rotation, raw.rotation, axis),
        small(axis),
    ensures
        m.num(v.linear) * dt >= 0real,
        (m.num(v.linear) * dt) * (m.num(v.linear) * dt) == m.vec(raw.translation).minus(
            m.vec(previous.translation),
        ).dot(m.vec(raw.translation).minus(m.vec(previous.translation))),
        m.num(v.angular) * dt >= 0real,
        (m.num(v.angular) * dt) * (m.num(v.angular) * dt) == axis.dot(axis),
{
    let dt_ns = span(previous_ns, timestamp_ns);
    let a = choose|dt: Scalar|
        {
            &&& #[trigger] seconds_of(n, dt_ns, dt)
            &&& call_ensures(N::ratio, (n, v.distance, dt), v.linear)
        };
    let b = choose|dt: Scalar|
        {
            &&& #[trigger] seconds_of(n, dt_ns, dt)
            &&& call_ensures(N::ratio, (n, v.angle, dt), v.angular)
        };
    law_seconds_are_nanoseconds(n, m, dt_ns, a);
    law_seconds_are_nanoseconds(n, m, dt_ns, b);
    assert(m.num(a) == dt);
    assert(m.num(b) == dt);
    assert(dt != 0real);
    assert(m.num(v.linear) * dt == m.num(v.distance));
    assert(m.num(v.angular) * dt == m.num(v.angle));
}

/// Law: a pose that goes to the tracker in single precision and comes back is the same motion.
pub proof fn law_tracker_poses_round_trip<N: Numerics>(
    n: &N,
    m: Meaning,
    pose: Pose,
    cuv: CuvPose,
    back: Pose,
)
    requires
        exact(n, m),
        cuv_pose_of(n, pose, cuv),
        pose_of_cuv(n, cuv, back),
    ensures
        m.same_motion(back, pose),
{
    let wide = choose|wide: Quaternion|
        {
            &&& rotation_widened(n, cuv, wide)
            &&& #[trigger] call_ensures(N::normalized, (n, &wide), back.rotation)
        };
    assert(m.same_coordinates(wide, pose.rotation));
    assert(m.vec(back.translation) == m.vec(pose.translation));
    assert forall|v: Vec3| #[trigger] m.moves(back, v) == m.moves(pose, v) by {
        assert(m.turn(back.rotation, v) == m.turn(wide, v));
    }
}

/// Law: the reach in nanoseconds is the whole part of a thousand million times the seconds.
pub proof fn law_nanoseconds_are_seconds<N: Numerics>(n: &N, m: Meaning, seconds: Scalar, r: i64)
    requires
        exact(n, m),
        nanoseconds_of(n, seconds, r),
    ensures
        r == held_within(
            whole_part(m.num(seconds) * 1000000000real),
            i64::MIN as int,
            i64::MAX as int,
        ),
{
}

/// Law: the spread in nanoseconds is the whole part of a million times the milliseconds.
pub proof fn law_nanoseconds_are_milliseconds<N: Numerics>(
    n: &N,
    m: Meaning,
    amount: Scalar,
    r: i64,
)
    requires
        exact(n, m),
        milliseconds_of(n, amount, r),
    ensures
        r == held_within(
            whole_part(m.num(amount) * 1000000real),
            i64::MIN as int,
            i64::MAX as int,
        ),
{
}

/// Law: as many periods as the rate says fill a second, to within what a whole number of
/// nanoseconds leaves out; a rate below one counts as one.
pub proof fn law_periods_fill_a_second<N: Numerics>(
    n: &N,
    m: Meaning,
    rate: Scalar,
    r: i64,
    each: real,
)
    requires
        exact(n, m),
        !rate.nan(),
        period_of(n, rate, r),
        m.num(rate) < 1real ==> each == 1000000000real,
        m.num(rate) >= 1real ==> each * m.num(rate) == 1000000000real,
    ensures
        r == held_within(whole_part(each), i64::MIN as int, i64::MAX as int),
{
    let at_least_one = spec_larger(rate, Scalar::one());
    let count = choose|count: Scalar|
        {
            &&& #[trigger] call_ensures(
                N::ratio,
                (n, Scalar { bits: BILLION_BITS }, at_least_one),
                count,
            )
            &&& call_ensures(N::to_i64, (n, count), r)
        };
    if rate.below(Scalar::one()) {
        assert(m.num(rate) < m.num(Scalar::one()));
        lemma_times_one(m.num(at_least_one), m.num(count));
    } else {
        assert(m.num(rate) >= m.num(Scalar::one()));
        lemma_commutes(each, m.num(rate));
        lemma_commutes(m.num(count), m.num(rate));
        lemma_cancel(each, m.num(count), m.num(rate));
    }
}

} // verus!
