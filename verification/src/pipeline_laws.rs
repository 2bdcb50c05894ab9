//! What steps of the odometry do together, where arithmetic does not round.

use vstd::multiset::Multiset;
use vstd::prelude::*;

use crate::camera_laws::{lemma_cancel, lemma_commutes};
use crate::cuvslam_model::{calibration_of, located_by, mount_of, reading_of, worst_variance};
use crate::cuvslam_model::{CuvslamCore, FrameTrace, ImuCalibration, ImuReading};
use crate::depth_cloud::{by_size, median, Grid};
use crate::eskf::{freed_of, propagated, propagated_by, reckoned_of, GrowthTrace, ImuBias};
use crate::eskf::{MotionTrace, StateView};
use crate::estimator::{stepped, Constants, EventKind, Memory, StepRules};
use crate::exact::{constants_exact, exact, turns_lawful, Meaning, Vec3};
use crate::exact_laws::{law_turn_is_about_the_bodys_axis, lemma_times_zero};
use crate::filter_laws::law_adjoint_carries_a_small_motion;
use crate::filter_laws::law_moved_covariance_is_that_of_the_moved_error;
use crate::filter_laws::{law_tracker_poses_round_trip, on6, three};
use crate::formulas::{leveled_of, seconds_of, Leveling, HALF_BITS};
use crate::fusion_model::resolved_six;
use crate::motion_laws::law_leveling_leaves_gravity_alone;
use crate::motion_laws::{law_reckoning_is_the_motion_that_was_felt, law_seconds_are_nanoseconds};
use crate::motion_laws::up;
use crate::numerics::Numerics;
use crate::scalar::{spec_larger, Scalar};
use crate::stamp::{span, NS_PER_SEC};
use crate::tracker::{pose_of_cuv, CuvPose};
use crate::types::{ImuNoiseModel, ImuSample, Matrix6, OdometryEstimate, Pose, Quaternion};
use crate::types::{SingleVector, Six, Vector3};
use crate::wire::{composed_of, inverted_of, pose_from, transforms_for};

verus! {

/// Law: a transform after another, each given by its parts, moves points by the second and then by
/// the first.
pub proof fn law_composed_transforms_move_in_turn<N: Numerics>(
    n: &N,
    m: Meaning,
    a: Pose,
    b: Pose,
    r: Pose,
)
    requires
        exact(n, m),
        composed_of(n, a, b, r),
    ensures
        m.is_after(r, a, b),
{
    let (x, y) = choose|x: Pose, y: Pose|
        {
            &&& #[trigger] pose_from(n, a.translation, a.rotation, x)
            &&& #[trigger] pose_from(n, b.translation, b.rotation, y)
            &&& call_ensures(N::compose, (n, &x, &y), r)
        };
    assert forall|v: Vec3| #[trigger] m.moves(r, v) == m.moves(a, m.moves(b, v)) by {
        let inner = m.moves(b, v);
        assert(m.turn(y.rotation, v) == m.turn(b.rotation, v));
        assert(m.moves(y, v) == inner);
        assert(m.turn(x.rotation, inner) == m.turn(a.rotation, inner));
        assert(m.moves(x, inner) == m.moves(a, inner));
    }
}

/// Law: an inverted transform takes every point back.
pub proof fn law_inverted_transform_moves_back<N: Numerics>(
    n: &N,
    m: Meaning,
    t: Pose,
    r: Pose,
    v: Vec3,
)
    requires
        exact(n, m),
        inverted_of(n, t, r),
    ensures
        m.moves(r, m.moves(t, v)) == v,
        m.moves(t, m.moves(r, v)) == v,
{
    let x = choose|x: Pose|
        {
            &&& #[trigger] pose_from(n, t.translation, t.rotation, x)
            &&& call_ensures(N::inverse, (n, &x), r)
        };
    assert(m.turn(x.rotation, v) == m.turn(t.rotation, v));
    assert(m.moves(x, v) == m.moves(t, v));
    assert(m.moves(r, m.moves(x, v)) == v);
    let u = m.moves(r, v);
    assert(m.turn(x.rotation, u) == m.turn(t.rotation, u));
    assert(m.moves(x, u) == m.moves(t, u));
    assert(m.moves(x, m.moves(r, v)) == v);
}

/// Law: the transforms that are sent lead from the map to the body. The map's child is the
/// estimate's parent, and together they are the estimate's pose.
pub proof fn law_sent_transforms_lead_to_the_body(
    m: Meaning,
    estimate: OdometryEstimate,
    map_frame: Seq<char>,
    v: Vec3,
)
    requires
        constants_exact(m),
        turns_lawful(m),
    ensures
        ({
            let sent = transforms_for(estimate, true, true, map_frame);
            &&& sent.len() == 2
            &&& sent[1].parent == map_frame
            &&& sent[1].child == sent[0].parent
            &&& sent[0].parent == estimate.frame_id@
            &&& sent[0].child == estimate.child_frame_id@
            &&& sent[0].timestamp_ns == estimate.timestamp_ns
            &&& sent[1].timestamp_ns == estimate.timestamp_ns
            &&& m.moves(sent[1].pose, m.moves(sent[0].pose, v)) == m.moves(estimate.pose, v)
        }),
{
    let w = m.moves(estimate.pose, v);
    assert(m.turn(Quaternion::identity(), w) == w);
    assert(m.vec(Vector3::zeros()) == Vec3::zero());
    assert(w.plus(Vec3::zero()) == w);
}

/// Law: an IMU sample is dead-reckoned over the time since the one before. Over the interval, the
/// change of velocity and gravity's counterforce, as the body feels them, are the reading less its
/// bias; the way is the mean velocity over the interval; and the attitude is turned about the
/// body's own axis by the rate less its bias.
pub proof fn law_imu_step_is_the_motion_that_was_felt<N: Numerics>(
    n: &N,
    m: Meaning,
    c: Constants,
    rules: StepRules,
    before: Memory<N::Matrix>,
    ts_ns: i64,
    gyro: Vector3,
    accel: Vector3,
    after: Memory<N::Matrix>,
    gated: int,
    dt: real,
)
    requires
        exact(n, m),
        stepped(n, c, rules, before, ts_ns, EventKind::Imu { gyro, accel }, after, gated),
        0 < span(before.last_imu_ns, ts_ns) < NS_PER_SEC,
        dt * 1000000000real == span(before.last_imu_ns, ts_ns) as real,
    ensures
        m.turn(
            before.x.q.back(),
            m.vec(after.x.velocity).minus(m.vec(before.x.velocity)).plus(
                up(m.num(c.gravity)).scaled(dt),
            ),
        ) == m.vec(accel).minus(m.vec(before.x.biases[0].accel)).scaled(dt),
        m.vec(after.x.position).minus(m.vec(before.x.position)).scaled(2real) == m.vec(
            before.x.velocity,
        ).plus(m.vec(after.x.velocity)).scaled(dt),
        m.turns_from(
            before.x.q,
            after.x.q,
            m.vec(gyro).minus(m.vec(before.x.biases[0].gyro)).scaled(dt),
        ),
        after.x.biases == before.x.biases,
        after.last_imu_ns == ts_ns,
        after.last_gyro == gyro,
{
    let dt_ns = span(before.last_imu_ns, ts_ns);
    let f = before.filter(c);
    let g = after.filter(c);
    let k = choose|k: Scalar|
        #[trigger] seconds_of(n, dt_ns, k) && propagated(n, f, k, 0, gyro, accel, g);
    let (t, growth) = choose|t: MotionTrace, growth: GrowthTrace<N::Matrix>| #[trigger]
        propagated_by(n, f, k, 0, gyro, accel, t, growth, g);
    law_seconds_are_nanoseconds(n, m, dt_ns, k);
    assert(m.num(k) == dt);
    let bias = before.x.biases[0];
    law_reckoning_is_the_motion_that_was_felt(
        n,
        m,
        before.x,
        bias,
        c.gravity,
        gyro,
        accel,
        k,
        t,
        after.x,
    );
    let a = choose|a: Vec3|
        {
            &&& #[trigger] m.turn(before.x.q.back(), a.plus(up(m.num(c.gravity)))).plus(
                m.vec(bias.accel),
            ) == m.vec(accel)
            &&& m.vec(after.x.velocity) == m.vec(before.x.velocity).plus(a.scaled(m.num(k)))
        };
    let grav = up(m.num(c.gravity));
    let felt = m.turn(before.x.q.back(), a.plus(grav));
    assert(felt == m.vec(accel).minus(m.vec(bias.accel)));
    lemma_scaled_sum(a, grav, dt);
    assert(m.vec(after.x.velocity).minus(m.vec(before.x.velocity)) == a.scaled(dt));
    assert(m.turns_multiples(before.x.q.back(), a.plus(grav), dt));
}

proof fn lemma_scaled_sum(a: Vec3, b: Vec3, k: real)
    ensures
        a.plus(b).scaled(k) == a.scaled(k).plus(b.scaled(k)),
{
    lemma_sum_times(a.x, b.x, k);
    lemma_sum_times(a.y, b.y, k);
    lemma_sum_times(a.z, b.z, k);
}

proof fn lemma_sum_times(a: real, b: real, k: real)
    ensures
        (a + b) * k == a * k + b * k,
{
    assert((a + b) * k == a * k + b * k) by (nonlinear_arith);
}

/// Law: a still body stays. After leveling, the mean of the readings that it was leveled on, read
/// again while at rest, moves the estimate nowhere.
pub proof fn law_still_body_stays<N: Numerics>(
    n: &N,
    m: Meaning,
    accel_sum: Vector3,
    gyro_sum: Vector3,
    samples: i64,
    gravity: Scalar,
    level: Leveling,
    before: StateView,
    gyro: Vector3,
    accel: Vector3,
    dt: Scalar,
    t: MotionTrace,
    after: StateView,
)
    requires
        exact(n, m),
        samples > 0,
        leveled_of(n, accel_sum, gyro_sum, samples, gravity, level),
        before.q == level.world_from_body,
        m.vec(before.velocity) == Vec3::zero(),
        m.vec(accel).scaled(samples as real) == m.vec(accel_sum),
        m.vec(gyro).scaled(samples as real) == m.vec(gyro_sum),
        freed_of(
            n,
            before.q,
            ImuBias { gyro: level.gyro_bias, accel: level.accel_bias },
            gravity,
            gyro,
            accel,
            t,
        ),
        reckoned_of(n, before, dt, t, after),
    ensures
        m.vec(after.velocity) == Vec3::zero(),
        m.vec(after.position) == m.vec(before.position),
        m.same_turn(after.q, before.q),
{
    let q = before.q;
    let k = samples as real;
    law_leveling_leaves_gravity_alone(n, m, accel_sum, gyro_sum, samples, gravity, level);
    let mean = choose|mean: Vec3|
        {
            &&& #[trigger] mean.scaled(samples as real) == m.vec(accel_sum)
            &&& m.turn(level.world_from_body, mean.minus(m.vec(level.accel_bias))) == up(
                m.num(gravity),
            )
        };
    lemma_same_scaled(mean, m.vec(accel), k);
    lemma_same_scaled(m.vec(level.gyro_bias), m.vec(gyro), k);
    let free = m.vec(t.free_accel);
    assert(free == mean.minus(m.vec(level.accel_bias)));
    assert(m.vec(t.force) == m.turn(q, free));
    assert(m.vec(Vector3::spec_along(2, gravity.opposite())) == up(0real - m.num(gravity)));
    assert(m.vec(t.world_accel) == Vec3::zero());
    assert(m.vec(t.free_gyro) == Vec3::zero());
    let d = m.num(dt);
    lemma_times_zero(0real, d);
    lemma_times_zero(0real, m.num(Scalar { bits: HALF_BITS }));
    assert(m.vec(t.drift) == Vec3::zero());
    assert(m.vec(t.half_accel) == Vec3::zero());
    assert(m.vec(t.half_gain) == Vec3::zero());
    assert(m.vec(t.fall) == Vec3::zero());
    assert(m.vec(t.gain) == Vec3::zero());
    assert(m.vec(t.spin) == Vec3::zero());
    law_turn_is_about_the_bodys_axis(n, m, q, t.spin, after.q);
    assert forall|v: Vec3| #[trigger] m.turn(after.q, v) == m.turn(q, v) by {
        assert(m.turn(after.q, v) == m.turn(q, m.swing(m.vec(t.spin), v)));
    }
}

proof fn lemma_same_scaled(a: Vec3, b: Vec3, k: real)
    requires
        a.scaled(k) == b.scaled(k),
        k != 0real,
    ensures
        a == b,
{
    lemma_commutes(a.x, k);
    lemma_commutes(b.x, k);
    lemma_commutes(a.y, k);
    lemma_commutes(b.y, k);
    lemma_commutes(a.z, k);
    lemma_commutes(b.z, k);
    lemma_cancel(a.x, b.x, k);
    lemma_cancel(a.y, b.y, k);
    lemma_cancel(a.z, b.z, k);
}

/// Law: the worst variance is the largest of the three that are numbers.
pub proof fn law_worst_variance_is_the_largest(m: Meaning, covariance: Matrix6, dim: int)
    requires
        constants_exact(m),
        0 <= dim < 3,
        !covariance.at(0, 0).nan() && !covariance.at(1, 1).nan() && !covariance.at(2, 2).nan(),
    ensures
        m.num(worst_variance(covariance)) >= m.num(covariance.at(dim, dim)),
        covariance.at(0, 0).finite() && !covariance.at(0, 0).negative() ==> {
            ||| worst_variance(covariance) == covariance.at(0, 0)
            ||| worst_variance(covariance) == covariance.at(1, 1)
            ||| worst_variance(covariance) == covariance.at(2, 2)
        },
{
    let (a, b, c) = (covariance.at(0, 0), covariance.at(1, 1), covariance.at(2, 2));
    let least = Scalar::infinity().opposite();
    lemma_larger(m, least, a);
    let first = spec_larger(least, a);
    lemma_larger(m, first, b);
    let second = spec_larger(first, b);
    lemma_larger(m, second, c);
}

proof fn lemma_larger(m: Meaning, a: Scalar, b: Scalar)
    requires
        constants_exact(m),
        !a.nan(),
        !b.nan(),
    ensures
        !spec_larger(a, b).nan(),
        m.num(spec_larger(a, b)) >= m.num(a),
        m.num(spec_larger(a, b)) >= m.num(b),
{
    if a.below(b) {
        assert(m.num(a) < m.num(b));
    } else {
        assert(m.num(a) >= m.num(b));
    }
}

/// Law: a block's point stands in the middle of its block. Twice its place is the sum of the
/// block's first and last column and row, and its depth is the block's median.
pub proof fn law_block_stands_in_its_middle(grid: Grid, block_v: int, count: int, i: int)
    requires
        0 <= i < grid.row_cells(block_v, count).len(),
    ensures
        exists|block_u: int|
            {
                let cell = grid.row_cells(block_v, count)[i];
                &&& 0 <= block_u < count
                &&& #[trigger] grid.median_at(block_u, block_v) == Some(cell.raw)
                &&& cell.half_u == block_u * grid.kernel + ((block_u + 1) * grid.kernel - 1)
                &&& cell.half_v == block_v * grid.kernel + ((block_v + 1) * grid.kernel - 1)
            },
    decreases count,
{
    if count > 0 {
        let block_u = count - 1;
        let before = grid.row_cells(block_v, block_u);
        if i < before.len() {
            law_block_stands_in_its_middle(grid, block_v, block_u, i);
            let cell = before[i];
            assert(grid.row_cells(block_v, count)[i] == cell);
            let b = choose|b: int|
                {
                    &&& 0 <= b < block_u
                    &&& #[trigger] grid.median_at(b, block_v) == Some(cell.raw)
                    &&& cell.half_u == b * grid.kernel + ((b + 1) * grid.kernel - 1)
                    &&& cell.half_v == block_v * grid.kernel + ((block_v + 1) * grid.kernel - 1)
                };
            assert(0 <= b < count);
        } else {
            let k = grid.kernel;
            assert((block_u + 1) * k == block_u * k + k) by (nonlinear_arith);
            assert((block_v + 1) * k == block_v * k + k) by (nonlinear_arith);
            let cell = grid.row_cells(block_v, count)[i];
            assert(grid.median_at(block_u, block_v) == Some(cell.raw));
        }
    }
}

/// The values that are smaller than one.
pub open spec fn smaller_ones(values: Seq<u16>, than: u16) -> Multiset<u16> {
    values.to_multiset().filter(|v: u16| v < than)
}

/// The values that are larger than one.
pub open spec fn larger_ones(values: Seq<u16>, than: u16) -> Multiset<u16> {
    values.to_multiset().filter(|v: u16| v > than)
}

proof fn lemma_part_is_no_longer(a: Multiset<u16>, b: Multiset<u16>)
    requires
        a.subset_of(b),
    ensures
        a.len() <= b.len(),
{
    assert(a.add(b.sub(a)) =~= b);
}

/// Law: the median is one of the values, at most half of them are smaller, and of the others than
/// itself at most the rest is larger: of an even number it is the upper one of the middle two.
pub proof fn law_median_stands_in_the_middle(values: Seq<u16>)
    requires
        values.len() > 0,
    ensures
        values.contains(median(values)),
        smaller_ones(values, median(values)).len() <= values.len() / 2,
        larger_ones(values, median(values)).len() <= values.len() - 1 - values.len() / 2,
{
    let size = by_size();
    assert(vstd::relations::total_ordering(size));
    values.lemma_sort_by_ensures(size);
    let sorted = values.sort_by(size);
    values.to_multiset_ensures();
    sorted.to_multiset_ensures();
    assert(sorted.len() == values.len());
    let k = values.len() as int / 2;
    let mid = sorted[k];
    assert(sorted.contains(mid));
    let (first, last) = (sorted.take(k), sorted.skip(k + 1));
    first.to_multiset_ensures();
    last.to_multiset_ensures();
    let rest = sorted.skip(k);
    rest.to_multiset_ensures();
    let most = sorted.take(k + 1);
    most.to_multiset_ensures();
    assert(sorted =~= first + rest);
    assert(sorted =~= most + last);
    vstd::seq_lib::lemma_multiset_commutative(first, rest);
    vstd::seq_lib::lemma_multiset_commutative(most, last);
    let below = smaller_ones(values, mid);
    let above = larger_ones(values, mid);
    assert(below.subset_of(first.to_multiset())) by {
        assert forall|v: u16| below.count(v) <= #[trigger] first.to_multiset().count(v) by {
            if v < mid {
                assert(!rest.contains(v)) by {
                    if rest.contains(v) {
                        let i = choose|i: int| 0 <= i < rest.len() && rest[i] == v;
                        if i > 0 {
                            assert(size(sorted[k], sorted[k + i]));
                        }
                    }
                }
            }
        }
    }
    assert(above.subset_of(last.to_multiset())) by {
        assert forall|v: u16| above.count(v) <= #[trigger] last.to_multiset().count(v) by {
            if v > mid {
                assert(!most.contains(v)) by {
                    if most.contains(v) {
                        let i = choose|i: int| 0 <= i < most.len() && most[i] == v;
                        if i < k {
                            assert(size(sorted[i], sorted[k]));
                        }
                    }
                }
            }
        }
    }
    lemma_part_is_no_longer(below, first.to_multiset());
    lemma_part_is_no_longer(above, last.to_multiset());
}

/// Law: each dimension is fused with its own variance. Where the configuration leaves it to the
/// message, it is that dimension's own on the diagonal of the message's covariance.
pub proof fn law_message_variance_is_the_dimensions_own(
    configured: Six,
    from_message: Matrix6,
    dim: int,
)
    requires
        0 <= dim < 6,
    ensures
        configured.at(dim).negative() && from_message.at(dim, dim).finite() && from_message.at(
            dim,
            dim,
        ).positive() ==> resolved_six(configured, from_message).at(dim) == from_message.at(
            dim,
            dim,
        ),
        configured.at(dim).positive() && configured.at(dim).finite() ==> resolved_six(
            configured,
            from_message,
        ).at(dim) == configured.at(dim),
        configured.at(dim).rank() == 0 ==> resolved_six(configured, from_message).at(dim)
            == Scalar::zero(),
{
}

/// The three in reals.
pub open spec fn singly(m: Meaning, v: SingleVector) -> Vec3 {
    Vec3 { x: (m.single)(v.x), y: (m.single)(v.y), z: (m.single)(v.z) }
}

/// Law: a sample goes to the tracker as it was read.
pub proof fn law_reading_is_the_sample<N: Numerics>(
    n: &N,
    m: Meaning,
    msg: ImuSample,
    r: ImuReading,
)
    requires
        exact(n, m),
        reading_of(n, msg, r),
    ensures
        r.timestamp_ns == msg.timestamp_ns,
        singly(m, r.angular_velocities) == m.vec(msg.angular_velocity),
        singly(m, r.linear_accelerations) == m.vec(msg.linear_acceleration),
{
}

/// Law: the tracker is given the IMU's own noise figures, and a place on the rig that comes back
/// as the same motion.
pub proof fn law_calibration_is_the_imus_own<N: Numerics>(
    n: &N,
    m: Meaning,
    model: ImuNoiseModel,
    rig_from_imu: Pose,
    c: ImuCalibration,
    back: Pose,
)
    requires
        exact(n, m),
        calibration_of(n, model, rig_from_imu, c),
        pose_of_cuv(n, c.rig_from_imu, back),
    ensures
        m.same_motion(back, rig_from_imu),
        (m.single)(c.gyroscope_noise_density) == m.num(model.gyro_noise_density),
        (m.single)(c.gyroscope_random_walk) == m.num(model.gyro_random_walk),
        (m.single)(c.accelerometer_noise_density) == m.num(model.accel_noise_density),
        (m.single)(c.accelerometer_random_walk) == m.num(model.accel_random_walk),
        (m.single)(c.frequency) == m.num(model.frequency),
{
    law_tracker_poses_round_trip(n, m, rig_from_imu, c.rig_from_imu, back);
}

/// Law: what goes out with a tracked pose is the tracker's covariance carried over to the body.
/// Where that is the spread of one error of the rig, the output's is the spread of the error that
/// the body has then: turned through the mount, with the rotation at the mount's lever arm added
/// to the shift.
pub proof fn law_output_covariance_is_carried_to_the_body<N: Numerics>(
    m: Meaning,
    seen: CuvslamCore<N>,
    base_from_rig: Pose,
    timestamp_ns: i64,
    cuv: CuvPose,
    rig_covariance: Matrix6,
    t: FrameTrace,
    after: CuvslamCore<N>,
    e: spec_fn(int) -> real,
    body: spec_fn(int) -> real,
    row: int,
    col: int,
)
    requires
        exact(&seen.numerics, m),
        seen.mount is Some,
        mount_of(&seen.numerics, base_from_rig, seen.mount->0),
        located_by(seen, timestamp_ns, cuv, rig_covariance, t, after),
        forall|i: int, j: int|
            0 <= i < 6 && 0 <= j < 6 ==> m.num(#[trigger] rig_covariance.at(i, j)) == e(i) * e(j),
        three(body, 3) == m.turn(base_from_rig.rotation, three(e, 3)),
        three(body, 0) == m.turn(base_from_rig.rotation, three(e, 0)).plus(
            m.vec(base_from_rig.translation).cross(m.turn(base_from_rig.rotation, three(e, 3))),
        ),
        0 <= row < 6,
        0 <= col < 6,
    ensures
        m.num(after.covariance.at(row, col)) == body(row) * body(col),
{
    let n = &seen.numerics;
    let adjoint = (seen.mount->0).covariance_adjoint;
    law_moved_covariance_is_that_of_the_moved_error(
        n,
        m,
        adjoint,
        rig_covariance,
        after.covariance,
        e,
        row,
        col,
    );
    law_adjoint_carries_a_small_motion(n, m, base_from_rig, adjoint, e);
    let f = |i: int| on6(m, adjoint, e, i);
    assert(three(f, 3) == three(body, 3) && three(f, 0) == three(body, 0));
    assert forall|i: int| 0 <= i < 6 implies on6(m, adjoint, e, i) == #[trigger] body(i) by {
        assert(f(i) == on6(m, adjoint, e, i));
        assert(three(f, 0).x == f(0) && three(f, 0).y == f(1) && three(f, 0).z == f(2));
        assert(three(f, 3).x == f(3) && three(f, 3).y == f(4) && three(f, 3).z == f(5));
        assert(three(body, 0).x == body(0) && three(body, 0).y == body(1) && three(body, 0).z
            == body(2));
        assert(three(body, 3).x == body(3) && three(body, 3).y == body(4) && three(body, 3).z
            == body(5));
    }
    assert(on6(m, adjoint, e, row) == body(row));
    assert(on6(m, adjoint, e, col) == body(col));
}

} // verus!
