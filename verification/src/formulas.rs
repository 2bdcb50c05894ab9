//! The formulas of the odometry, each written out in the arithmetic it is made of.

use vstd::prelude::*;

use crate::numerics::Numerics;
use crate::scalar::{larger, smaller, spec_larger, spec_smaller, Scalar, Single};
use crate::types::{CameraModel, Matrix3, Matrix6, Pose, Quaternion, SingleVector, Six, Vector3};

verus! {

/// The bits of 1e6, the nanoseconds of a millisecond.
pub const MILLION_BITS: u64 = 0x412e_8480_0000_0000;

/// The bits of 1e9, the nanoseconds of a second.
pub const BILLION_BITS: u64 = 0x41cd_cd65_0000_0000;

/// The bits of 0.5.
pub const HALF_BITS: u64 = 0x3fe0_0000_0000_0000;

/// The bits of 2.0.
pub const TWO_BITS: u64 = 0x4000_0000_0000_0000;

/// The bits of 0.3: metres by which a surface may lie between its neighbours.
pub const GAP_METERS_BITS: u64 = 0x3fd3_3333_3333_3333;

/// The bits of 0.1: the part of its depth by which a surface may lie between its neighbours.
pub const GAP_PART_BITS: u64 = 0x3fb9_9999_9999_999a;

/// The bits of 65535.0, the largest raw depth.
pub const LARGEST_RAW_BITS: u64 = 0x40ef_ffe0_0000_0000;

/// The bits of 0.025, in seconds. Raw gyro differences are too noisy for the tangential lever-arm
/// term. A time constant, not a per-sample weight, so the cutoff does not move with IMU rate.
pub const ANGULAR_ACCEL_TIME_CONSTANT_BITS: u64 = 0x3f99_9999_9999_999a;

/// `r` is a span in seconds.
pub open spec fn seconds_of<N: Numerics>(n: &N, dt_ns: i64, r: Scalar) -> bool {
    exists|count: Scalar|
        {
            &&& call_ensures(N::from_int, (n, dt_ns), count)
            &&& #[trigger] call_ensures(N::ratio, (n, count, Scalar { bits: BILLION_BITS }), r)
        }
}

/// A span in seconds.
pub fn seconds<N: Numerics>(n: &N, dt_ns: i64) -> (r: Scalar)
    ensures
        seconds_of(n, dt_ns, r),
{
    let count = n.from_int(dt_ns);
    n.ratio(count, Scalar { bits: BILLION_BITS })
}

/// `r` are the whole nanoseconds of a number of seconds.
pub open spec fn nanoseconds_of<N: Numerics>(n: &N, seconds: Scalar, r: i64) -> bool {
    exists|count: Scalar|
        {
            &&& #[trigger] call_ensures(
                N::times,
                (n, seconds, Scalar { bits: BILLION_BITS }),
                count,
            )
            &&& call_ensures(N::to_i64, (n, count), r)
        }
}

/// The whole nanoseconds of a number of seconds.
pub fn nanoseconds<N: Numerics>(n: &N, seconds: Scalar) -> (r: i64)
    ensures
        nanoseconds_of(n, seconds, r),
{
    let count = n.times(seconds, Scalar { bits: BILLION_BITS });
    n.to_i64(count)
}

/// `r` are the whole nanoseconds of a number of milliseconds.
pub open spec fn milliseconds_of<N: Numerics>(n: &N, amount: Scalar, r: i64) -> bool {
    exists|count: Scalar|
        {
            &&& #[trigger] call_ensures(
                N::times,
                (n, amount, Scalar { bits: MILLION_BITS }),
                count,
            )
            &&& call_ensures(N::to_i64, (n, count), r)
        }
}

/// The whole nanoseconds of a number of milliseconds.
pub fn milliseconds<N: Numerics>(n: &N, amount: Scalar) -> (r: i64)
    ensures
        milliseconds_of(n, amount, r),
{
    let count = n.times(amount, Scalar { bits: MILLION_BITS });
    n.to_i64(count)
}

/// `r` are the whole nanoseconds between two outputs at `rate` per second, a rate below one
/// counting as one.
pub open spec fn period_of<N: Numerics>(n: &N, rate: Scalar, r: i64) -> bool {
    exists|count: Scalar|
        {
            &&& #[trigger] call_ensures(
                N::ratio,
                (n, Scalar { bits: BILLION_BITS }, spec_larger(rate, Scalar::one())),
                count,
            )
            &&& call_ensures(N::to_i64, (n, count), r)
        }
}

/// The whole nanoseconds between two outputs.
pub fn period<N: Numerics>(n: &N, rate: Scalar) -> (r: i64)
    ensures
        period_of(n, rate, r),
{
    let count = n.ratio(Scalar { bits: BILLION_BITS }, larger(rate, Scalar::one()));
    n.to_i64(count)
}

/// `r` is `a` per second, if it took `dt_ns`.
pub open spec fn per_second_of<N: Numerics>(n: &N, a: Scalar, dt_ns: i64, r: Scalar) -> bool {
    exists|dt: Scalar|
        {
            &&& #[trigger] seconds_of(n, dt_ns, dt)
            &&& call_ensures(N::ratio, (n, a, dt), r)
        }
}

/// `a` per second, if it took `dt_ns`.
pub fn per_second<N: Numerics>(n: &N, a: Scalar, dt_ns: i64) -> (r: Scalar)
    ensures
        per_second_of(n, a, dt_ns, r),
{
    let dt = seconds(n, dt_ns);
    n.ratio(a, dt)
}

/// On the way to an angular acceleration.
pub struct AlphaTrace {
    pub dt: Scalar,
    pub change: Vector3,
    pub raw: Vector3,
    pub exponent: Scalar,
    pub decay: Scalar,
    pub blend: Scalar,
    pub ahead: Vector3,
    pub step: Vector3,
}

/// See [`smoothed_of`].
pub open spec fn smoothed_by<N: Numerics>(
    n: &N,
    alpha: Vector3,
    gyro: Vector3,
    last_gyro: Vector3,
    dt_ns: i64,
    t: AlphaTrace,
    r: Vector3,
) -> bool {
    let tau = Scalar { bits: ANGULAR_ACCEL_TIME_CONSTANT_BITS };
    &&& seconds_of(n, dt_ns, t.dt)
    &&& call_ensures(N::minus, (n, &gyro, &last_gyro), t.change)
    &&& call_ensures(N::divided, (n, &t.change, t.dt), t.raw)
    &&& call_ensures(N::ratio, (n, t.dt.opposite(), tau), t.exponent)
    &&& call_ensures(N::exp, (n, t.exponent), t.decay)
    &&& call_ensures(N::difference, (n, Scalar::one(), t.decay), t.blend)
    &&& call_ensures(N::minus, (n, &t.raw, &alpha), t.ahead)
    &&& call_ensures(N::scaled, (n, &t.ahead, t.blend), t.step)
    &&& call_ensures(N::plus, (n, &alpha, &t.step), r)
}

/// `r` is the low-passed angular acceleration after a gyro reading `dt_ns` past the last: it goes
/// the part `1 - exp(-dt / tau)` of the way to what the two readings say.
pub open spec fn smoothed_of<N: Numerics>(
    n: &N,
    alpha: Vector3,
    gyro: Vector3,
    last_gyro: Vector3,
    dt_ns: i64,
    r: Vector3,
) -> bool {
    exists|t: AlphaTrace| #[trigger] smoothed_by(n, alpha, gyro, last_gyro, dt_ns, t, r)
}

/// The low-passed angular acceleration after a gyro reading `dt_ns` past the last.
pub fn smoothed<N: Numerics>(
    n: &N,
    alpha: &Vector3,
    gyro: &Vector3,
    last_gyro: &Vector3,
    dt_ns: i64,
) -> (r: Vector3)
    ensures
        smoothed_of(n, *alpha, *gyro, *last_gyro, dt_ns, r),
{
    let tau = Scalar { bits: ANGULAR_ACCEL_TIME_CONSTANT_BITS };
    let dt = seconds(n, dt_ns);
    let change = n.minus(gyro, last_gyro);
    let raw = n.divided(&change, dt);
    let exponent = n.ratio(dt.negated(), tau);
    let decay = n.exp(exponent);
    let blend = n.difference(Scalar::one(), decay);
    let ahead = n.minus(&raw, alpha);
    let step = n.scaled(&ahead, blend);
    let r = n.plus(alpha, &step);
    let ghost t = AlphaTrace { dt, change, raw, exponent, decay, blend, ahead, step };
    assert(smoothed_by(n, *alpha, *gyro, *last_gyro, dt_ns, t, r));
    r
}

/// On the way to an acceleration without its lever arm.
pub struct LeverTrace {
    pub inner: Vector3,
    pub centripetal: Vector3,
    pub tangential: Vector3,
    pub both: Vector3,
}

/// See [`without_lever_of`].
pub open spec fn without_lever_by<N: Numerics>(
    n: &N,
    accel: Vector3,
    gyro: Vector3,
    alpha: Vector3,
    lever: Vector3,
    t: LeverTrace,
    r: Vector3,
) -> bool {
    &&& call_ensures(N::cross, (n, &gyro, &lever), t.inner)
    &&& call_ensures(N::cross, (n, &gyro, &t.inner), t.centripetal)
    &&& call_ensures(N::cross, (n, &alpha, &lever), t.tangential)
    &&& call_ensures(N::plus, (n, &t.centripetal, &t.tangential), t.both)
    &&& call_ensures(N::minus, (n, &accel, &t.both), r)
}

/// `r` is the acceleration less the centripetal and tangential terms that a lever arm adds.
pub open spec fn without_lever_of<N: Numerics>(
    n: &N,
    accel: Vector3,
    gyro: Vector3,
    alpha: Vector3,
    lever: Vector3,
    r: Vector3,
) -> bool {
    exists|t: LeverTrace| #[trigger] without_lever_by(n, accel, gyro, alpha, lever, t, r)
}

/// The acceleration less the centripetal and tangential terms that a lever arm adds.
pub fn without_lever<N: Numerics>(
    n: &N,
    accel: &Vector3,
    gyro: &Vector3,
    alpha: &Vector3,
    lever: &Vector3,
) -> (r: Vector3)
    ensures
        without_lever_of(n, *accel, *gyro, *alpha, *lever, r),
{
    let inner = n.cross(gyro, lever);
    let centripetal = n.cross(gyro, &inner);
    let tangential = n.cross(alpha, lever);
    let both = n.plus(&centripetal, &tangential);
    let r = n.minus(accel, &both);
    let ghost t = LeverTrace { inner, centripetal, tangential, both };
    assert(without_lever_by(n, *accel, *gyro, *alpha, *lever, t, r));
    r
}

/// What a run of stationary IMU samples says: which way is up, and what the sensor reads at rest.
#[derive(Clone, Copy, Debug, PartialEq, Eq, Structural)]
pub struct Leveling {
    pub world_from_body: Quaternion,
    pub gyro_bias: Vector3,
    pub accel_bias: Vector3,
}

/// On the way to a leveling.
pub struct LevelTrace {
    pub count: Scalar,
    pub mean_accel: Vector3,
    pub between: Option<Quaternion>,
    pub weight: Vector3,
}

/// See [`leveled_of`].
pub open spec fn leveled_by<N: Numerics>(
    n: &N,
    accel_sum: Vector3,
    gyro_sum: Vector3,
    samples: i64,
    gravity: Scalar,
    t: LevelTrace,
    r: Leveling,
) -> bool {
    let up = Vector3::spec_along(2, Scalar::one());
    &&& call_ensures(N::from_int, (n, samples), t.count)
    &&& call_ensures(N::divided, (n, &accel_sum, t.count), t.mean_accel)
    &&& call_ensures(N::divided, (n, &gyro_sum, t.count), r.gyro_bias)
    &&& call_ensures(N::rotation_between, (n, &t.mean_accel, &up), t.between)
    &&& r.world_from_body == match t.between {
        Some(q) => q,
        None => Quaternion::identity(),
    }
    &&& call_ensures(
        N::inverse_rotate,
        (n, &r.world_from_body, &Vector3::spec_along(2, gravity)),
        t.weight,
    )
    &&& call_ensures(N::minus, (n, &t.mean_accel, &t.weight), r.accel_bias)
}

/// `r` is the level and the biases from the sums over `samples` stationary readings. A stationary
/// accelerometer reads the specific force, which is leveled to point up; any reading beyond
/// gravity is bias.
pub open spec fn leveled_of<N: Numerics>(
    n: &N,
    accel_sum: Vector3,
    gyro_sum: Vector3,
    samples: i64,
    gravity: Scalar,
    r: Leveling,
) -> bool {
    exists|t: LevelTrace| #[trigger] leveled_by(n, accel_sum, gyro_sum, samples, gravity, t, r)
}

/// Level and biases from the sums over `samples` stationary readings.
pub fn leveled<N: Numerics>(
    n: &N,
    accel_sum: &Vector3,
    gyro_sum: &Vector3,
    samples: i64,
    gravity: Scalar,
) -> (r: Leveling)
    ensures
        leveled_of(n, *accel_sum, *gyro_sum, samples, gravity, r),
{
    let count = n.from_int(samples);
    let mean_accel = n.divided(accel_sum, count);
    let gyro_bias = n.divided(gyro_sum, count);
    let between = n.rotation_between(&mean_accel, &Vector3::along(2, Scalar::one()));
    let world_from_body = match between {
        Some(q) => q,
        None => Quaternion::identity(),
    };
    let weight = n.inverse_rotate(&world_from_body, &Vector3::along(2, gravity));
    let accel_bias = n.minus(&mean_accel, &weight);
    let r = Leveling { world_from_body, gyro_bias, accel_bias };
    let ghost t = LevelTrace { count, mean_accel, between, weight };
    assert(leveled_by(n, *accel_sum, *gyro_sum, samples, gravity, t, r));
    r
}

/// `r` is `q` followed by a turn about the body's own axis `by`, its length the angle.
pub open spec fn turn_of<N: Numerics>(n: &N, q: Quaternion, by: Vector3, r: Quaternion) -> bool {
    exists|step: Quaternion|
        {
            &&& call_ensures(N::from_scaled_axis, (n, &by), step)
            &&& #[trigger] call_ensures(N::turned, (n, &q, &step), r)
        }
}

/// `q` followed by a turn about the body's own axis `by`, its length the angle.
pub fn turn<N: Numerics>(n: &N, q: &Quaternion, by: &Vector3) -> (r: Quaternion)
    ensures
        turn_of(n, *q, *by, r),
{
    let step = n.from_scaled_axis(by);
    n.turned(q, &step)
}

/// `r` is how far `target` is from the given position and attitude, the rotation in body axes.
pub open spec fn pose_residual_of<N: Numerics>(
    n: &N,
    target: Pose,
    position: Vector3,
    q: Quaternion,
    r: Six,
) -> bool {
    &&& call_ensures(N::minus, (n, &target.translation, &position), r.linear)
    &&& rotation_residual_of(n, target.rotation, q, r.angular)
}

/// `r` is the rotation from `q` to `target`, in body axes.
pub open spec fn rotation_residual_of<N: Numerics>(
    n: &N,
    target: Quaternion,
    q: Quaternion,
    r: Vector3,
) -> bool {
    exists|between: Quaternion|
        {
            &&& #[trigger] call_ensures(N::turned, (n, &q.back(), &target), between)
            &&& call_ensures(N::scaled_axis, (n, &between), r)
        }
}

/// How far `target` is from the given position and attitude.
pub fn pose_residual<N: Numerics>(n: &N, target: &Pose, position: &Vector3, q: &Quaternion) -> (r:
    Six)
    ensures
        pose_residual_of(n, *target, *position, *q, r),
{
    let linear = n.minus(&target.translation, position);
    let back = q.conjugate();
    let between = n.turned(&back, &target.rotation);
    let angular = n.scaled_axis(&between);
    assert(rotation_residual_of(n, target.rotation, *q, angular));
    Six { linear, angular }
}

/// The velocity as the body sees it.
#[derive(Clone, Copy, Debug, PartialEq, Eq, Structural)]
pub struct BodyMotion {
    pub velocity: Vector3,
    /// The rotation from world to body axes.
    pub body_from_world: Matrix3,
}

/// `r` is the velocity as the body sees it.
pub open spec fn body_motion_of<N: Numerics>(
    n: &N,
    q: Quaternion,
    velocity: Vector3,
    r: BodyMotion,
) -> bool {
    &&& call_ensures(N::rotation_matrix, (n, &q.back()), r.body_from_world)
    &&& call_ensures(N::matrix3_apply, (n, &r.body_from_world, &velocity), r.velocity)
}

/// The velocity as the body sees it.
pub fn body_motion<N: Numerics>(n: &N, q: &Quaternion, velocity: &Vector3) -> (r: BodyMotion)
    ensures
        body_motion_of(n, *q, *velocity, r),
{
    let back = q.conjugate();
    let body_from_world = n.rotation_matrix(&back);
    BodyMotion { velocity: n.matrix3_apply(&body_from_world, velocity), body_from_world }
}

/// `r` is `m` turned into body axes on both sides.
pub open spec fn into_body_of<N: Numerics>(
    n: &N,
    body_from_world: Matrix3,
    m: Matrix3,
    r: Matrix3,
) -> bool {
    exists|half: Matrix3|
        {
            &&& call_ensures(N::matrix3_times, (n, &body_from_world, &m), half)
            &&& #[trigger] call_ensures(
                N::matrix3_times,
                (n, &half, &body_from_world.flipped()),
                r,
            )
        }
}

/// `m` turned into body axes on both sides.
pub fn into_body<N: Numerics>(n: &N, body_from_world: &Matrix3, m: &Matrix3) -> (r: Matrix3)
    ensures
        into_body_of(n, *body_from_world, *m, r),
{
    let half = n.matrix3_times(body_from_world, m);
    let flipped = body_from_world.transpose();
    n.matrix3_times(&half, &flipped)
}

/// `r` is `v` with each component times its share.
pub open spec fn shared_of<N: Numerics>(n: &N, share: Vector3, v: Vector3, r: Vector3) -> bool {
    &&& call_ensures(N::times, (n, share.x, v.x), r.x)
    &&& call_ensures(N::times, (n, share.y, v.y), r.y)
    &&& call_ensures(N::times, (n, share.z, v.z), r.z)
}

fn shared<N: Numerics>(n: &N, share: &Vector3, v: &Vector3) -> (r: Vector3)
    ensures
        shared_of(n, *share, *v, r),
{
    Vector3 { x: n.times(share.x, v.x), y: n.times(share.y, v.y), z: n.times(share.z, v.z) }
}

/// On the way to a nudged pose.
pub struct NudgeTrace {
    pub step: Vector3,
    pub moved: Vector3,
    pub axis: Vector3,
    pub twist: Vector3,
}

/// See [`nudged_of`].
pub open spec fn nudged_by<N: Numerics>(
    n: &N,
    position: Vector3,
    q: Quaternion,
    increment: Pose,
    share: Six,
    t: NudgeTrace,
    r: Pose,
) -> bool {
    &&& shared_of(n, share.linear, increment.translation, t.step)
    &&& call_ensures(N::rotate, (n, &q, &t.step), t.moved)
    &&& call_ensures(N::plus, (n, &position, &t.moved), r.translation)
    &&& call_ensures(N::scaled_axis, (n, &increment.rotation), t.axis)
    &&& shared_of(n, share.angular, t.axis, t.twist)
    &&& turn_of(n, q, t.twist, r.rotation)
}

/// `r` is a position and attitude moved by `increment`, each dimension scaled by its share.
pub open spec fn nudged_of<N: Numerics>(
    n: &N,
    position: Vector3,
    q: Quaternion,
    increment: Pose,
    share: Six,
    r: Pose,
) -> bool {
    exists|t: NudgeTrace| #[trigger] nudged_by(n, position, q, increment, share, t, r)
}

/// Position and attitude moved by `increment`, each dimension scaled by its share.
pub fn nudged<N: Numerics>(
    n: &N,
    position: &Vector3,
    q: &Quaternion,
    increment: &Pose,
    share: &Six,
) -> (r: Pose)
    ensures
        nudged_of(n, *position, *q, *increment, *share, r),
{
    let step = shared(n, &share.linear, &increment.translation);
    let moved = n.rotate(q, &step);
    let translation = n.plus(position, &moved);
    let axis = n.scaled_axis(&increment.rotation);
    let twist = shared(n, &share.angular, &axis);
    let rotation = turn(n, q, &twist);
    let r = Pose { translation, rotation };
    let ghost t = NudgeTrace { step, moved, axis, twist };
    assert(nudged_by(n, *position, *q, *increment, *share, t, r));
    r
}

/// `r` is the matrix product `a * m * a^T`.
pub open spec fn congruent_of<N: Numerics>(n: &N, a: Matrix6, m: Matrix6, r: Matrix6) -> bool {
    exists|half: Matrix6, flipped: Matrix6|
        {
            &&& call_ensures(N::matrix6_times, (n, &a, &m), half)
            &&& a.flips_to(flipped)
            &&& #[trigger] call_ensures(N::matrix6_times, (n, &half, &flipped), r)
        }
}

/// The matrix product `a * m * a^T`.
pub fn congruent<N: Numerics>(n: &N, a: &Matrix6, m: &Matrix6) -> (r: Matrix6)
    ensures
        congruent_of(n, *a, *m, r),
{
    let half = n.matrix6_times(a, m);
    let flipped = a.transpose();
    n.matrix6_times(&half, &flipped)
}

/// `r` is the smallest raw depth that is not nearer than `min_range` metres; never zero.
pub open spec fn near_raw_of<N: Numerics>(
    n: &N,
    min_range: Scalar,
    units_per_meter: Scalar,
    r: u16,
) -> bool {
    exists|raw: Scalar, whole: Scalar|
        {
            &&& call_ensures(N::times, (n, min_range, units_per_meter), raw)
            &&& #[trigger] call_ensures(N::ceil, (n, raw), whole)
            &&& call_ensures(N::to_u16, (n, spec_larger(whole, Scalar::one())), r)
        }
}

/// The smallest raw depth that is not nearer than `min_range` metres; never zero.
pub fn near_raw<N: Numerics>(n: &N, min_range: Scalar, units_per_meter: Scalar) -> (r: u16)
    ensures
        near_raw_of(n, min_range, units_per_meter, r),
{
    let raw = n.times(min_range, units_per_meter);
    let whole = n.ceil(raw);
    n.to_u16(larger(whole, Scalar::one()))
}

/// `r` is the largest raw depth that is not farther than `max_range` metres.
pub open spec fn far_raw_of<N: Numerics>(
    n: &N,
    max_range: Scalar,
    units_per_meter: Scalar,
    r: u16,
) -> bool {
    exists|raw: Scalar, whole: Scalar|
        {
            &&& call_ensures(N::times, (n, max_range, units_per_meter), raw)
            &&& #[trigger] call_ensures(
                N::floor,
                (n, spec_smaller(raw, Scalar { bits: LARGEST_RAW_BITS })),
                whole,
            )
            &&& call_ensures(N::to_u16, (n, whole), r)
        }
}

/// The largest raw depth that is not farther than `max_range` metres.
pub fn far_raw<N: Numerics>(n: &N, max_range: Scalar, units_per_meter: Scalar) -> (r: u16)
    ensures
        far_raw_of(n, max_range, units_per_meter, r),
{
    let raw = n.times(max_range, units_per_meter);
    let whole = n.floor(smaller(raw, Scalar { bits: LARGEST_RAW_BITS }));
    n.to_u16(whole)
}

/// On the way to a margin.
pub struct MarginTrace {
    pub fixed: Scalar,
    pub depth: Scalar,
    pub part: Scalar,
}

/// See [`gap_margin_of`].
pub open spec fn gap_margin_by<N: Numerics>(
    n: &N,
    units_per_meter: Scalar,
    raw: u16,
    t: MarginTrace,
    r: i32,
) -> bool {
    &&& call_ensures(N::times, (n, Scalar { bits: GAP_METERS_BITS }, units_per_meter), t.fixed)
    &&& call_ensures(N::from_int, (n, raw as i64), t.depth)
    &&& call_ensures(N::times, (n, Scalar { bits: GAP_PART_BITS }, t.depth), t.part)
    &&& call_ensures(N::to_i32, (n, spec_larger(t.fixed, t.part)), r)
}

/// `r` is how far a surface may lie between its neighbours, in raw units: 0.3 m or a tenth of its
/// depth, whichever is more.
pub open spec fn gap_margin_of<N: Numerics>(
    n: &N,
    units_per_meter: Scalar,
    raw: u16,
    r: i32,
) -> bool {
    exists|t: MarginTrace| #[trigger] gap_margin_by(n, units_per_meter, raw, t, r)
}

/// How far a surface may lie between its neighbours, in raw units.
pub fn gap_margin<N: Numerics>(n: &N, units_per_meter: Scalar, raw: u16) -> (r: i32)
    ensures
        gap_margin_of(n, units_per_meter, raw, r),
{
    let fixed = n.times(Scalar { bits: GAP_METERS_BITS }, units_per_meter);
    let depth = n.from_int(raw as i64);
    let part = n.times(Scalar { bits: GAP_PART_BITS }, depth);
    let r = n.to_i32(larger(fixed, part));
    let ghost t = MarginTrace { fixed, depth, part };
    assert(gap_margin_by(n, units_per_meter, raw, t, r));
    r
}

/// `r` is a raw depth in metres.
pub open spec fn depth_of<N: Numerics>(
    n: &N,
    raw: u16,
    units_per_meter: Scalar,
    r: Scalar,
) -> bool {
    exists|count: Scalar|
        {
            &&& call_ensures(N::from_int, (n, raw as i64), count)
            &&& #[trigger] call_ensures(N::ratio, (n, count, units_per_meter), r)
        }
}

/// A raw depth in metres.
fn depth<N: Numerics>(n: &N, raw: u16, units_per_meter: Scalar) -> (r: Scalar)
    ensures
        depth_of(n, raw, units_per_meter, r),
{
    let count = n.from_int(raw as i64);
    n.ratio(count, units_per_meter)
}

/// On the way from a pixel coordinate to a ray.
pub struct RayTrace {
    pub off: Scalar,
    pub slope: Scalar,
}

/// See [`ray_of`].
pub open spec fn ray_by<N: Numerics>(
    n: &N,
    at: Scalar,
    center: Scalar,
    focal: Scalar,
    z: Scalar,
    t: RayTrace,
    r: Scalar,
) -> bool {
    &&& call_ensures(N::difference, (n, at, center), t.off)
    &&& call_ensures(N::ratio, (n, t.off, focal), t.slope)
    &&& call_ensures(N::times, (n, t.slope, z), r)
}

/// `r` is how far off the axis a pixel coordinate is at depth `z`.
pub open spec fn ray_of<N: Numerics>(
    n: &N,
    at: Scalar,
    center: Scalar,
    focal: Scalar,
    z: Scalar,
    r: Scalar,
) -> bool {
    exists|t: RayTrace| #[trigger] ray_by(n, at, center, focal, z, t, r)
}

fn ray<N: Numerics>(n: &N, at: Scalar, center: Scalar, focal: Scalar, z: Scalar) -> (r: Scalar)
    ensures
        ray_of(n, at, center, focal, z, r),
{
    let off = n.difference(at, center);
    let slope = n.ratio(off, focal);
    let r = n.times(slope, z);
    assert(ray_by(n, at, center, focal, z, RayTrace { off, slope }, r));
    r
}

/// `r` is half of a whole number.
pub open spec fn half_of<N: Numerics>(n: &N, twice: i64, r: Scalar) -> bool {
    exists|count: Scalar|
        {
            &&& call_ensures(N::from_int, (n, twice), count)
            &&& #[trigger] call_ensures(N::ratio, (n, count, Scalar { bits: TWO_BITS }), r)
        }
}

fn half<N: Numerics>(n: &N, twice: i64) -> (r: Scalar)
    ensures
        half_of(n, twice, r),
{
    let count = n.from_int(twice);
    n.ratio(count, Scalar { bits: TWO_BITS })
}

/// On the way to a point.
pub struct PointTrace {
    pub u: Scalar,
    pub v: Scalar,
    pub x: Scalar,
    pub y: Scalar,
    pub z: Scalar,
}

/// See [`point_of`].
pub open spec fn point_by<N: Numerics>(
    n: &N,
    info: CameraModel,
    half_u: i64,
    half_v: i64,
    raw: u16,
    units_per_meter: Scalar,
    t: PointTrace,
    r: SingleVector,
) -> bool {
    &&& half_of(n, half_u, t.u)
    &&& half_of(n, half_v, t.v)
    &&& depth_of(n, raw, units_per_meter, t.z)
    &&& ray_of(n, t.u, info.intrinsics[2], info.intrinsics[0], t.z, t.x)
    &&& ray_of(n, t.v, info.intrinsics[5], info.intrinsics[4], t.z, t.y)
    &&& call_ensures(N::narrow, (n, t.x), r.x)
    &&& call_ensures(N::narrow, (n, t.y), r.y)
    &&& call_ensures(N::narrow, (n, t.z), r.z)
}

/// `r` is the point that a pinhole camera sees at half of the given pixel coordinates and this
/// raw depth.
pub open spec fn point_of<N: Numerics>(
    n: &N,
    info: CameraModel,
    half_u: i64,
    half_v: i64,
    raw: u16,
    units_per_meter: Scalar,
    r: SingleVector,
) -> bool {
    exists|t: PointTrace| #[trigger]
        point_by(n, info, half_u, half_v, raw, units_per_meter, t, r)
}

/// The point that a pinhole camera sees at half of the given pixel coordinates and this raw depth.
pub fn point<N: Numerics>(
    n: &N,
    info: &CameraModel,
    half_u: i64,
    half_v: i64,
    raw: u16,
    units_per_meter: Scalar,
) -> (r: SingleVector)
    ensures
        point_of(n, *info, half_u, half_v, raw, units_per_meter, r),
{
    let u = half(n, half_u);
    let v = half(n, half_v);
    let z = depth(n, raw, units_per_meter);
    let x = ray(n, u, info.intrinsics[2], info.intrinsics[0], z);
    let y = ray(n, v, info.intrinsics[5], info.intrinsics[4], z);
    let r = SingleVector { x: n.narrow(x), y: n.narrow(y), z: n.narrow(z) };
    let ghost t = PointTrace { u, v, x, y, z };
    assert(point_by(n, *info, half_u, half_v, raw, units_per_meter, t, r));
    r
}

/// Where a depth pixel lands in another camera.
#[derive(Clone, Copy, Debug, PartialEq, Eq, Structural)]
pub struct Projection {
    /// Metres in front of the camera.
    pub depth: Scalar,
    /// The nearest column.
    pub u: i64,
    /// The nearest row.
    pub v: i64,
    /// The depth in raw units, to the nearest one.
    pub raw: i64,
}

/// On the way to a sum of three products and an offset.
pub struct RowTrace {
    pub a: Scalar,
    pub b: Scalar,
    pub c: Scalar,
    pub ab: Scalar,
    pub abc: Scalar,
}

/// See [`row_of`].
pub open spec fn row_by<N: Numerics>(
    n: &N,
    row: Vector3,
    v: Vector3,
    offset: Scalar,
    t: RowTrace,
    r: Scalar,
) -> bool {
    &&& call_ensures(N::times, (n, row.x, v.x), t.a)
    &&& call_ensures(N::times, (n, row.y, v.y), t.b)
    &&& call_ensures(N::times, (n, row.z, v.z), t.c)
    &&& call_ensures(N::sum, (n, t.a, t.b), t.ab)
    &&& call_ensures(N::sum, (n, t.ab, t.c), t.abc)
    &&& call_ensures(N::sum, (n, t.abc, offset), r)
}

/// `r` is one coordinate of a transformed point.
pub open spec fn row_of<N: Numerics>(
    n: &N,
    row: Vector3,
    v: Vector3,
    offset: Scalar,
    r: Scalar,
) -> bool {
    exists|t: RowTrace| #[trigger] row_by(n, row, v, offset, t, r)
}

fn row_times<N: Numerics>(n: &N, row: &Vector3, v: &Vector3, offset: Scalar) -> (r: Scalar)
    ensures
        row_of(n, *row, *v, offset, r),
{
    let a = n.times(row.x, v.x);
    let b = n.times(row.y, v.y);
    let c = n.times(row.z, v.z);
    let ab = n.sum(a, b);
    let abc = n.sum(ab, c);
    let r = n.sum(abc, offset);
    assert(row_by(n, *row, *v, offset, RowTrace { a, b, c, ab, abc }, r));
    r
}

/// On the way to a pixel coordinate.
pub struct CoordinateTrace {
    pub wide: Scalar,
    pub slope: Scalar,
    pub at: Scalar,
    pub near: Scalar,
}

/// See [`coordinate_of`].
pub open spec fn coordinate_by<N: Numerics>(
    n: &N,
    focal: Scalar,
    x: Scalar,
    z: Scalar,
    center: Scalar,
    t: CoordinateTrace,
    r: i64,
) -> bool {
    &&& call_ensures(N::times, (n, focal, x), t.wide)
    &&& call_ensures(N::ratio, (n, t.wide, z), t.slope)
    &&& call_ensures(N::sum, (n, t.slope, center), t.at)
    &&& call_ensures(N::round, (n, t.at), t.near)
    &&& call_ensures(N::to_i64, (n, t.near), r)
}

/// `r` is the pixel coordinate nearest to where a pinhole camera sees a point.
pub open spec fn coordinate_of<N: Numerics>(
    n: &N,
    focal: Scalar,
    x: Scalar,
    z: Scalar,
    center: Scalar,
    r: i64,
) -> bool {
    exists|t: CoordinateTrace| #[trigger] coordinate_by(n, focal, x, z, center, t, r)
}

fn coordinate<N: Numerics>(n: &N, focal: Scalar, x: Scalar, z: Scalar, center: Scalar) -> (r: i64)
    ensures
        coordinate_of(n, focal, x, z, center, r),
{
    let wide = n.times(focal, x);
    let slope = n.ratio(wide, z);
    let at = n.sum(slope, center);
    let near = n.round(at);
    let r = n.to_i64(near);
    assert(coordinate_by(n, focal, x, z, center, CoordinateTrace { wide, slope, at, near }, r));
    r
}

/// On the way to a projection.
pub struct ProjectTrace {
    pub u: Scalar,
    pub v: Scalar,
    /// The point as the depth camera has it.
    pub seen: Vector3,
    pub x: Scalar,
    pub y: Scalar,
    pub raw: Scalar,
    pub near: Scalar,
}

/// See [`projected_of`].
pub open spec fn projected_by<N: Numerics>(
    n: &N,
    depth_info: CameraModel,
    camera_info: CameraModel,
    rotation: Matrix3,
    origin: Vector3,
    units_per_meter: Scalar,
    u: i32,
    v: i32,
    raw: u16,
    t: ProjectTrace,
    r: Projection,
) -> bool {
    let from = depth_info.intrinsics;
    let to = camera_info.intrinsics;
    &&& call_ensures(N::from_int, (n, u as i64), t.u)
    &&& call_ensures(N::from_int, (n, v as i64), t.v)
    &&& depth_of(n, raw, units_per_meter, t.seen.z)
    &&& ray_of(n, t.u, from[2], from[0], t.seen.z, t.seen.x)
    &&& ray_of(n, t.v, from[5], from[4], t.seen.z, t.seen.y)
    &&& row_of(n, rotation.third, t.seen, origin.z, r.depth)
    &&& row_of(n, rotation.first, t.seen, origin.x, t.x)
    &&& row_of(n, rotation.second, t.seen, origin.y, t.y)
    &&& coordinate_of(n, to[0], t.x, r.depth, to[2], r.u)
    &&& coordinate_of(n, to[4], t.y, r.depth, to[5], r.v)
    &&& call_ensures(N::times, (n, r.depth, units_per_meter), t.raw)
    &&& call_ensures(N::round, (n, t.raw), t.near)
    &&& call_ensures(N::to_i64, (n, t.near), r.raw)
}

/// `r` is a pixel of a depth camera, seen by another camera at `rotation` and `origin`.
pub open spec fn projected_of<N: Numerics>(
    n: &N,
    depth_info: CameraModel,
    camera_info: CameraModel,
    rotation: Matrix3,
    origin: Vector3,
    units_per_meter: Scalar,
    u: i32,
    v: i32,
    raw: u16,
    r: Projection,
) -> bool {
    exists|t: ProjectTrace| #[trigger]
        projected_by(
            n,
            depth_info,
            camera_info,
            rotation,
            origin,
            units_per_meter,
            u,
            v,
            raw,
            t,
            r,
        )
}

/// A pixel of a depth camera, seen by another camera at `rotation` and `origin`.
pub fn projected<N: Numerics>(
    n: &N,
    depth_info: &CameraModel,
    camera_info: &CameraModel,
    rotation: &Matrix3,
    origin: &Vector3,
    units_per_meter: Scalar,
    u: i32,
    v: i32,
    raw: u16,
) -> (r: Projection)
    ensures
        projected_of(
            n,
            *depth_info,
            *camera_info,
            *rotation,
            *origin,
            units_per_meter,
            u,
            v,
            raw,
            r,
        ),
{
    let at_u = n.from_int(u as i64);
    let at_v = n.from_int(v as i64);
    let z = depth(n, raw, units_per_meter);
    let seen = Vector3 {
        x: ray(n, at_u, depth_info.intrinsics[2], depth_info.intrinsics[0], z),
        y: ray(n, at_v, depth_info.intrinsics[5], depth_info.intrinsics[4], z),
        z,
    };
    let z_c = row_times(n, &rotation.third, &seen, origin.z);
    let x = row_times(n, &rotation.first, &seen, origin.x);
    let y = row_times(n, &rotation.second, &seen, origin.y);
    let scaled = n.times(z_c, units_per_meter);
    let near = n.round(scaled);
    let r = Projection {
        depth: z_c,
        u: coordinate(n, camera_info.intrinsics[0], x, z_c, camera_info.intrinsics[2]),
        v: coordinate(n, camera_info.intrinsics[4], y, z_c, camera_info.intrinsics[5]),
        raw: n.to_i64(near),
    };
    let ghost t = ProjectTrace { u: at_u, v: at_v, seen, x, y, raw: scaled, near };
    assert(projected_by(
        n,
        *depth_info,
        *camera_info,
        *rotation,
        *origin,
        units_per_meter,
        u,
        v,
        raw,
        t,
        r,
    ));
    r
}

/// `r` is a raw depth in metres, in single precision.
pub open spec fn meters_of<N: Numerics>(
    n: &N,
    raw: u16,
    units_per_meter: Scalar,
    r: Single,
) -> bool {
    exists|count: Single, units: Single|
        {
            &&& call_ensures(N::single_from, (n, raw), count)
            &&& call_ensures(N::narrow, (n, units_per_meter), units)
            &&& #[trigger] call_ensures(N::single_ratio, (n, count, units), r)
        }
}

/// A raw depth in metres, in single precision.
pub fn meters<N: Numerics>(n: &N, raw: u16, units_per_meter: Scalar) -> (r: Single)
    ensures
        meters_of(n, raw, units_per_meter, r),
{
    let count = n.single_from(raw);
    let units = n.narrow(units_per_meter);
    n.single_ratio(count, units)
}

/// On the way to a raw depth.
pub struct RawTrace {
    pub units: Single,
    pub raw: Single,
    pub near: Single,
}

/// See [`raw_depth_of`].
pub open spec fn raw_depth_by<N: Numerics>(
    n: &N,
    meters: Single,
    units_per_meter: Scalar,
    t: RawTrace,
    r: u16,
) -> bool {
    &&& call_ensures(N::narrow, (n, units_per_meter), t.units)
    &&& call_ensures(N::single_times, (n, meters, t.units), t.raw)
    &&& call_ensures(N::single_round, (n, t.raw), t.near)
    &&& call_ensures(N::single_to_u16, (n, t.near), r)
}

/// `r` are metres as a raw depth, to the nearest one and held within sixteen bits.
pub open spec fn raw_depth_of<N: Numerics>(
    n: &N,
    meters: Single,
    units_per_meter: Scalar,
    r: u16,
) -> bool {
    exists|t: RawTrace| #[trigger] raw_depth_by(n, meters, units_per_meter, t, r)
}

/// Metres as a raw depth, to the nearest one and held within sixteen bits.
pub fn raw_depth<N: Numerics>(n: &N, meters: Single, units_per_meter: Scalar) -> (r: u16)
    ensures
        raw_depth_of(n, meters, units_per_meter, r),
{
    let units = n.narrow(units_per_meter);
    let raw = n.single_times(meters, units);
    let near = n.single_round(raw);
    let r = n.single_to_u16(near);
    assert(raw_depth_by(n, meters, units_per_meter, RawTrace { units, raw, near }, r));
    r
}

} // verus!
