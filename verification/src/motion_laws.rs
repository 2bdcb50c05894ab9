//! What the fusion's formulas do to the estimate, where arithmetic does not round.

use vstd::prelude::*;

use crate::eskf::{freed_of, reckoned_of, ImuBias, MotionTrace, StateView};
use crate::estimator::{active, blended, moved_by_share, pose_of, share_of, shares_of, totalled};
use crate::estimator::{weight_of, Measurement, Memory, SourceActivity};
use crate::estimator::SOURCE_ACTIVITY_TIMEOUT_NS;
use crate::exact::{exact, turns_lawful, Meaning, Vec3};
use crate::exact_laws::{law_source_motion_leads_to_its_pose, law_turn_is_about_the_bodys_axis};
use crate::exact_laws::{law_whole_share_moves_by_the_increment, lemma_whole_share};
use crate::formulas::{body_motion_of, into_body_of, leveled_by, leveled_of, seconds_of};
use crate::formulas::{smoothed_by, smoothed_of, without_lever_by, without_lever_of, AlphaTrace};
use crate::formulas::{BodyMotion, LevelTrace, Leveling, LeverTrace, HALF_BITS};
use crate::fusion_model::{moved_since, sampled, BodySample, FusionCore};
use crate::numerics::Numerics;
use crate::scalar::Scalar;
use crate::stamp::span;
use crate::types::{ImuSample, Matrix3, Pose, Quaternion, Six, Vector3};

verus! {

/// The sum of one dimension's inverse variances over the active ones among the first sources.
pub open spec fn weight_sum(
    m: Meaning,
    activity: Seq<SourceActivity>,
    horizon: i64,
    dim: int,
    count: nat,
) -> real
    decreases count,
{
    if count == 0 {
        0real
    } else {
        let last = activity[count - 1];
        weight_sum(m, activity, horizon, dim, (count - 1) as nat) + if active(last, horizon) {
            m.num(last.inverse_variance.at(dim))
        } else {
            0real
        }
    }
}

/// The sum of the shares of the active ones among the first sources.
pub open spec fn share_sum(
    m: Meaning,
    activity: Seq<SourceActivity>,
    horizon: i64,
    shares: Seq<Scalar>,
    count: nat,
) -> real
    decreases count,
{
    if count == 0 {
        0real
    } else {
        share_sum(m, activity, horizon, shares, (count - 1) as nat) + if active(
            activity[count - 1],
            horizon,
        ) {
            m.num(shares[count - 1])
        } else {
            0real
        }
    }
}

proof fn lemma_total<N: Numerics>(
    n: &N,
    m: Meaning,
    activity: Seq<SourceActivity>,
    horizon: i64,
    dim: int,
    count: nat,
    total: Scalar,
)
    requires
        exact(n, m),
        totalled(n, activity, horizon, dim, count, total),
    ensures
        m.num(total) == weight_sum(m, activity, horizon, dim, count),
        !total.nan(),
    decreases count,
{
    if count > 0 {
        let last = activity[count - 1];
        if active(last, horizon) {
            let partial = choose|partial: Scalar|
                {
                    &&& totalled(n, activity, horizon, dim, (count - 1) as nat, partial)
                    &&& #[trigger] call_ensures(
                        N::sum,
                        (n, partial, last.inverse_variance.at(dim)),
                        total,
                    )
                };
            lemma_total(n, m, activity, horizon, dim, (count - 1) as nat, partial);
        } else {
            lemma_total(n, m, activity, horizon, dim, (count - 1) as nat, total);
        }
    }
}

/// Law: a share is the source's part of the weights: times the sum of the active sources' weights
/// it is the source's own.
pub proof fn law_share_is_the_part_of_the_weights<N: Numerics>(
    n: &N,
    m: Meaning,
    activity: Seq<SourceActivity>,
    horizon: i64,
    source: int,
    dim: int,
    share: Scalar,
)
    requires
        exact(n, m),
        share_of(n, activity, horizon, source, dim, share),
        weight_sum(m, activity, horizon, dim, activity.len()) > 0real,
    ensures
        m.num(share) * weight_sum(m, activity, horizon, dim, activity.len()) == m.num(
            activity[source].inverse_variance.at(dim),
        ),
{
    let total = choose|total: Scalar|
        {
            &&& #[trigger] totalled(n, activity, horizon, dim, activity.len(), total)
            &&& if total.positive() {
                call_ensures(N::ratio, (n, activity[source].inverse_variance.at(dim), total), share)
            } else {
                share == Scalar::zero()
            }
        };
    lemma_total(n, m, activity, horizon, dim, activity.len(), total);
}

proof fn lemma_shares_add_up<N: Numerics>(
    n: &N,
    m: Meaning,
    activity: Seq<SourceActivity>,
    horizon: i64,
    dim: int,
    shares: Seq<Scalar>,
    count: nat,
)
    requires
        exact(n, m),
        count <= activity.len(),
        shares.len() == activity.len(),
        forall|i: int|
            0 <= i < shares.len() ==> share_of(n, activity, horizon, i, dim, #[trigger] shares[i]),
        weight_sum(m, activity, horizon, dim, activity.len()) > 0real,
    ensures
        share_sum(m, activity, horizon, shares, count) * weight_sum(
            m,
            activity,
            horizon,
            dim,
            activity.len(),
        ) == weight_sum(m, activity, horizon, dim, count),
    decreases count,
{
    let whole = weight_sum(m, activity, horizon, dim, activity.len());
    if count == 0 {
        assert(0real * whole == 0real) by (nonlinear_arith);
    } else {
        let k = (count - 1) as nat;
        lemma_shares_add_up(n, m, activity, horizon, dim, shares, k);
        law_share_is_the_part_of_the_weights(
            n,
            m,
            activity,
            horizon,
            k as int,
            dim,
            shares[k as int],
        );
        let before = share_sum(m, activity, horizon, shares, k);
        let more = if active(activity[k as int], horizon) {
            m.num(shares[k as int])
        } else {
            0real
        };
        assert((before + more) * whole == before * whole + more * whole) by (nonlinear_arith);
        assert(0real * whole == 0real) by (nonlinear_arith);
    }
}

/// Law: in each dimension the shares of the active sources sum to one.
pub proof fn law_shares_sum_to_one<N: Numerics>(
    n: &N,
    m: Meaning,
    activity: Seq<SourceActivity>,
    horizon: i64,
    dim: int,
    shares: Seq<Scalar>,
)
    requires
        exact(n, m),
        shares.len() == activity.len(),
        forall|i: int|
            0 <= i < shares.len() ==> share_of(n, activity, horizon, i, dim, #[trigger] shares[i]),
        weight_sum(m, activity, horizon, dim, activity.len()) > 0real,
    ensures
        share_sum(m, activity, horizon, shares, activity.len()) == 1real,
{
    lemma_shares_add_up(n, m, activity, horizon, dim, shares, activity.len());
    lemma_whole_share(
        share_sum(m, activity, horizon, shares, activity.len()),
        weight_sum(m, activity, horizon, dim, activity.len()),
    );
}

/// Law: a weight is one over its variance, so that the surer source weighs more.
pub proof fn law_weight_is_one_over_the_variance<N: Numerics>(
    n: &N,
    m: Meaning,
    variance: Scalar,
    inverse: Scalar,
)
    requires
        exact(n, m),
        weight_of(n, variance, inverse),
    ensures
        variance.positive() ==> m.num(inverse) * m.num(variance) == 1real && m.num(inverse)
            > 0real,
        !variance.positive() ==> m.num(inverse) == 0real,
{
    if variance.positive() {
        let (i, v) = (m.num(inverse), m.num(variance));
        assert(i > 0real) by (nonlinear_arith)
            requires
                i * v == 1real,
                v > 0real,
        ;
    }
}

/// A step of the blend on a lone source that is fused in every dimension: it was at `previous`,
/// and is at `pose` now.
pub struct LoneStep<M> {
    pub before: Memory<M>,
    pub m: Measurement,
    pub ts_ns: i64,
    pub after: Memory<M>,
    pub previous: Pose,
    pub pose: Pose,
}

/// See [`LoneStep`].
pub open spec fn lone_step<N: Numerics>(n: &N, s: LoneStep<N::Matrix>) -> bool {
    &&& blended(n, s.before, s.m, s.ts_ns, s.after)
    &&& s.before.activity.len() == 1
    &&& s.m.source == 0
    &&& forall|dim: int| 0 <= dim < 6 ==> (#[trigger] s.m.pose_variance.at(dim)).positive()
    &&& s.m.delta is Some
    &&& moved_since(n, s.previous, s.pose, s.m.delta->0)
}

/// Law: a lone source passes through exactly. Each step moves the estimate by the source's own
/// motion, in the body's axes, whatever the heading.
pub proof fn law_lone_source_passes_through<N: Numerics>(
    n: &N,
    m: Meaning,
    s: LoneStep<N::Matrix>,
)
    requires
        exact(n, m),
        lone_step(n, s),
    ensures
        m.is_after(s.pose, s.previous, s.m.delta->0),
        m.is_after(pose_of(s.after.x), pose_of(s.before.x), s.m.delta->0),
{
    let increment = s.m.delta->0;
    law_source_motion_leads_to_its_pose(n, m, s.previous, s.pose, increment);
    let horizon = span(SOURCE_ACTIVITY_TIMEOUT_NS, s.ts_ns);
    let activity = s.after.activity;
    let shares = choose|shares: Six|
        {
            &&& #[trigger] shares_of(n, activity, horizon, 0, shares)
            &&& moved_by_share(n, s.before.x, increment, shares, s.after.x)
        };
    assert forall|dim: int| 0 <= dim < 6 implies m.num(#[trigger] shares.at(dim)) == 1real by {
        assert(share_of(n, activity, horizon, 0, dim, shares.at(dim)));
        assert(s.m.pose_variance.at(dim).positive());
        let inverse = activity[0].inverse_variance.at(dim);
        law_weight_is_one_over_the_variance(n, m, s.m.pose_variance.at(dim), inverse);
        reveal_with_fuel(weight_sum, 2);
        assert(weight_sum(m, activity, horizon, dim, 1) == 0real + m.num(inverse));
        law_share_is_the_part_of_the_weights(n, m, activity, horizon, 0, dim, shares.at(dim));
        lemma_whole_share(m.num(shares.at(dim)), m.num(inverse));
    }
    law_whole_share_moves_by_the_increment(
        n,
        m,
        s.before.x.position,
        s.before.x.q,
        increment,
        shares,
        pose_of(s.after.x),
    );
}

/// The step with this number follows the one before it.
pub open spec fn lone_next<N: Numerics>(n: &N, steps: Seq<LoneStep<N::Matrix>>, k: int) -> bool {
    &&& lone_step(n, steps[k])
    &&& k > 0 ==> steps[k].before.x == steps[k - 1].after.x && steps[k].previous == steps[k
        - 1].pose
}

/// Law: from the first to the last message of a lone source, the fused motion is the source's
/// own. Where the source's last pose has a point that its first pose has at `u`, the fused pose
/// has the point that the fused pose of the start has at `u`.
pub proof fn law_lone_source_drives_the_whole_motion<N: Numerics>(
    n: &N,
    m: Meaning,
    steps: Seq<LoneStep<N::Matrix>>,
    k: int,
    u: Vec3,
    v: Vec3,
)
    requires
        exact(n, m),
        forall|i: int| 0 <= i < steps.len() ==> #[trigger] lone_next(n, steps, i),
        0 <= k < steps.len(),
        m.moves(steps[k].pose, v) == m.moves(steps[0].previous, u),
    ensures
        m.moves(pose_of(steps[k].after.x), v) == m.moves(pose_of(steps[0].before.x), u),
    decreases k,
{
    assert(lone_next(n, steps, k));
    let s = steps[k];
    law_lone_source_passes_through(n, m, s);
    let inner = m.moves(s.m.delta->0, v);
    assert(m.moves(s.pose, v) == m.moves(s.previous, inner));
    assert(m.moves(pose_of(s.after.x), v) == m.moves(pose_of(s.before.x), inner));
    if k > 0 {
        law_lone_source_drives_the_whole_motion(n, m, steps, k - 1, u, inner);
    } else {
        lemma_moves_apart(m, s.previous, inner, u);
    }
}

/// A pose does not take two points to one.
pub proof fn lemma_moves_apart(m: Meaning, p: Pose, a: Vec3, b: Vec3)
    requires
        turns_lawful(m),
        m.moves(p, a) == m.moves(p, b),
    ensures
        a == b,
{
    let t = m.vec(p.translation);
    let (x, y) = (m.turn(p.rotation, a), m.turn(p.rotation, b));
    assert(x.plus(t).minus(t) == x);
    assert(y.plus(t).minus(t) == y);
    assert(m.turn(p.rotation.back(), x) == a);
    assert(m.turn(p.rotation.back(), y) == b);
}

/// Law: the mount takes the IMU's axes to the body's. What a sample says about the body, turned
/// back through the mount, is what the IMU read; and it is how the pose of the mount moves the
/// arrow that the IMU read.
pub proof fn law_sample_is_turned_into_the_body<N: Numerics>(
    m: Meaning,
    core: FusionCore<N>,
    imu: ImuSample,
    base_from_imu: Pose,
    s: BodySample,
    p: Vec3,
)
    requires
        exact(&core.numerics, m),
        sampled(core, imu, base_from_imu, s),
    ensures
        m.turn(base_from_imu.rotation.back(), m.vec(s.gyro)) == m.vec(imu.angular_velocity),
        m.turn(base_from_imu.rotation.back(), m.vec(s.turned)) == m.vec(imu.linear_acceleration),
        m.moves(base_from_imu, p.plus(m.vec(imu.angular_velocity))) == m.moves(
            base_from_imu,
            p,
        ).plus(m.vec(s.gyro)),
        m.moves(base_from_imu, p.plus(m.vec(imu.linear_acceleration))) == m.moves(
            base_from_imu,
            p,
        ).plus(m.vec(s.turned)),
{
    let q = base_from_imu.rotation;
    let (g, a) = (m.vec(imu.angular_velocity), m.vec(imu.linear_acceleration));
    assert(m.turns_sums(q, p, g));
    assert(m.turns_sums(q, p, a));
}

/// Law: without the lever arm's terms it is the body's own acceleration. A point of a body that
/// turns at `gyro` and `alpha` and whose origin accelerates by the outcome, feels at the IMU's
/// place just what the IMU felt.
pub proof fn law_lever_terms_make_the_imus_acceleration<N: Numerics>(
    n: &N,
    m: Meaning,
    accel: Vector3,
    gyro: Vector3,
    alpha: Vector3,
    lever: Vector3,
    r: Vector3,
)
    requires
        exact(n, m),
        without_lever_of(n, accel, gyro, alpha, lever, r),
    ensures
        m.vec(accel) == m.vec(r).plus(m.vec(alpha).cross(m.vec(lever))).plus(
            m.vec(gyro).cross(m.vec(gyro).cross(m.vec(lever))),
        ),
{
    let t = choose|t: LeverTrace| #[trigger]
        without_lever_by(n, accel, gyro, alpha, lever, t, r);
}

/// Law: what a sample puts into the filter is the motion of the body's origin. A body that moves
/// so, with the IMU at its place on it, has the IMU read just the sample.
pub proof fn law_sample_is_what_the_imu_would_read<N: Numerics>(
    m: Meaning,
    core: FusionCore<N>,
    imu: ImuSample,
    base_from_imu: Pose,
    s: BodySample,
)
    requires
        exact(&core.numerics, m),
        sampled(core, imu, base_from_imu, s),
    ensures
        ({
            let lever = m.vec(base_from_imu.translation);
            let (gyro, alpha) = (m.vec(s.gyro), m.vec(s.alpha));
            m.turn(
                base_from_imu.rotation.back(),
                m.vec(s.accel).plus(alpha.cross(lever)).plus(gyro.cross(gyro.cross(lever))),
            ) == m.vec(imu.linear_acceleration)
        }),
{
    law_sample_is_turned_into_the_body(m, core, imu, base_from_imu, s, Vec3::zero());
    law_lever_terms_make_the_imus_acceleration(
        &core.numerics,
        m,
        s.turned,
        s.gyro,
        s.alpha,
        base_from_imu.translation,
        s.accel,
    );
}

/// Law: a span in seconds is its nanoseconds over a thousand million.
pub proof fn law_seconds_are_nanoseconds<N: Numerics>(n: &N, m: Meaning, dt_ns: i64, r: Scalar)
    requires
        exact(n, m),
        seconds_of(n, dt_ns, r),
    ensures
        m.num(r) * 1000000000real == dt_ns as real,
{
}

/// Law: the angular acceleration goes to what two readings say. What is left of the way decays as
/// the exponential of the interval over a fortieth of a second.
pub proof fn law_smoothing_decays_towards_the_readings<N: Numerics>(
    n: &N,
    m: Meaning,
    alpha: Vector3,
    gyro: Vector3,
    last_gyro: Vector3,
    dt_ns: i64,
    r: Vector3,
)
    requires
        exact(n, m),
        dt_ns > 0,
        smoothed_of(n, alpha, gyro, last_gyro, dt_ns, r),
    ensures
        exists|dt: real, raw: Vec3, exponent: real|
            {
                &&& dt * 1000000000real == dt_ns as real
                &&& #[trigger] raw.scaled(dt) == m.vec(gyro).minus(m.vec(last_gyro))
                &&& exponent * (25real / 1000real) == 0real - dt
                &&& m.vec(r).minus(raw) == m.vec(alpha).minus(raw).scaled(
                    #[trigger] (m.exponential)(exponent),
                )
            },
{
    let t = choose|t: AlphaTrace| #[trigger]
        smoothed_by(n, alpha, gyro, last_gyro, dt_ns, t, r);
    law_seconds_are_nanoseconds(n, m, dt_ns, t.dt);
    let dt = m.num(t.dt);
    let raw = m.vec(t.raw);
    let exponent = m.num(t.exponent);
    let decay = m.num(t.decay);
    assert(dt != 0real);
    assert(raw.scaled(dt) == m.vec(gyro).minus(m.vec(last_gyro)));
    assert(decay == (m.exponential)(exponent));
    assert(m.num(t.blend) == 1real - decay);
    let a = m.vec(alpha);
    lemma_smoothed(a.x, raw.x, decay, m.num(t.blend));
    lemma_smoothed(a.y, raw.y, decay, m.num(t.blend));
    lemma_smoothed(a.z, raw.z, decay, m.num(t.blend));
    assert(m.vec(r).minus(raw) == a.minus(raw).scaled(decay));
}

proof fn lemma_smoothed(a: real, raw: real, decay: real, blend: real)
    requires
        blend == 1real - decay,
    ensures
        a + (raw - a) * blend - raw == (a - raw) * decay,
{
    assert((raw - a) * blend == (raw - a) - (raw - a) * decay) by (nonlinear_arith)
        requires
            blend == 1real - decay,
    ;
    assert((raw - a) * decay + (a - raw) * decay == 0real) by (nonlinear_arith);
}

/// The direction up, this long.
pub open spec fn up(length: real) -> Vec3 {
    Vec3 { x: 0real, y: 0real, z: length }
}

/// Law: leveling finds which way is up and what the sensor reads at rest. Over all samples the
/// biases and the readings agree: turned by the level, the mean acceleration less its bias is
/// gravity's counterforce straight up, the mean rate is the bias, and where a smallest rotation
/// exists the mean acceleration itself points up.
pub proof fn law_leveling_leaves_gravity_alone<N: Numerics>(
    n: &N,
    m: Meaning,
    accel_sum: Vector3,
    gyro_sum: Vector3,
    samples: i64,
    gravity: Scalar,
    r: Leveling,
)
    requires
        exact(n, m),
        samples > 0,
        leveled_of(n, accel_sum, gyro_sum, samples, gravity, r),
    ensures
        m.vec(r.gyro_bias).scaled(samples as real) == m.vec(gyro_sum),
        exists|mean: Vec3|
            {
                &&& #[trigger] mean.scaled(samples as real) == m.vec(accel_sum)
                &&& m.turn(r.world_from_body, mean.minus(m.vec(r.accel_bias))) == up(
                    m.num(gravity),
                )
                &&& r.world_from_body != Quaternion::identity() ==> m.aligned(
                    m.turn(r.world_from_body, mean),
                    up(1real),
                )
            },
{
    let t = choose|t: LevelTrace| #[trigger]
        leveled_by(n, accel_sum, gyro_sum, samples, gravity, t, r);
    let mean = m.vec(t.mean_accel);
    let q = r.world_from_body;
    assert(mean.scaled(samples as real) == m.vec(accel_sum));
    let g = m.vec(Vector3::spec_along(2, gravity));
    assert(g == up(m.num(gravity)));
    assert(mean.minus(m.vec(r.accel_bias)) == m.vec(t.weight)) by {
        assert(mean.minus(mean.minus(m.vec(t.weight))) == m.vec(t.weight));
    }
    assert(m.turn(q, m.turn(q.back(), g)) == g);
    assert(m.vec(Vector3::spec_along(2, Scalar::one())) == up(1real));
}

/// Law: dead reckoning is the motion that the IMU felt. The reading is its bias and, in the body's
/// axes, the change of velocity over the interval and gravity's counterforce; the way is the mean
/// of the velocities before and after, times the interval; and the attitude is turned about the
/// body's own axis by the rate less its bias, times the interval.
pub proof fn law_reckoning_is_the_motion_that_was_felt<N: Numerics>(
    n: &N,
    m: Meaning,
    before: StateView,
    bias: ImuBias,
    gravity: Scalar,
    gyro: Vector3,
    accel: Vector3,
    dt: Scalar,
    t: MotionTrace,
    after: StateView,
)
    requires
        exact(n, m),
        freed_of(n, before.q, bias, gravity, gyro, accel, t),
        reckoned_of(n, before, dt, t, after),
    ensures
        exists|a: Vec3|
            {
                &&& #[trigger] m.turn(before.q.back(), a.plus(up(m.num(gravity)))).plus(
                    m.vec(bias.accel),
                ) == m.vec(accel)
                &&& m.vec(after.velocity) == m.vec(before.velocity).plus(a.scaled(m.num(dt)))
            },
        m.vec(after.position).minus(m.vec(before.position)).scaled(2real) == m.vec(
            before.velocity,
        ).plus(m.vec(after.velocity)).scaled(m.num(dt)),
        m.turns_from(
            before.q,
            after.q,
            m.vec(gyro).minus(m.vec(bias.gyro)).scaled(m.num(dt)),
        ),
        after.biases == before.biases,
{
    let q = before.q;
    let a = m.vec(t.world_accel);
    let g = m.vec(Vector3::spec_along(2, gravity.opposite()));
    assert(g == up(0real - m.num(gravity)));
    let free = m.vec(t.free_accel);
    assert(m.vec(t.force) == m.turn(q, free));
    assert(a.plus(up(m.num(gravity))) == m.turn(q, free));
    assert(m.turn(q.back(), m.turn(q, free)) == free);
    assert(free.plus(m.vec(bias.accel)) == m.vec(accel));
    assert(m.turn(q.back(), a.plus(up(m.num(gravity)))).plus(m.vec(bias.accel)) == m.vec(accel));
    assert(m.vec(after.velocity) == m.vec(before.velocity).plus(a.scaled(m.num(dt))));
    let v = m.vec(before.velocity);
    let k = m.num(dt);
    let h = m.num(Scalar { bits: HALF_BITS });
    lemma_way(v.x, a.x, k, h);
    lemma_way(v.y, a.y, k, h);
    lemma_way(v.z, a.z, k, h);
    let step = m.vec(t.step);
    assert(m.vec(after.position).minus(m.vec(before.position)) == step);
    law_turn_is_about_the_bodys_axis(n, m, q, t.spin, after.q);
    assert(m.vec(t.spin) == m.vec(gyro).minus(m.vec(bias.gyro)).scaled(k));
}

proof fn lemma_way(v: real, a: real, k: real, h: real)
    requires
        h == 1real / 2real,
    ensures
        (v * k + a * h * k * k) * 2real == (v + (v + a * k)) * k,
{
    let w = a * k;
    assert(a * h * k == w * h) by (nonlinear_arith)
        requires
            w == a * k,
    ;
    let u = w * k;
    assert(w * h * k == u * h) by (nonlinear_arith)
        requires
            u == w * k,
    ;
    assert(u * h * 2real == u) by (nonlinear_arith)
        requires
            h == 1real / 2real,
    ;
    assert((v + (v + w)) * k == v * k * 2real + w * k) by (nonlinear_arith);
}

/// Law: the velocity as the body sees it, turned by the attitude, is the velocity in the world.
pub proof fn law_body_velocity_turns_into_the_worlds<N: Numerics>(
    n: &N,
    m: Meaning,
    q: Quaternion,
    velocity: Vector3,
    r: BodyMotion,
    v: Vec3,
)
    requires
        exact(n, m),
        body_motion_of(n, q, velocity, r),
    ensures
        m.turn(q, m.vec(r.velocity)) == m.vec(velocity),
        m.turn(q, m.on(r.body_from_world, v)) == v,
{
    assert(m.on(r.body_from_world, m.vec(velocity)) == m.turn(q.back(), m.vec(velocity)));
    assert(m.on(r.body_from_world, v) == m.turn(q.back(), v));
}

/// Rows and columns exchanged, a matrix has the products the other way round.
pub proof fn lemma_flipped(m: Meaning, a: Matrix3, u: Vec3, v: Vec3)
    ensures
        u.dot(m.on(a, v)) == m.on(a.flipped(), u).dot(v),
{
    let (p, q, r) = (m.vec(a.first), m.vec(a.second), m.vec(a.third));
    lemma_flipped_reals(p.x, p.y, p.z, q.x, q.y, q.z, r.x, r.y, r.z, u, v);
}

proof fn lemma_spread(k: real, a: real, b: real, c: real)
    ensures
        k * (a + b + c) == k * a + k * b + k * c,
{
    assert(k * (a + b + c) == k * a + k * b + k * c) by (nonlinear_arith);
}

proof fn lemma_swap(a: real, b: real, c: real)
    ensures
        a * (b * c) == (b * a) * c,
{
    assert(a * (b * c) == (b * a) * c) by (nonlinear_arith);
}

proof fn lemma_gather(a: real, b: real, c: real, k: real)
    ensures
        (a + b + c) * k == a * k + b * k + c * k,
{
    assert((a + b + c) * k == a * k + b * k + c * k) by (nonlinear_arith);
}

proof fn lemma_flipped_reals(
    a: real,
    b: real,
    c: real,
    d: real,
    e: real,
    f: real,
    g: real,
    h: real,
    i: real,
    u: Vec3,
    v: Vec3,
)
    ensures
        u.x * (a * v.x + b * v.y + c * v.z) + u.y * (d * v.x + e * v.y + f * v.z) + u.z * (g * v.x
            + h * v.y + i * v.z) == (a * u.x + d * u.y + g * u.z) * v.x + (b * u.x + e * u.y + h
            * u.z) * v.y + (c * u.x + f * u.y + i * u.z) * v.z,
{
    lemma_spread(u.x, a * v.x, b * v.y, c * v.z);
    lemma_spread(u.y, d * v.x, e * v.y, f * v.z);
    lemma_spread(u.z, g * v.x, h * v.y, i * v.z);
    lemma_gather(a * u.x, d * u.y, g * u.z, v.x);
    lemma_gather(b * u.x, e * u.y, h * u.z, v.y);
    lemma_gather(c * u.x, f * u.y, i * u.z, v.z);
    lemma_swap(u.x, a, v.x);
    lemma_swap(u.x, b, v.y);
    lemma_swap(u.x, c, v.z);
    lemma_swap(u.y, d, v.x);
    lemma_swap(u.y, e, v.y);
    lemma_swap(u.y, f, v.z);
    lemma_swap(u.z, g, v.x);
    lemma_swap(u.z, h, v.y);
    lemma_swap(u.z, i, v.z);
}

/// Law: a covariance in the body's axes says of the body's directions what the covariance in the
/// world's axes says of where the attitude turns them.
pub proof fn law_covariance_turns_into_the_body<N: Numerics>(
    n: &N,
    m: Meaning,
    q: Quaternion,
    velocity: Vector3,
    motion: BodyMotion,
    world: Matrix3,
    body: Matrix3,
    u: Vec3,
    v: Vec3,
)
    requires
        exact(n, m),
        body_motion_of(n, q, velocity, motion),
        into_body_of(n, motion.body_from_world, world, body),
    ensures
        u.dot(m.on(body, v)) == m.turn(q, u).dot(m.on(world, m.turn(q, v))),
{
    let b = motion.body_from_world;
    let half = choose|half: Matrix3|
        {
            &&& call_ensures(N::matrix3_times, (n, &b, &world), half)
            &&& #[trigger] call_ensures(N::matrix3_times, (n, &half, &b.flipped()), body)
        };
    assert(m.on(body, v) == m.on(half, m.on(b.flipped(), v)));
    assert(m.on(half, m.on(b.flipped(), v)) == m.on(b, m.on(world, m.on(b.flipped(), v))));
    lemma_flipped_is_turn(n, m, q, b, u);
    lemma_flipped_is_turn(n, m, q, b, v);
    let inner = m.on(world, m.turn(q, v));
    assert(m.on(b, inner) == m.turn(q.back(), inner));
    assert(m.turn(q, m.turn(q.back(), inner)) == inner);
    assert(m.turns_keeping_angles(q, u, m.turn(q.back(), inner)));
}

/// Rows and columns exchanged, the matrix of a rotation turns back.
proof fn lemma_flipped_is_turn<N: Numerics>(
    n: &N,
    m: Meaning,
    q: Quaternion,
    b: Matrix3,
    v: Vec3,
)
    requires
        exact(n, m),
        call_ensures(N::rotation_matrix, (n, &q.back()), b),
    ensures
        m.on(b.flipped(), v) == m.turn(q, v),
{
    let x = m.on(b.flipped(), v);
    let y = m.turn(q, v);
    let (e, f, g) = (
        Vec3 { x: 1real, y: 0real, z: 0real },
        Vec3 { x: 0real, y: 1real, z: 0real },
        Vec3 { x: 0real, y: 0real, z: 1real },
    );
    assert forall|w: Vec3| x.dot(w) == #[trigger] y.dot(w) by {
        lemma_flipped(m, b, v, w);
        assert(m.on(b, w) == m.turn(q.back(), w));
        assert(m.turns_keeping_angles(q, v, m.turn(q.back(), w)));
        assert(m.turn(q, m.turn(q.back(), w)) == w);
    }
    assert(x.dot(e) == y.dot(e));
    assert(x.dot(f) == y.dot(f));
    assert(x.dot(g) == y.dot(g));
}

} // verus!
