//! What holds of the fusion as a whole.

use vstd::prelude::*;

use crate::eskf::{gate_passes, innovation_by, measurement_of, spec_dim, updated, updated_by};
use crate::eskf::{FilterView, InnovationTrace, MeasuredMatrices, RowView, UpdateTrace};
use crate::estimator::{active, share_of, totalled, EventKind, Measurement, SourceActivity};
use crate::formulas::{period_of, BodyMotion};
use crate::fusion_model::{given_out_by, imu_known, imu_taken, log_of, measured, published};
use crate::fusion_model::{published_by, put_in, source_fused_by, source_known, source_taken};
use crate::fusion_model::{taken_up, too_late, EventView, FusionCore, FusionCounters};
use crate::numerics::Numerics;
use crate::scalar::Scalar;
use crate::stamp::{counted, span};
use crate::types::{ImuSample, Matrix3, OdometryEstimate, Pose};

verus! {

/// Law: a message of a transform that is not configured changes nothing, and never starts the
/// fusion.
pub proof fn law_unconfigured_source_is_ignored<N: Numerics>(
    before: FusionCore<N>,
    msg: OdometryEstimate,
    after: FusionCore<N>,
)
    requires
        !source_known(before, msg),
        source_taken(before, msg, after),
    ensures
        after == before,
{
}

/// Law: a sample of an IMU that is not configured changes nothing, and never starts the fusion.
pub proof fn law_unconfigured_imu_is_ignored<N: Numerics>(
    before: FusionCore<N>,
    imu: ImuSample,
    base_from_imu: Pose,
    after: FusionCore<N>,
)
    requires
        !imu_known(before, imu.frame_id@),
        imu_taken(before, imu, base_from_imu, after),
    ensures
        after == before,
{
}

/// Law: with an IMU, messages from before the start are ignored.
pub proof fn law_sources_wait_for_the_imu<N: Numerics>(
    before: FusionCore<N>,
    msg: OdometryEstimate,
    after: FusionCore<N>,
)
    requires
        !before.initialized,
        before.config.use_imu,
        source_taken(before, msg, after),
    ensures
        after == before,
{
}

/// Law: an arrival that is too late changes nothing but the count of such arrivals.
pub proof fn law_too_late_only_counts<N: Numerics>(
    before: FusionCore<N>,
    ts_ns: i64,
    kind: EventKind,
    after: FusionCore<N>,
)
    requires
        too_late(before.kept(), before.horizon(), ts_ns),
        taken_up(before, ts_ns, kind, after),
    ensures
        after == (FusionCore {
            counters: FusionCounters {
                too_late: counted(before.counters.too_late),
                ..before.counters
            },
            ..before
        }),
{
}

/// Law: what was kept from before an arrival's stamp is not done again. Every event up to its
/// slot that is still kept left what it had left before.
pub proof fn law_replay_starts_at_the_slot<N: Numerics>(
    before: FusionCore<N>,
    ts_ns: i64,
    kind: EventKind,
    slot: int,
    full: Seq<EventView<N::Matrix>>,
    gated: int,
    after: FusionCore<N>,
    i: int,
)
    requires
        put_in(before, ts_ns, kind, slot, full, gated, after),
        0 <= i < slot,
    ensures
        full[i] == before.kept()[i],
        before.kept()[i].ts_ns <= ts_ns,
        full[slot].ts_ns == ts_ns && full[slot].kind == kind,
{
    assert(full.take(slot)[i] == before.kept().take(slot)[i]);
    assert(log_of(full)[slot] == (ts_ns, kind));
    assert(full.len() == log_of(full).len());
}

/// Law: a pose that is not finite never becomes a motion, nor the pose to measure the next motion
/// from.
pub proof fn law_non_finite_pose_is_left_out<N: Numerics>(
    before: FusionCore<N>,
    msg: OdometryEstimate,
    index: int,
    m: Measurement,
    poses: Vec<Option<Pose>>,
    after: FusionCore<N>,
)
    requires
        !msg.pose.finite(),
        source_fused_by(before, msg, index, m, poses, after),
    ensures
        m.delta is None,
        poses@ == before.previous_source_pose@,
{
}

/// Law: a source contributes only its motion. Two messages of one source that agree on everything
/// but the pose make the same measurement if the motion is the same, wherever the source's own
/// frame has drifted to.
pub proof fn law_only_the_delta_counts<N: Numerics>(
    a: FusionCore<N>,
    b: FusionCore<N>,
    x: OdometryEstimate,
    y: OdometryEstimate,
    index: int,
    m: Measurement,
    k: Measurement,
)
    requires
        a.config == b.config,
        x.pose_covariance == y.pose_covariance,
        x.twist == y.twist,
        x.twist_covariance == y.twist_covariance,
        measured(a, x, index, m),
        measured(b, y, index, k),
        m.delta == k.delta,
    ensures
        m == k,
{
}

/// Law: a refused update changes nothing.
pub proof fn law_refused_update_changes_nothing<N: Numerics>(
    n: &N,
    before: FilterView<N::Matrix>,
    rows: Seq<RowView>,
    gate: Scalar,
    after: FilterView<N::Matrix>,
)
    requires
        updated(n, before, rows, gate, after, false),
    ensures
        after == before,
{
}

/// Law: a gate of zero disables rejection. Whether the rows are taken depends only on whether
/// their innovation covariance can be inverted.
pub proof fn law_zero_gate_rejects_nothing<N: Numerics>(
    n: &N,
    before: FilterView<N::Matrix>,
    rows: Seq<RowView>,
    after: FilterView<N::Matrix>,
    accepted: bool,
)
    requires
        updated(n, before, rows, Scalar::zero(), after, accepted),
    ensures
        exists|
            m: MeasuredMatrices<N::Matrix>,
            t: InnovationTrace<N::Matrix>,
            inverse: Option<N::Matrix>,
        |
            {
                &&& measurement_of(n, rows, spec_dim(before.x.biases.len() as int) as usize, m)
                &&& #[trigger] innovation_by(n, before.p_cov, m, t, inverse)
                &&& accepted == inverse is Some
            },
{
    let t = choose|t: UpdateTrace<N::Matrix>| #[trigger]
        updated_by(n, before, rows, Scalar::zero(), t, after, accepted);
    assert(innovation_by(n, before.p_cov, t.m, t.innovation, t.inverse));
}

/// Law: a distance that is not a number is never within a gate.
pub proof fn law_nan_distance_is_refused(gate: Scalar, distance: Scalar, limit: Scalar)
    requires
        gate.positive(),
        distance.nan(),
    ensures
        !gate_passes(gate, distance, limit),
{
}

/// Law: a lone source's share is its weight over its own weight.
pub proof fn law_lone_source_has_the_whole_share<N: Numerics>(
    n: &N,
    activity: Seq<SourceActivity>,
    horizon: i64,
    dim: int,
    share: Scalar,
)
    requires
        activity.len() == 1,
        active(activity[0], horizon),
        share_of(n, activity, horizon, 0, dim, share),
    ensures
        ({
            let weight = activity[0].inverse_variance.at(dim);
            exists|total: Scalar|
                {
                    &&& #[trigger] call_ensures(N::sum, (n, Scalar::zero(), weight), total)
                    &&& if total.positive() {
                        call_ensures(N::ratio, (n, weight, total), share)
                    } else {
                        share == Scalar::zero()
                    }
                }
        }),
{
    let weight = activity[0].inverse_variance.at(dim);
    let total = choose|total: Scalar|
        {
            &&& #[trigger] totalled(n, activity, horizon, dim, activity.len(), total)
            &&& if total.positive() {
                call_ensures(N::ratio, (n, activity[0].inverse_variance.at(dim), total), share)
            } else {
                share == Scalar::zero()
            }
        };
    reveal_with_fuel(totalled, 2);
    assert(totalled(n, activity, horizon, dim, 1, total));
    let partial = choose|partial: Scalar|
        {
            &&& totalled(n, activity, horizon, dim, 0, partial)
            &&& #[trigger] call_ensures(N::sum, (n, partial, weight), total)
        };
    assert(partial == Scalar::zero());
}

/// Law: what is given out is due and finite. It carries the latest stamp, a full period after the
/// last one that was due, in the odometry frame and of the body frame.
pub proof fn law_output_is_due_and_finite<N: Numerics>(
    before: FusionCore<N>,
    after: FusionCore<N>,
    out: OdometryEstimate,
)
    requires
        before.initialized,
        published(before, after, Some(out)),
    ensures
        out.pose.finite(),
        out.timestamp_ns == before.kept().last().ts_ns,
        out.frame_id@ == before.config.odom_frame@,
        out.child_frame_id@ == before.config.base_frame@,
        exists|period_ns: i64| #[trigger]
            period_of(&before.numerics, before.config.publish_rate, period_ns) && span(
                before.last_publish_ns,
                out.timestamp_ns,
            ) >= period_ns,
        after.last_publish_ns == out.timestamp_ns,
{
    let (period_ns, distance) = choose|period_ns: i64, distance: Scalar| #[trigger]
        published_by(before, period_ns, distance, after, Some(out));
    let latest = before.kept().last();
    let (m, w, v) = choose|
        motion: BodyMotion,
        velocity_world: Matrix3,
        velocity_body: Matrix3,
    | #[trigger]
        given_out_by(before, latest, motion, velocity_world, velocity_body, out);
    assert(period_of(&before.numerics, before.config.publish_rate, period_ns));
}

/// Law: an arrival within the reach and not before the seed is never too late. A late one is too
/// late if and only if it is further back from the newest event than the buffer reaches, or older
/// than the seed where that is still kept.
pub proof fn law_within_reach_is_never_too_late<N: Numerics>(core: FusionCore<N>, ts_ns: i64)
    requires
        core.well_formed(),
        core.initialized,
    ensures
        too_late(core.kept(), core.horizon(), ts_ns) <==> {
            &&& ts_ns < core.kept().last().ts_ns
            &&& ts_ns < core.horizon() || (core.kept()[0].kind is Seed && ts_ns
                < core.kept()[0].ts_ns)
        },
{
}

/// Law: the buffer holds no more than it needs. After an arrival was taken up, the events but the
/// first are within the reach, and the last one is always there.
pub proof fn law_kept_events_are_within_reach<N: Numerics>(
    before: FusionCore<N>,
    ts_ns: i64,
    kind: EventKind,
    slot: int,
    full: Seq<EventView<N::Matrix>>,
    gated: int,
    after: FusionCore<N>,
    i: int,
)
    requires
        after.well_formed(),
        after.initialized,
        put_in(before, ts_ns, kind, slot, full, gated, after),
        0 < i < after.kept().len(),
    ensures
        after.kept().last() == full.last(),
        after.kept()[i].ts_ns > after.horizon(),
{
    let horizon = span(before.reach_ns, full.last().ts_ns);
    let gone = choose|gone: int|
        {
            &&& 0 <= gone < full.len()
            &&& after.kept() == #[trigger] full.skip(gone)
            &&& forall|i: int| 0 < i <= gone ==> (#[trigger] full[i]).ts_ns <= horizon
            &&& gone + 1 == full.len() || full[gone + 1].ts_ns > horizon
        };
    assert(after.kept()[1] == full[gone + 1]);
    assert(after.kept()[1].ts_ns <= after.kept()[i].ts_ns);
}

} // verus!
