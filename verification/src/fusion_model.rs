//! What the fusion keeps, and what each input does to it.

use std::collections::VecDeque;

use vstd::prelude::*;

use crate::eskf::{initialized, square_of, FilterView, ImuBias, Noise, StateView};
use crate::estimator::{pose_of, stepped, Constants, Estimator, EventKind, Measurement, Memory};
use crate::estimator::{Snapshot, SourceActivity, StepRules};
use crate::formulas::{body_motion_of, into_body_of, leveled_of, nanoseconds_of, period_of};
use crate::formulas::{smoothed_of, without_lever_of, BodyMotion, Leveling};
use crate::fusion_config::{resolved, OdometryFusionConfig};
use crate::numerics::Numerics;
use crate::ordered_map::{holds, FrameKey};
use crate::scalar::Scalar;
use crate::stamp::{counted, span};
use crate::types::{ImuSample, Matrix3, Matrix6, OdometryEstimate, Pose, Quaternion, Six, Vector3};

verus! {

/// One filter step and the estimate it left behind.
pub struct Event<N: Numerics> {
    pub ts_ns: i64,
    pub kind: EventKind,
    pub left: Snapshot<N>,
}

/// What an [`Event`] holds.
pub struct EventView<M> {
    pub ts_ns: i64,
    pub kind: EventKind,
    pub left: Memory<M>,
}

impl<N: Numerics> View for Event<N> {
    type V = EventView<N::Matrix>;

    open spec fn view(&self) -> EventView<N::Matrix> {
        EventView { ts_ns: self.ts_ns, kind: self.kind, left: self.left@ }
    }
}

/// What the fusion has seen and done so far.
#[derive(Clone, Copy, Debug, PartialEq, Eq, Structural)]
pub struct FusionCounters {
    pub imu_samples: u64,
    pub measurements: u64,
    /// Updates that the filter did not take.
    pub gated: u64,
    /// Late arrivals that were put in their place.
    pub replayed: u64,
    /// Arrivals older than everything kept.
    pub too_late: u64,
}

impl FusionCounters {
    pub open spec fn spec_none() -> FusionCounters {
        FusionCounters { imu_samples: 0, measurements: 0, gated: 0, replayed: 0, too_late: 0 }
    }
}

/// What was kept of each event.
pub open spec fn kept<N: Numerics>(events: Seq<Event<N>>) -> Seq<EventView<N::Matrix>> {
    events.map_values(|e: Event<N>| e@)
}

/// The stamps never go back.
pub open spec fn in_stamp_order<M>(events: Seq<EventView<M>>) -> bool {
    forall|i: int, j: int|
        #![trigger events[i], events[j]]
        0 <= i <= j < events.len() ==> events[i].ts_ns <= events[j].ts_ns
}

/// Event `index` left what its step makes of what the event before it left.
pub open spec fn linked<N: Numerics>(
    n: &N,
    c: Constants,
    rules: StepRules,
    events: Seq<EventView<N::Matrix>>,
    index: int,
) -> bool {
    exists|gated: int| #[trigger]
        stepped(
            n,
            c,
            rules,
            events[index - 1].left,
            events[index].ts_ns,
            events[index].kind,
            events[index].left,
            gated,
        )
}

/// Every event but the first is [`linked`].
pub open spec fn chained<N: Numerics>(
    n: &N,
    c: Constants,
    rules: StepRules,
    events: Seq<EventView<N::Matrix>>,
) -> bool {
    forall|i: int| 0 < i < events.len() ==> #[trigger] linked(n, c, rules, events, i)
}

/// From event `from` on, each event's step was taken on what the one before left, and `gated`
/// updates in all were not taken.
pub open spec fn replayed_from<N: Numerics>(
    n: &N,
    c: Constants,
    rules: StepRules,
    events: Seq<EventView<N::Matrix>>,
    from: int,
    gated: int,
) -> bool
    decreases events.len(),
{
    if events.len() == 0 || events.len() <= from {
        gated == 0
    } else {
        exists|last: int|
            {
                &&& #[trigger] stepped(
                    n,
                    c,
                    rules,
                    events[events.len() - 2].left,
                    events.last().ts_ns,
                    events.last().kind,
                    events.last().left,
                    last,
                )
                &&& replayed_from(n, c, rules, events.drop_last(), from, gated - last)
            }
    }
}

/// `slot` is where an event of this stamp goes: behind all that are not newer.
pub open spec fn slot_for<M>(events: Seq<EventView<M>>, ts_ns: i64, slot: int) -> bool {
    &&& 0 <= slot <= events.len()
    &&& forall|i: int| 0 <= i < slot ==> (#[trigger] events[i]).ts_ns <= ts_ns
    &&& forall|i: int| slot <= i < events.len() ==> (#[trigger] events[i]).ts_ns > ts_ns
}

/// Stamps and kinds, in order.
pub open spec fn log_of<M>(events: Seq<EventView<M>>) -> Seq<(i64, EventKind)> {
    events.map_values(|e: EventView<M>| (e.ts_ns, e.kind))
}

/// `after` is `before` with a new event at `slot`: what stands before the slot is as it was, and
/// everything from the slot on has been done anew.
pub open spec fn replayed_with<N: Numerics>(
    n: &N,
    c: Constants,
    rules: StepRules,
    before: Seq<EventView<N::Matrix>>,
    ts_ns: i64,
    kind: EventKind,
    slot: int,
    after: Seq<EventView<N::Matrix>>,
    gated: int,
) -> bool {
    &&& slot_for(before, ts_ns, slot)
    &&& log_of(after) == log_of(before).insert(slot, (ts_ns, kind))
    &&& after.take(slot) == before.take(slot)
    &&& replayed_from(n, c, rules, after, slot, gated)
}

/// `after` is `before` without the events that nothing within the horizon needs any more: of those
/// that are not after the horizon the last one stays, as what an arrival at the horizon is
/// replayed from.
pub open spec fn trimmed<M>(
    before: Seq<EventView<M>>,
    horizon: i64,
    after: Seq<EventView<M>>,
) -> bool {
    exists|gone: int|
        {
            &&& 0 <= gone < before.len()
            &&& after == #[trigger] before.skip(gone)
            &&& forall|i: int| 0 < i <= gone ==> (#[trigger] before[i]).ts_ns <= horizon
            &&& gone + 1 == before.len() || before[gone + 1].ts_ns > horizon
        }
}

/// The arrival is late, and older than the horizon or than everything kept.
pub open spec fn too_late<M>(events: Seq<EventView<M>>, horizon: i64, ts_ns: i64) -> bool {
    ts_ns < events.last().ts_ns && (ts_ns < horizon || ts_ns < events[0].ts_ns)
}

/// A counter after `more` events, which stays at its largest value rather than overflow.
pub open spec fn counted_by(count: u64, more: int) -> u64 {
    if count + more < u64::MAX {
        (count + more) as u64
    } else {
        u64::MAX
    }
}

/// Fuses odometry sources told apart by the transform they report, and an IMU.
pub struct FusionCore<N: Numerics> {
    pub numerics: N,
    pub config: OdometryFusionConfig,
    pub live: Estimator<N>,
    /// Taken from the configured IMU the samples actually come from.
    pub imu_noise: Noise,
    pub initialized: bool,
    pub init_gyro_sum: Vector3,
    pub init_accel_sum: Vector3,
    pub init_samples: u64,
    pub events: VecDeque<Event<N>>,
    pub lever_gyro: Vector3,
    pub lever_gyro_ns: i64,
    pub lever_alpha: Vector3,
    /// Per source its last raw pose. A delta belongs to the message stream, so replay never
    /// redoes it.
    pub previous_source_pose: Vec<Option<Pose>>,
    pub last_publish_ns: i64,
    /// How far back from the newest event a late one can reach.
    pub reach_ns: i64,
    pub counters: FusionCounters,
}

/// The core has seen nothing yet.
pub open spec fn unstarted<N: Numerics>(core: FusionCore<N>) -> bool {
    &&& !core.initialized
    &&& core.imu_noise == Noise::spec_zeros()
    &&& core.init_gyro_sum == Vector3::zeros()
    &&& core.init_accel_sum == Vector3::zeros()
    &&& core.init_samples == 0
    &&& core.live.filter@.noise.len() == 0
    &&& core.live.filter@.gravity == (Scalar { bits: 0x4023_9d01_3a92_a305 })
    &&& core.live.filter@.x == (StateView {
        position: Vector3::zeros(),
        velocity: Vector3::zeros(),
        q: Quaternion::identity(),
        biases: Seq::empty(),
    })
    &&& square_of(&core.numerics, 9, Seq::empty(), true, core.live.filter@.p_cov)
    &&& core.live.anchors@.len() == 0
    &&& core.live.activity@.len() == 0
    &&& core.live.last_imu_ns == 0
    &&& core.live.last_gyro == Vector3::zeros()
    &&& core.lever_gyro == Vector3::zeros()
    &&& core.lever_gyro_ns == 0
    &&& core.lever_alpha == Vector3::zeros()
    &&& forall|i: int| 0 <= i < core.sources() ==> core.previous_source_pose@[i] is None
    &&& core.last_publish_ns == 0
    &&& core.counters == FusionCounters::spec_none()
}

/// The samples that the leveling averages: at least one.
pub open spec fn samples_wanted(configured: i64) -> int {
    if configured < 1 {
        1
    } else {
        configured as int
    }
}

/// A core in which an arrival was taken up: put where its stamp belongs, with what follows done
/// anew and what is beyond the buffer's reach forgotten. One that is itself beyond the reach, or
/// older than the seed, only counts as too late.
pub open spec fn taken_up<N: Numerics>(
    before: FusionCore<N>,
    ts_ns: i64,
    kind: EventKind,
    after: FusionCore<N>,
) -> bool {
    if too_late(before.kept(), before.horizon(), ts_ns) {
        after == (FusionCore {
            counters: FusionCounters {
                too_late: counted(before.counters.too_late),
                ..before.counters
            },
            ..before
        })
    } else {
        exists|slot: int, full: Seq<EventView<N::Matrix>>, gated: int| #[trigger]
            put_in(before, ts_ns, kind, slot, full, gated, after)
    }
}

/// See [`taken_up`]: the arrival went to `slot`, which made the buffer `full`.
pub open spec fn put_in<N: Numerics>(
    before: FusionCore<N>,
    ts_ns: i64,
    kind: EventKind,
    slot: int,
    full: Seq<EventView<N::Matrix>>,
    gated: int,
    after: FusionCore<N>,
) -> bool {
    let c = before.live.constants();
    &&& replayed_with(
        &before.numerics,
        c,
        before.config.rules(),
        before.kept(),
        ts_ns,
        kind,
        slot,
        full,
        gated,
    )
    &&& trimmed(full, span(before.reach_ns, full.last().ts_ns), after.kept())
    &&& after.live.constants() == c
    &&& after.live.memory() == full.last().left
    &&& after == (FusionCore {
        live: after.live,
        events: after.events,
        counters: FusionCounters {
            gated: counted_by(before.counters.gated, gated),
            replayed: if slot < before.kept().len() {
                counted(before.counters.replayed)
            } else {
                before.counters.replayed
            },
            ..before.counters
        },
        ..before
    })
}

/// A core newly set up at `ts_ns`: the filter stands at the origin with the given attitude and
/// biases, no source is anchored or active, and the seed is the one event.
pub open spec fn started<N: Numerics>(
    before: FusionCore<N>,
    ts_ns: i64,
    world_from_body: Quaternion,
    bias: ImuBias,
    after: FusionCore<N>,
) -> bool {
    let c = Constants { noise: seq![before.imu_noise], gravity: before.config.gravity };
    &&& initialized(
        &before.numerics,
        FilterView { noise: c.noise, gravity: c.gravity, ..before.live.filter@ },
        world_from_body,
        seq![bias],
        before.config.initial_stds,
        after.live.filter@,
    )
    &&& after.live.anchors@ == Seq::new(before.sources() as nat, |i: int| None::<Pose>)
    &&& after.live.activity@ == Seq::new(
        before.sources() as nat,
        |i: int| SourceActivity::spec_none(),
    )
    &&& after.live.last_imu_ns == before.live.last_imu_ns
    &&& after.live.last_gyro == before.live.last_gyro
    &&& after.kept() == before.kept().push(
        EventView { ts_ns, kind: EventKind::Seed, left: after.live.memory() },
    )
    &&& after == (FusionCore {
        live: after.live,
        initialized: true,
        last_publish_ns: ts_ns,
        events: after.events,
        ..before
    })
}

/// An IMU sample in the body's axes.
pub struct BodySample {
    pub gyro: Vector3,
    /// Turned into the body's axes, but still at the IMU.
    pub turned: Vector3,
    /// The angular acceleration, low-passed.
    pub alpha: Vector3,
    /// Without what the lever arm adds.
    pub accel: Vector3,
}

/// `s` is the sample as the body has it: both vectors are turned through the mount, and the lever
/// arm's centripetal and tangential terms are mount kinematics, not body motion. The angular
/// acceleration follows the gyro as long as time goes forward.
pub open spec fn sampled<N: Numerics>(
    core: FusionCore<N>,
    imu: ImuSample,
    base_from_imu: Pose,
    s: BodySample,
) -> bool {
    let n = &core.numerics;
    let dt_ns = span(core.lever_gyro_ns, imu.timestamp_ns);
    &&& call_ensures(N::rotate, (n, &base_from_imu.rotation, &imu.angular_velocity), s.gyro)
    &&& call_ensures(N::rotate, (n, &base_from_imu.rotation, &imu.linear_acceleration), s.turned)
    &&& if core.lever_gyro_ns != 0 && dt_ns > 0 {
        smoothed_of(n, core.lever_alpha, s.gyro, core.lever_gyro, dt_ns, s.alpha)
    } else {
        s.alpha == core.lever_alpha
    }
    &&& without_lever_of(n, s.turned, s.gyro, s.alpha, base_from_imu.translation, s.accel)
}

/// A sample during calibration: one that turns too fast starts the averaging over, any other adds
/// to it, and with enough of them the filter is leveled and started.
pub open spec fn calibrated<N: Numerics>(
    before: FusionCore<N>,
    ts_ns: i64,
    s: BodySample,
    rate: Scalar,
    gyro_sum: Vector3,
    accel_sum: Vector3,
    level: Leveling,
    after: FusionCore<N>,
) -> bool {
    let n = &before.numerics;
    &&& call_ensures(N::norm, (n, &s.gyro), rate)
    &&& if before.config.imu_init_gyro_limit.below(rate) {
        after == (FusionCore {
            init_gyro_sum: Vector3::zeros(),
            init_accel_sum: Vector3::zeros(),
            init_samples: 0,
            ..before
        })
    } else {
        let samples = (before.init_samples + 1) as u64;
        let summed = FusionCore {
            init_gyro_sum: gyro_sum,
            init_accel_sum: accel_sum,
            init_samples: samples,
            ..before
        };
        &&& call_ensures(N::plus, (n, &before.init_gyro_sum, &s.gyro), gyro_sum)
        &&& call_ensures(N::plus, (n, &before.init_accel_sum, &s.accel), accel_sum)
        &&& if samples >= samples_wanted(before.config.imu_init_samples) {
            &&& leveled_of(
                n,
                accel_sum,
                gyro_sum,
                samples as i64,
                before.config.gravity,
                level,
            )
            &&& started(
                summed,
                ts_ns,
                level.world_from_body,
                ImuBias { gyro: level.gyro_bias, accel: level.accel_bias },
                after,
            )
        } else {
            after == summed
        }
    }
}

/// The frame is that of a configured IMU.
pub open spec fn imu_known<N: Numerics>(core: FusionCore<N>, frame_id: Seq<char>) -> bool {
    holds(core.config.imus.entries@, (frame_id, Seq::empty()))
}

/// The core with what it remembers of the last IMU sample.
pub open spec fn with_sample<N: Numerics>(
    before: FusionCore<N>,
    noise: Noise,
    ts_ns: i64,
    s: BodySample,
) -> FusionCore<N> {
    FusionCore {
        imu_noise: noise,
        lever_gyro: s.gyro,
        lever_gyro_ns: ts_ns,
        lever_alpha: s.alpha,
        ..before
    }
}

/// What a sample of the configured IMU at `index` does: it calibrates the filter until that has
/// started, and is a step of it from then on.
pub open spec fn imu_taken_by<N: Numerics>(
    before: FusionCore<N>,
    imu: ImuSample,
    base_from_imu: Pose,
    index: int,
    s: BodySample,
    after: FusionCore<N>,
) -> bool {
    let ts_ns = imu.timestamp_ns;
    let entry = before.config.imus.entries@[index];
    let ready = with_sample(before, entry.1.spec_noise(), ts_ns, s);
    &&& 0 <= index < before.config.imus.entries@.len()
    &&& entry.0@ == imu.frame_id@
    &&& sampled(before, imu, base_from_imu, s)
    &&& if before.initialized {
        exists|taken: FusionCore<N>|
            {
                &&& #[trigger] taken_up(
                    ready,
                    ts_ns,
                    EventKind::Imu { gyro: s.gyro, accel: s.accel },
                    taken,
                )
                &&& after == (FusionCore {
                    counters: FusionCounters {
                        imu_samples: counted(taken.counters.imu_samples),
                        ..taken.counters
                    },
                    ..taken
                })
            }
    } else {
        exists|rate: Scalar, gyro_sum: Vector3, accel_sum: Vector3, level: Leveling| #[trigger]
            calibrated(ready, ts_ns, s, rate, gyro_sum, accel_sum, level, after)
    }
}

/// See [`imu_taken_by`]. A sample from a frame that is not configured changes nothing.
pub open spec fn imu_taken<N: Numerics>(
    before: FusionCore<N>,
    imu: ImuSample,
    base_from_imu: Pose,
    after: FusionCore<N>,
) -> bool {
    if imu_known(before, imu.frame_id@) {
        exists|index: int, s: BodySample| #[trigger]
            imu_taken_by(before, imu, base_from_imu, index, s, after)
    } else {
        after == before
    }
}

/// The transform is that of the configured source at `index`.
pub open spec fn source_at<N: Numerics>(
    core: FusionCore<N>,
    msg: OdometryEstimate,
    index: int,
) -> bool {
    &&& 0 <= index < core.sources()
    &&& core.config.sources.entries@[index].0.parts() == (msg.frame_id@, msg.child_frame_id@)
}

/// The transform is that of a configured source.
pub open spec fn source_known<N: Numerics>(core: FusionCore<N>, msg: OdometryEstimate) -> bool {
    exists|index: int| #[trigger] source_at(core, msg, index)
}

/// The variances that six dimensions are fused with.
pub open spec fn resolved_six(configured: Six, from_message: Matrix6) -> Six {
    Six {
        linear: Vector3 {
            x: resolved(configured.linear.x, from_message.at(0, 0)),
            y: resolved(configured.linear.y, from_message.at(1, 1)),
            z: resolved(configured.linear.z, from_message.at(2, 2)),
        },
        angular: Vector3 {
            x: resolved(configured.angular.x, from_message.at(3, 3)),
            y: resolved(configured.angular.y, from_message.at(4, 4)),
            z: resolved(configured.angular.z, from_message.at(5, 5)),
        },
    }
}

/// The source's pose is fused in some dimension, and the message has one. A pose that is not
/// finite is left out: one such number reaching the estimate would never leave it.
pub open spec fn pose_counts(variance: Six, pose: Pose) -> bool {
    pose.finite() && exists|dim: int| 0 <= dim < 6 && (#[trigger] variance.at(dim)).positive()
}

/// `delta` is the source's motion since its previous pose.
pub open spec fn moved_since<N: Numerics>(n: &N, previous: Pose, pose: Pose, delta: Pose) -> bool {
    exists|undone: Pose|
        {
            &&& call_ensures(N::inverse, (n, &previous), undone)
            &&& #[trigger] call_ensures(N::compose, (n, &undone, &pose), delta)
        }
}

/// `m` is what the message from the source at `index` says: of its pose only the motion since the
/// previous one.
pub open spec fn measured<N: Numerics>(
    core: FusionCore<N>,
    msg: OdometryEstimate,
    index: int,
    m: Measurement,
) -> bool {
    let settings = core.config.sources.entries@[index].1;
    let previous = core.previous_source_pose@[index];
    &&& m.source == index
    &&& m.pose_variance == resolved_six(settings.pose_variances, msg.pose_covariance)
    &&& m.twist_variance == resolved_six(settings.twist_variances, msg.twist_covariance)
    &&& m.linear == msg.twist.linear
    &&& m.angular == msg.twist.angular
    &&& if pose_counts(m.pose_variance, msg.pose) && previous is Some {
        m.delta is Some && moved_since(&core.numerics, previous->0, msg.pose, m.delta->0)
    } else {
        m.delta is None
    }
}

/// What a message of a configured source does once the fusion has started: it becomes a step, and
/// its pose, if it counts, the one to measure the next motion from.
pub open spec fn source_fused_by<N: Numerics>(
    before: FusionCore<N>,
    msg: OdometryEstimate,
    index: int,
    m: Measurement,
    poses: Vec<Option<Pose>>,
    after: FusionCore<N>,
) -> bool {
    &&& source_at(before, msg, index)
    &&& measured(before, msg, index, m)
    &&& poses@ == if pose_counts(m.pose_variance, msg.pose) {
        before.previous_source_pose@.update(index, Some(msg.pose))
    } else {
        before.previous_source_pose@
    }
    &&& exists|taken: FusionCore<N>|
        {
            &&& #[trigger] taken_up(
                FusionCore { previous_source_pose: poses, ..before },
                msg.timestamp_ns,
                EventKind::Measurement(m),
                taken,
            )
            &&& after == (FusionCore {
                counters: FusionCounters {
                    measurements: counted(taken.counters.measurements),
                    ..taken.counters
                },
                ..taken
            })
        }
}

/// See [`source_fused_by`].
pub open spec fn source_fused<N: Numerics>(
    before: FusionCore<N>,
    msg: OdometryEstimate,
    after: FusionCore<N>,
) -> bool {
    exists|index: int, m: Measurement, poses: Vec<Option<Pose>>| #[trigger]
        source_fused_by(before, msg, index, m, poses, after)
}

/// What an odometry message does. One of a transform that is not configured is ignored. Without an
/// IMU the first one starts the fusion, level and at the origin; with one, messages from before
/// the start are ignored.
pub open spec fn source_taken<N: Numerics>(
    before: FusionCore<N>,
    msg: OdometryEstimate,
    after: FusionCore<N>,
) -> bool {
    if !source_known(before, msg) {
        after == before
    } else if before.initialized {
        source_fused(before, msg, after)
    } else if before.config.use_imu {
        after == before
    } else {
        exists|ready: FusionCore<N>|
            {
                &&& #[trigger] started(
                    before,
                    msg.timestamp_ns,
                    Quaternion::identity(),
                    ImuBias { gyro: Vector3::zeros(), accel: Vector3::zeros() },
                    ready,
                )
                &&& source_fused(ready, msg, after)
            }
    }
}

/// The estimate may be given out: every number of it is finite, and it is within the cap, which
/// zero or less disables. `distance` is how far from the origin it is.
pub open spec fn publishable(x: StateView, distance: Scalar, max_position_m: Scalar) -> bool {
    &&& x.position.finite() && x.velocity.finite() && x.q.finite()
    &&& max_position_m.at_most(Scalar::zero()) || distance.at_most(max_position_m)
}

/// The place in the error state of a dimension of the pose.
pub open spec fn pose_place(dim: int) -> int {
    if dim < 3 {
        dim
    } else {
        dim + 3
    }
}

/// `value` is an entry of a covariance.
pub open spec fn entry_of<N: Numerics>(
    n: &N,
    covariance: N::Matrix,
    row: int,
    col: int,
    value: Scalar,
) -> bool {
    call_ensures(N::entry, (n, &covariance, row as usize, col as usize), value)
}

/// The covariance of position and attitude.
pub open spec fn pose_part<N: Numerics>(n: &N, covariance: N::Matrix, pose: Matrix6) -> bool {
    forall|row: int, col: int|
        0 <= row < 6 && 0 <= col < 6 ==> entry_of(
            n,
            covariance,
            pose_place(row),
            pose_place(col),
            #[trigger] pose.at(row, col),
        )
}

/// The covariance of the velocity in the world's axes.
pub open spec fn velocity_part<N: Numerics>(n: &N, covariance: N::Matrix, m: Matrix3) -> bool {
    forall|row: int, col: int|
        0 <= row < 3 && 0 <= col < 3 ==> entry_of(
            n,
            covariance,
            3 + row,
            3 + col,
            #[trigger] m.row(row).axis(col),
        )
}

/// The covariance of a body-frame twist: that of the body's velocity, and for the angular rate
/// that of the gyro bias; nothing across the two.
pub open spec fn twist_part<N: Numerics>(
    n: &N,
    covariance: N::Matrix,
    velocity: Matrix3,
    twist: Matrix6,
) -> bool {
    forall|row: int, col: int|
        0 <= row < 6 && 0 <= col < 6 ==> {
            let value = #[trigger] twist.at(row, col);
            if row < 3 && col < 3 {
                value == velocity.row(row).axis(col)
            } else if row >= 3 && col >= 3 {
                entry_of(n, covariance, 6 + row, 6 + col, value)
            } else {
                value == Scalar::zero()
            }
        }
}

/// `out` is the estimate that an event left, as it is given out.
pub open spec fn given_out_by<N: Numerics>(
    core: FusionCore<N>,
    latest: EventView<N::Matrix>,
    motion: BodyMotion,
    velocity_world: Matrix3,
    velocity_body: Matrix3,
    out: OdometryEstimate,
) -> bool {
    let n = &core.numerics;
    let x = latest.left.x;
    &&& out.timestamp_ns == latest.ts_ns
    &&& out.frame_id@ == core.config.odom_frame@
    &&& out.child_frame_id@ == core.config.base_frame@
    &&& out.pose == pose_of(x)
    &&& body_motion_of(n, x.q, x.velocity, motion)
    &&& out.twist.linear == motion.velocity
    &&& call_ensures(N::minus, (n, &latest.left.last_gyro, &x.biases[0].gyro), out.twist.angular)
    &&& pose_part(n, latest.left.p_cov, out.pose_covariance)
    &&& velocity_part(n, latest.left.p_cov, velocity_world)
    &&& into_body_of(n, motion.body_from_world, velocity_world, velocity_body)
    &&& twist_part(n, latest.left.p_cov, velocity_body, out.twist_covariance)
}

/// See [`given_out_by`].
pub open spec fn given_out<N: Numerics>(
    core: FusionCore<N>,
    latest: EventView<N::Matrix>,
    out: OdometryEstimate,
) -> bool {
    exists|motion: BodyMotion, velocity_world: Matrix3, velocity_body: Matrix3| #[trigger]
        given_out_by(core, latest, motion, velocity_world, velocity_body, out)
}

/// What publishing does: nothing before a period has passed since the last one that was due. One
/// that is due gives the latest estimate out, unless that is not publishable.
pub open spec fn published_by<N: Numerics>(
    before: FusionCore<N>,
    period_ns: i64,
    distance: Scalar,
    after: FusionCore<N>,
    r: Option<OdometryEstimate>,
) -> bool {
    let n = &before.numerics;
    let latest = before.kept().last();
    &&& period_of(n, before.config.publish_rate, period_ns)
    &&& if span(before.last_publish_ns, latest.ts_ns) < period_ns {
        after == before && r is None
    } else {
        &&& call_ensures(N::norm, (n, &latest.left.x.position), distance)
        &&& after == (FusionCore { last_publish_ns: latest.ts_ns, ..before })
        &&& r is Some == publishable(latest.left.x, distance, before.config.max_position_m)
        &&& r is Some ==> given_out(before, latest, r->0)
    }
}

/// See [`published_by`]. Before the start there is nothing to give out.
pub open spec fn published<N: Numerics>(
    before: FusionCore<N>,
    after: FusionCore<N>,
    r: Option<OdometryEstimate>,
) -> bool {
    if before.initialized {
        exists|period_ns: i64, distance: Scalar| #[trigger]
            published_by(before, period_ns, distance, after, r)
    } else {
        after == before && r is None
    }
}

impl OdometryFusionConfig {
    pub open spec fn rules(&self) -> StepRules {
        StepRules {
            use_imu: self.use_imu,
            mahalanobis_gate: self.mahalanobis_gate,
            constraint_twist_variances: self.constraint_twist_variances,
        }
    }
}

impl<N: Numerics> FusionCore<N> {
    /// See [`kept`].
    pub open spec fn kept(&self) -> Seq<EventView<N::Matrix>> {
        kept(self.events@)
    }

    /// The oldest stamp that a late arrival may have.
    pub open spec fn horizon(&self) -> i64 {
        span(self.reach_ns, self.kept().last().ts_ns)
    }

    /// The number of configured sources.
    pub open spec fn sources(&self) -> int {
        self.config.sources.entries@.len() as int
    }

    /// There are events; they stand in the order of their stamps, and each left what its step
    /// makes of what the one before it left.
    pub open spec fn buffer_sound(&self) -> bool {
        &&& self.kept().len() > 0
        &&& in_stamp_order(self.kept())
        &&& chained(&self.numerics, self.live.constants(), self.config.rules(), self.kept())
        &&& forall|i: int|
            0 <= i < self.kept().len() ==> (#[trigger] self.kept()[i]).left.fits(self.sources())
                && self.kept()[i].kind.within(self.sources())
        &&& self.live.filter.noise@.len() == 1
    }

    /// Before the start there are no events. From then on there is always one; they stand in the
    /// order of their stamps, each left what its step makes of what the one before it left, and
    /// the live estimate is what the last one left. The first one is the seed or not after the
    /// horizon, so that whatever arrives within the reach can be replayed from it.
    pub open spec fn well_formed(&self) -> bool {
        &&& self.config.well_formed()
        &&& self.previous_source_pose@.len() == self.sources()
        &&& nanoseconds_of(&self.numerics, self.config.replay_buffer_seconds, self.reach_ns)
        &&& if self.initialized {
            &&& self.buffer_sound()
            &&& self.live.memory() == self.kept().last().left
            &&& self.kept()[0].kind is Seed || self.kept()[0].ts_ns <= self.horizon()
        } else {
            &&& self.kept().len() == 0
            &&& self.init_samples < samples_wanted(self.config.imu_init_samples)
        }
    }
}

} // verus!
