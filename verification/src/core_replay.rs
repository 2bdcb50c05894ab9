//! Replaying a recording through the two halves together is deterministic.

use vstd::prelude::*;

use crate::cuvslam_model::untouched;
use crate::depth_replay::{all_repeatable, one_byte_order};
use crate::dim_slam_core::{fused_in, fusion_part, sample_taken, visual_odom_frame, visual_part};
use crate::dim_slam_core::{DimSlamCore, DimSlamCoreConfig};
use crate::fusion_config::SourceConfig;
use crate::fusion_model::{imu_taken, published, source_taken, unstarted};
use crate::fusion_replay::{alike, law_imu_sample_repeats, law_new_cores_are_alike};
use crate::fusion_replay::{law_output_repeats, law_source_message_repeats, same_entries};
use crate::fusion_replay::{same_estimate, same_sample};
use crate::numerics::Numerics;
use crate::ordered_map::{inserted, slot, FrameKey};
use crate::repeatability::repeatable;
use crate::rig::names;
use crate::source_key::SourceKey;
use crate::track_runs::answers_repeat;
use crate::types::{looked_up, ImuSample, OdometryEstimate, Pose, Six, TfLookup};
use crate::visual_replay::{awaited, law_new_visual_cores_are_alike, lemma_numerics_last};
use crate::visual_replay::{lemma_one_key_slot, lemma_seeing_to_repeats, same_outcome, same_sight};
use crate::visual_replay::{seen_to, visual_alike, Sight, SightOutcome};

verus! {

/// Two cores that have seen and done the same.
pub open spec fn core_alike<N: Numerics>(a: DimSlamCore<N>, b: DimSlamCore<N>) -> bool {
    &&& visual_alike(a.visual_odometry, b.visual_odometry)
    &&& alike(a.fusion, b.fusion)
    &&& a.output_frame_id@ == b.output_frame_id@
    &&& a.use_imu == b.use_imu
}

/// Law: an IMU sample is mounted and taken the same way every time.
pub proof fn law_core_sample_repeats<N: Numerics, T: TfLookup>(
    a: DimSlamCore<N>,
    b: DimSlamCore<N>,
    sample: ImuSample,
    again: ImuSample,
    tf: &T,
    next_a: DimSlamCore<N>,
    next_b: DimSlamCore<N>,
)
    requires
        repeatable(&a.fusion.numerics),
        answers_repeat(tf),
        core_alike(a, b),
        a.well_formed(),
        same_sample(sample, again),
        sample_taken(a, sample, tf, next_a),
        sample_taken(b, again, tf, next_b),
    ensures
        core_alike(next_a, next_b),
{
    if a.use_imu {
        let body = a.output_frame_id@;
        let pa = choose|pose: Option<Pose>|
            {
                &&& #[trigger] looked_up(tf, body, sample.frame_id@, pose)
                &&& match pose {
                    None => next_a == a,
                    Some(mount) => {
                        &&& imu_taken(a.fusion, sample, mount, next_a.fusion)
                        &&& next_a == (DimSlamCore { fusion: next_a.fusion, ..a })
                    },
                }
            };
        let pb = choose|pose: Option<Pose>|
            {
                &&& #[trigger] looked_up(tf, body, again.frame_id@, pose)
                &&& match pose {
                    None => next_b == b,
                    Some(mount) => {
                        &&& imu_taken(b.fusion, again, mount, next_b.fusion)
                        &&& next_b == (DimSlamCore { fusion: next_b.fusion, ..b })
                    },
                }
            };
        assert(pa == pb);
        if let Some(mount) = pa {
            law_imu_sample_repeats(
                a.fusion,
                b.fusion,
                sample,
                again,
                mount,
                next_a.fusion,
                next_b.fusion,
            );
        }
    }
}

/// Two configurations that say the same.
pub open spec fn same_core_config(a: DimSlamCoreConfig, b: DimSlamCoreConfig) -> bool {
    &&& a.camera_mode@ == b.camera_mode@
    &&& names(a.camera_frames@) == names(b.camera_frames@)
    &&& a.rectified == b.rectified
    &&& a.use_gpu == b.use_gpu
    &&& a.rig_frame_id@ == b.rig_frame_id@
    &&& a.map_frame_id@ == b.map_frame_id@
    &&& a.covariance_gate_translation_std == b.covariance_gate_translation_std
    &&& a.speed_gate_max_linear == b.speed_gate_max_linear
    &&& a.speed_gate_max_angular == b.speed_gate_max_angular
    &&& a.max_skew_ms == b.max_skew_ms
    &&& same_entries(
        a.frame_id_to_depth_units_per_meter.entries@,
        b.frame_id_to_depth_units_per_meter.entries@,
    )
    &&& a.depth_cloud_min_range == b.depth_cloud_min_range
    &&& a.depth_cloud_max_range == b.depth_cloud_max_range
    &&& a.depth_cloud_decimation == b.depth_cloud_decimation
    &&& a.visual_odom_pose_variances == b.visual_odom_pose_variances
    &&& a.odom_frame_id@ == b.odom_frame_id@
    &&& a.output_frame_id@ == b.output_frame_id@
    &&& a.publish_rate == b.publish_rate
    &&& a.replay_buffer_seconds == b.replay_buffer_seconds
    &&& a.mahalanobis_gate == b.mahalanobis_gate
    &&& a.max_position_m == b.max_position_m
    &&& same_entries(a.imus.entries@, b.imus.entries@)
    &&& a.initial_gravity_estimate == b.initial_gravity_estimate
    &&& a.imu_init_samples == b.imu_init_samples
    &&& a.imu_init_gyro_limit == b.imu_init_gyro_limit
    &&& a.initial_stds == b.initial_stds
    &&& same_entries(a.odom_sources.entries@, b.odom_sources.entries@)
    &&& a.per_dimension_error_variance == b.per_dimension_error_variance
}

/// Putting the same under the same key leaves the same.
proof fn lemma_same_inserts<K: FrameKey, V>(
    a: Seq<(K, V)>,
    b: Seq<(K, V)>,
    ka: K,
    kb: K,
    value: V,
    x: Seq<(K, V)>,
    y: Seq<(K, V)>,
)
    requires
        same_entries(a, b),
        ka.parts() == kb.parts(),
        inserted(a, ka, value, x),
        inserted(b, kb, value, y),
    ensures
        same_entries(x, y),
{
    let key = ka.parts();
    let i = choose|i: int| #[trigger]
        slot(a, ka.parts(), i) && x == if i < a.len() && a[i].0.parts() == ka.parts() {
            a.update(i, (a[i].0, value))
        } else {
            a.insert(i, (ka, value))
        };
    let j = choose|i: int| #[trigger]
        slot(b, kb.parts(), i) && y == if i < b.len() && b[i].0.parts() == kb.parts() {
            b.update(i, (b[i].0, value))
        } else {
            b.insert(i, (kb, value))
        };
    lemma_one_key_slot(a, b, key, i, j);
    let replaces = i < a.len() && a[i].0.parts() == key;
    assert forall|k: int|
        #![trigger x[k]]
        #![trigger y[k]]
        0 <= k < x.len() implies x[k].0.parts() == y[k].0.parts() && x[k].1 == y[k].1 by {
        let old = if !replaces && k > i {
            k - 1
        } else {
            k
        };
        if k != i {
            assert(x[k] == a[old]);
            assert(y[k] == b[old]);
        } else if replaces {
            assert(x[k] == (a[i].0, value));
            assert(y[k] == (b[i].0, value));
        }
    }
}

/// A new core: its halves are configured from its configuration, and have seen nothing.
pub open spec fn newly_made<N: Numerics>(config: DimSlamCoreConfig, core: DimSlamCore<N>) -> bool {
    &&& core.well_formed()
    &&& visual_part(config, core.visual_odometry.config)
    &&& fusion_part(config, core.fusion.config)
    &&& untouched(core.visual_odometry)
    &&& unstarted(core.fusion)
    &&& core.output_frame_id@ == config.output_frame_id@
    &&& core.use_imu == (config.imus.entries@.len() > 0)
}

/// Law: every recording starts from the same. Two new cores with configurations that say the same
/// are alike.
pub proof fn law_newly_made_cores_are_alike<N: Numerics>(
    c: DimSlamCoreConfig,
    d: DimSlamCoreConfig,
    a: DimSlamCore<N>,
    b: DimSlamCore<N>,
)
    requires
        same_core_config(c, d),
        newly_made(c, a),
        newly_made(d, b),
        a.visual_odometry.numerics == b.visual_odometry.numerics,
        a.fusion.numerics == b.fusion.numerics,
        repeatable(&a.visual_odometry.numerics),
        repeatable(&a.fusion.numerics),
    ensures
        core_alike(a, b),
{
    let x = choose|key: SourceKey|
        {
            &&& key.parts() == (visual_odom_frame(), c.output_frame_id@)
            &&& #[trigger] inserted(
                c.odom_sources.entries@,
                key,
                SourceConfig {
                    pose_variances: c.visual_odom_pose_variances,
                    twist_variances: Six::zeros(),
                },
                a.fusion.config.sources.entries@,
            )
        };
    let y = choose|key: SourceKey|
        {
            &&& key.parts() == (visual_odom_frame(), d.output_frame_id@)
            &&& #[trigger] inserted(
                d.odom_sources.entries@,
                key,
                SourceConfig {
                    pose_variances: d.visual_odom_pose_variances,
                    twist_variances: Six::zeros(),
                },
                b.fusion.config.sources.entries@,
            )
        };
    lemma_same_inserts(
        c.odom_sources.entries@,
        d.odom_sources.entries@,
        x,
        y,
        SourceConfig {
            pose_variances: c.visual_odom_pose_variances,
            twist_variances: Six::zeros(),
        },
        a.fusion.config.sources.entries@,
        b.fusion.config.sources.entries@,
    );
    law_new_cores_are_alike(a.fusion, b.fusion);
    law_new_visual_cores_are_alike(a.visual_odometry, b.visual_odometry);
}

/// What comes in at the core.
pub enum CoreArrival {
    /// For the visual half.
    Seen(Sight),
    Sample(ImuSample),
    Source(OdometryEstimate),
    Publish,
}

/// Two arrivals that say the same.
pub open spec fn same_core_arrival(a: CoreArrival, b: CoreArrival) -> bool {
    match (a, b) {
        (CoreArrival::Seen(x), CoreArrival::Seen(y)) => same_sight(x, y),
        (CoreArrival::Sample(x), CoreArrival::Sample(y)) => same_sample(x, y),
        (CoreArrival::Source(x), CoreArrival::Source(y)) => same_estimate(x, y),
        (CoreArrival::Publish, CoreArrival::Publish) => true,
        _ => false,
    }
}

/// What the core does with an arrival, and what it gives out: the outcome's estimate is the fused
/// one. A tracked pose does not leave the core.
pub open spec fn core_handled<N: Numerics, T: TfLookup>(
    before: DimSlamCore<N>,
    arrival: CoreArrival,
    tf: &T,
    after: DimSlamCore<N>,
    out: SightOutcome,
) -> bool {
    match arrival {
        CoreArrival::Seen(sight) => {
            &&& awaited(before.visual_odometry, sight)
            &&& out.estimate is None
            &&& exists|seen: SightOutcome|
                {
                    &&& #[trigger] seen_to(
                        before.visual_odometry,
                        sight,
                        tf,
                        after.visual_odometry,
                        seen,
                    )
                    &&& fused_in(before.fusion, seen.estimate, after.fusion)
                    &&& out.step == seen.step && out.cloud == seen.cloud
                }
            &&& after == (DimSlamCore {
                visual_odometry: after.visual_odometry,
                fusion: after.fusion,
                ..before
            })
        },
        CoreArrival::Sample(sample) => {
            &&& sample_taken(before, sample, tf, after)
            &&& out.step is Idle && out.cloud is None && out.estimate is None
        },
        CoreArrival::Source(msg) => {
            &&& source_taken(before.fusion, msg, after.fusion)
            &&& after == (DimSlamCore { fusion: after.fusion, ..before })
            &&& out.step is Idle && out.cloud is None && out.estimate is None
        },
        CoreArrival::Publish => {
            &&& published(before.fusion, after.fusion, out.estimate)
            &&& after == (DimSlamCore { fusion: after.fusion, ..before })
            &&& out.step is Idle && out.cloud is None
        },
    }
}

/// One arrival is handled the same way every time.
proof fn lemma_core_handling_repeats<N: Numerics, T: TfLookup>(
    a: DimSlamCore<N>,
    b: DimSlamCore<N>,
    arrival: CoreArrival,
    again: CoreArrival,
    tf: &T,
    next_a: DimSlamCore<N>,
    next_b: DimSlamCore<N>,
    out_a: SightOutcome,
    out_b: SightOutcome,
)
    requires
        all_repeatable(&a.visual_odometry.numerics),
        repeatable(&a.fusion.numerics),
        answers_repeat(tf),
        one_byte_order(),
        core_alike(a, b),
        a.well_formed(),
        same_core_arrival(arrival, again),
        core_handled(a, arrival, tf, next_a, out_a),
        core_handled(b, again, tf, next_b, out_b),
    ensures
        core_alike(next_a, next_b),
        same_outcome(out_a, out_b),
        next_a.visual_odometry.numerics == a.visual_odometry.numerics,
        next_a.fusion.numerics == a.fusion.numerics,
{
    match (arrival, again) {
        (CoreArrival::Seen(x), CoreArrival::Seen(y)) => {
            let sa = choose|seen: SightOutcome|
                {
                    &&& #[trigger] seen_to(
                        a.visual_odometry,
                        x,
                        tf,
                        next_a.visual_odometry,
                        seen,
                    )
                    &&& fused_in(a.fusion, seen.estimate, next_a.fusion)
                    &&& out_a.step == seen.step && out_a.cloud == seen.cloud
                };
            let sb = choose|seen: SightOutcome|
                {
                    &&& #[trigger] seen_to(
                        b.visual_odometry,
                        y,
                        tf,
                        next_b.visual_odometry,
                        seen,
                    )
                    &&& fused_in(b.fusion, seen.estimate, next_b.fusion)
                    &&& out_b.step == seen.step && out_b.cloud == seen.cloud
                };
            lemma_seeing_to_repeats(
                a.visual_odometry,
                b.visual_odometry,
                x,
                y,
                tf,
                next_a.visual_odometry,
                next_b.visual_odometry,
                sa,
                sb,
            );
            lemma_numerics_last(a.visual_odometry, x, tf, next_a.visual_odometry, sa);
            if sa.estimate is Some {
                law_source_message_repeats(
                    a.fusion,
                    b.fusion,
                    sa.estimate->0,
                    sb.estimate->0,
                    next_a.fusion,
                    next_b.fusion,
                );
            }
        },
        (CoreArrival::Sample(x), CoreArrival::Sample(y)) => {
            law_core_sample_repeats(a, b, x, y, tf, next_a, next_b);
        },
        (CoreArrival::Source(x), CoreArrival::Source(y)) => {
            law_source_message_repeats(a.fusion, b.fusion, x, y, next_a.fusion, next_b.fusion);
        },
        _ => {
            law_output_repeats(
                a.fusion,
                b.fusion,
                next_a.fusion,
                next_b.fusion,
                out_a.estimate,
                out_b.estimate,
            );
        },
    }
}

/// A recording played through the core: the core before each arrival and after the last one, the
/// transforms as they were at each, and what was given out.
pub open spec fn core_played<N: Numerics, T: TfLookup>(
    cores: Seq<DimSlamCore<N>>,
    tfs: Seq<T>,
    arrivals: Seq<CoreArrival>,
    outs: Seq<SightOutcome>,
) -> bool {
    &&& cores.len() == arrivals.len() + 1
    &&& tfs.len() == arrivals.len()
    &&& outs.len() == arrivals.len()
    &&& forall|i: int| 0 <= i < cores.len() ==> (#[trigger] cores[i]).well_formed()
    &&& forall|i: int|
        0 <= i < arrivals.len() ==> core_handled(
            cores[i],
            #[trigger] arrivals[i],
            &tfs[i],
            cores[i + 1],
            outs[i],
        )
}

/// Law: replaying a recording is deterministic. Two new cores with configurations that say the
/// same and the same repeatable arithmetic, given the same recording, the same answers about
/// mounts and the same replies of the tracker, are alike at every point of it, ask for the same
/// and give out the same, bit for bit.
pub proof fn law_core_recording_repeats<N: Numerics, T: TfLookup>(
    c: DimSlamCoreConfig,
    d: DimSlamCoreConfig,
    a: Seq<DimSlamCore<N>>,
    b: Seq<DimSlamCore<N>>,
    tfs: Seq<T>,
    first: Seq<CoreArrival>,
    second: Seq<CoreArrival>,
    outs_a: Seq<SightOutcome>,
    outs_b: Seq<SightOutcome>,
    i: int,
)
    requires
        same_core_config(c, d),
        core_played(a, tfs, first, outs_a),
        core_played(b, tfs, second, outs_b),
        newly_made(c, a[0]),
        newly_made(d, b[0]),
        a[0].visual_odometry.numerics == b[0].visual_odometry.numerics,
        a[0].fusion.numerics == b[0].fusion.numerics,
        all_repeatable(&a[0].visual_odometry.numerics),
        repeatable(&a[0].fusion.numerics),
        one_byte_order(),
        forall|k: int| 0 <= k < tfs.len() ==> answers_repeat(&#[trigger] tfs[k]),
        forall|k: int|
            0 <= k < first.len() ==> same_core_arrival(#[trigger] first[k], second[k]),
        0 <= i <= first.len(),
    ensures
        core_alike(a[i], b[i]),
        a[i].visual_odometry.numerics == a[0].visual_odometry.numerics,
        a[i].fusion.numerics == a[0].fusion.numerics,
        forall|k: int| 0 <= k < i ==> same_outcome(#[trigger] outs_a[k], outs_b[k]),
    decreases i,
{
    if i == 0 {
        law_newly_made_cores_are_alike(c, d, a[0], b[0]);
    } else {
        let k = i - 1;
        law_core_recording_repeats(c, d, a, b, tfs, first, second, outs_a, outs_b, k);
        assert(same_core_arrival(first[k], second[k]));
        assert(core_handled(a[k], first[k], &tfs[k], a[i], outs_a[k]));
        assert(core_handled(b[k], second[k], &tfs[k], b[i], outs_b[k]));
        assert(a[k].well_formed());
        assert(answers_repeat(&tfs[k]));
        lemma_core_handling_repeats(
            a[k],
            b[k],
            first[k],
            second[k],
            &tfs[k],
            a[i],
            b[i],
            outs_a[k],
            outs_b[k],
        );
    }
}

} // verus!
