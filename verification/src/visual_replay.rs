//! Replaying a recording through the visual odometry is deterministic.
//!
//! The same inputs, the same answers about mounts and the same replies of the tracker give the same
//! steps and estimates, bit for bit, as long as the arithmetic does.

use vstd::prelude::*;

use crate::cuvslam_config::CuvslamOdometryConfig;
use crate::cuvslam_laws::lemma_unlisted_has_no_units;
use crate::cuvslam_model::{advanced, aligned, aligned_at, build_failed, built, calibration_of};
use crate::cuvslam_model::{camera_at, camera_info_taken, capped, cloud_given, cloud_here};
use crate::cuvslam_model::{covariance_holds, decimation_of, depth_info_taken, depth_model};
use crate::cuvslam_model::{depth_placed, depth_taken, drained, frame_seen, frames_wanted};
use crate::cuvslam_model::{image_of, image_placed, image_put, image_taken, imu_info_taken};
use crate::cuvslam_model::{imu_planned, imu_queued, located_by, mount_of, off_rig, or_identity};
use crate::cuvslam_model::{params_of, plan_of, planned, planned_on, raw_pose_of, reading_of};
use crate::cuvslam_model::{rebased, replied, reprojected_from, reprojected_here, requested};
use crate::cuvslam_model::{requested_at, rig_sought, sent, settings_of, speed_holds, speed_of};
use crate::cuvslam_model::{stamps_span, too_fast, units_of, untouched, worst_variance};
use crate::cuvslam_model::{CameraParams, CuvslamCore, DepthChoice, FrameTrace, ImuCalibration};
use crate::cuvslam_model::{ImuReading, RigMount, Speed, Step, TrackImage, TrackReply};
use crate::cuvslam_model::{TrackerConfig, TrackerPlan, TrackerState};
use crate::depth_cloud::cloud_of;
use crate::depth_pixels::{whole, written_here, ByteOrder};
use crate::depth_replay::{all_repeatable, law_cloud_repeats, law_reprojection_repeats};
use crate::depth_replay::{one_byte_order, same_cloud, same_image};
use crate::depth_reproject::{depth_sized, reprojected};
use crate::formulas::{congruent_of, per_second_of, seconds_of};
use crate::fusion_replay::{lemma_one_place, lemma_same_holds, same_entries, same_keys};
use crate::fusion_replay::{same_output, same_sample};
use crate::numerics::Numerics;
use crate::ordered_map::{holds, inserted, key_precedes, lemma_key_irreflexive};
use crate::ordered_map::{lemma_key_transitive, slot, FrameKey, KeyView, OrderedMap};
use crate::repeatability::{lemma_seconds_repeats, repeatable};
use crate::rig::{arranged, cameras_wanted, frames_known, imageless, info_known, info_of};
use crate::rig::{listed_by, names, not_placed, placed_at, placements, rig_of, CameraInfos};
use crate::rig::{Placement, RigCamera};
use crate::scalar::Scalar;
use crate::stamp::span;
use crate::track_runs::{answers_repeat, law_camera_info_leaves_the_track_alone};
use crate::track_runs::{law_depth_leaves_the_track_alone, law_image_leaves_the_track_alone};
use crate::track_runs::{law_unbuildable_is_for_ever, lemma_one_span, lemma_request_is_quiet};
use crate::tracker::{adjoint_entries, adjoint_of, brown_source, distorted, pose_of_cuv};
use crate::tracker::{rotation_widened, CuvPose, Mode};
use crate::types::{looked_up, spec_skew, CameraModel, CameraView, ImageFrame, ImuNoiseModel};
use crate::types::{ImuSample, Matrix3, Matrix6, OdometryEstimate, PointCloud, Pose, Quaternion};
use crate::types::TfLookup;

verus! {

/// Two configurations that say the same.
pub open spec fn same_visual_config(
    a: CuvslamOdometryConfig,
    b: CuvslamOdometryConfig,
) -> bool {
    &&& a.camera_mode@ == b.camera_mode@
    &&& names(a.camera_frames@) == names(b.camera_frames@)
    &&& a.rectified == b.rectified
    &&& a.use_gpu == b.use_gpu
    &&& a.odom_frame_id@ == b.odom_frame_id@
    &&& a.output_frame_id@ == b.output_frame_id@
    &&& a.rig_frame_id@ == b.rig_frame_id@
    &&& a.map_frame_id@ == b.map_frame_id@
    &&& a.covariance_gate_translation_std == b.covariance_gate_translation_std
    &&& a.speed_gate_max_linear == b.speed_gate_max_linear
    &&& a.speed_gate_max_angular == b.speed_gate_max_angular
    &&& a.max_skew_ms == b.max_skew_ms
    &&& a.enable_imu == b.enable_imu
    &&& same_entries(
        a.frame_id_to_depth_units_per_meter.entries@,
        b.frame_id_to_depth_units_per_meter.entries@,
    )
    &&& a.depth_cloud_min_range == b.depth_cloud_min_range
    &&& a.depth_cloud_max_range == b.depth_cloud_max_range
    &&& a.depth_cloud_decimation == b.depth_cloud_decimation
}

/// Two images that are the same, or none.
pub open spec fn same_images(a: Option<ImageFrame>, b: Option<ImageFrame>) -> bool {
    match (a, b) {
        (Some(x), Some(y)) => same_image(x, y),
        (None, None) => true,
        _ => false,
    }
}

/// Two rigs of the same cameras, with the same images.
pub open spec fn same_cameras(a: Seq<RigCamera>, b: Seq<RigCamera>) -> bool {
    &&& a.len() == b.len()
    &&& forall|i: int|
        #![trigger a[i]]
        #![trigger b[i]]
        0 <= i < a.len() ==> a[i].placement() == b[i].placement() && same_images(
            a[i].image,
            b[i].image,
        )
}

/// The same is known of the cameras.
pub open spec fn same_infos(a: CameraInfos, b: CameraInfos) -> bool {
    &&& same_keys(a.entries@, b.entries@)
    &&& forall|i: int|
        #![trigger a.entries@[i]]
        #![trigger b.entries@[i]]
        0 <= i < a.entries@.len() ==> a.entries@[i].1@ == b.entries@[i].1@
}

/// Two noise models that say the same.
pub open spec fn same_noise_model(a: ImuNoiseModel, b: ImuNoiseModel) -> bool {
    &&& a.frame_id@ == b.frame_id@
    &&& a.gyro_noise_density == b.gyro_noise_density
    &&& a.gyro_random_walk == b.gyro_random_walk
    &&& a.accel_noise_density == b.accel_noise_density
    &&& a.accel_random_walk == b.accel_random_walk
    &&& a.frequency == b.frequency
}

/// Two noise models that say the same, or none.
pub open spec fn same_noise_models(
    a: Option<ImuNoiseModel>,
    b: Option<ImuNoiseModel>,
) -> bool {
    match (a, b) {
        (Some(x), Some(y)) => same_noise_model(x, y),
        (None, None) => true,
        _ => false,
    }
}

/// Two models of the same camera, or none.
pub open spec fn same_models(a: Option<CameraModel>, b: Option<CameraModel>) -> bool {
    match (a, b) {
        (Some(x), Some(y)) => x@ == y@,
        (None, None) => true,
        _ => false,
    }
}

/// The same mount, or none.
pub open spec fn same_mounts(a: Option<RigMount>, b: Option<RigMount>) -> bool {
    match (a, b) {
        (Some(x), Some(y)) => {
            &&& x.base_from_rig == y.base_from_rig
            &&& x.rig_from_base == y.rig_from_base
            &&& x.covariance_adjoint.entries@ == y.covariance_adjoint.entries@
        },
        (None, None) => true,
        _ => false,
    }
}

/// Two visual halves that have seen and done the same.
pub open spec fn visual_alike<N: Numerics>(a: CuvslamCore<N>, b: CuvslamCore<N>) -> bool {
    &&& a.numerics == b.numerics
    &&& same_visual_config(a.config, b.config)
    &&& a.mode == b.mode
    &&& a.max_skew_ns == b.max_skew_ns
    &&& same_cameras(a.cameras@, b.cameras@)
    &&& same_infos(a.camera_info_by_frame, b.camera_info_by_frame)
    &&& same_noise_models(a.imu_model, b.imu_model)
    &&& a.pending_imu@ == b.pending_imu@
    &&& a.tracker == b.tracker
    &&& same_images(a.depth, b.depth)
    &&& same_models(a.depth_info, b.depth_info)
    &&& a.camera_from_depth == b.camera_from_depth
    &&& a.last_ts_ns == b.last_ts_ns
    &&& a.world_from_base == b.world_from_base
    &&& same_mounts(a.mount, b.mount)
    &&& a.rebase == b.rebase
    &&& a.covariance.entries@ == b.covariance.entries@
    &&& a.previous_raw == b.previous_raw
    &&& a.previous_raw_ns == b.previous_raw_ns
    &&& a.was_tracking == b.was_tracking
    &&& a.counters == b.counters
}

/// The same camera as the tracker takes it.
pub open spec fn same_params(a: CameraParams, b: CameraParams) -> bool {
    &&& a.width == b.width
    &&& a.height == b.height
    &&& a.principal == b.principal
    &&& a.focal == b.focal
    &&& a.rig_from_camera == b.rig_from_camera
    &&& a.distortion_model == b.distortion_model
    &&& a.distortion_parameters@ == b.distortion_parameters@
}

/// Two plans for the same tracker.
pub open spec fn same_plan(a: TrackerPlan, b: TrackerPlan) -> bool {
    &&& a.cameras@.len() == b.cameras@.len()
    &&& forall|i: int|
        #![trigger a.cameras@[i]]
        #![trigger b.cameras@[i]]
        0 <= i < a.cameras@.len() ==> same_params(a.cameras@[i], b.cameras@[i])
    &&& a.imu == b.imu
    &&& a.config == b.config
}

/// The same images as the tracker takes them.
pub open spec fn same_track_images(a: Seq<TrackImage>, b: Seq<TrackImage>) -> bool {
    &&& a.len() == b.len()
    &&& forall|i: int|
        #![trigger a[i]]
        #![trigger b[i]]
        0 <= i < a.len() ==> {
            &&& same_image(a[i].frame, b[i].frame)
            &&& a[i].encoding == b[i].encoding
            &&& a[i].data_type == b[i].data_type
            &&& a[i].timestamp_ns == b[i].timestamp_ns
            &&& a[i].camera_index == b[i].camera_index
        }
}

/// Two steps that ask for the same.
pub open spec fn same_step(a: Step, b: Step) -> bool {
    match (a, b) {
        (Step::Idle, Step::Idle) => true,
        (Step::Build(x), Step::Build(y)) => same_plan(x, y),
        (Step::Track(x), Step::Track(y)) => {
            &&& x.imu@ == y.imu@
            &&& same_track_images(x.images@, y.images@)
            &&& same_track_images(x.depths@, y.depths@)
        },
        _ => false,
    }
}

/// Two clouds that are the same, or none.
pub open spec fn same_clouds(a: Option<PointCloud>, b: Option<PointCloud>) -> bool {
    match (a, b) {
        (Some(x), Some(y)) => same_cloud(x, y),
        (None, None) => true,
        _ => false,
    }
}

/// A mode has one name.
proof fn lemma_one_mode(a: Mode, b: Mode)
    requires
        a.name() == b.name(),
    ensures
        a == b,
{
    reveal_strlit("stereo");
    reveal_strlit("mono");
    reveal_strlit("rgbd");
    assert("mono"@[0] != "rgbd"@[0]);
}

/// Law: every recording starts from the same. Two new visual halves with configurations that say
/// the same are alike.
pub proof fn law_new_visual_cores_are_alike<N: Numerics>(a: CuvslamCore<N>, b: CuvslamCore<N>)
    requires
        repeatable(&a.numerics),
        a.numerics == b.numerics,
        same_visual_config(a.config, b.config),
        a.well_formed(),
        b.well_formed(),
        untouched(a),
        untouched(b),
    ensures
        visual_alike(a, b),
{
    lemma_one_mode(a.mode, b.mode);
    assert(a.pending_imu@ =~= b.pending_imu@);
    assert forall|i: int| 0 <= i < 36 implies a.covariance.entries@[i]
        == b.covariance.entries@[i] by {
        assert(a.covariance.entries[i] == Scalar::zero());
        assert(b.covariance.entries[i] == Scalar::zero());
    }
    assert(a.covariance.entries@ =~= b.covariance.entries@);
}

/// The same is known of one camera.
proof fn lemma_info_repeats(
    a: CameraInfos,
    b: CameraInfos,
    frame: Seq<char>,
    x: CameraView,
    y: CameraView,
)
    requires
        a.well_formed(),
        same_infos(a, b),
        info_of(a, frame, x),
        info_of(b, frame, y),
    ensures
        x == y,
        info_known(a, frame),
        info_known(b, frame),
{
    let i = choose|i: int|
        {
            &&& 0 <= i < a.entries@.len()
            &&& (#[trigger] a.entries@[i]).0@ == frame
            &&& a.entries@[i].1@ == x
        };
    let j = choose|j: int|
        {
            &&& 0 <= j < b.entries@.len()
            &&& (#[trigger] b.entries@[j]).0@ == frame
            &&& b.entries@[j].1@ == y
        };
    assert(a.entries@[i].0.parts() == (frame, Seq::<char>::empty()));
    assert(b.entries@[j].0.parts() == (frame, Seq::<char>::empty()));
    lemma_one_place(a.entries@, b.entries@, i, j);
}

proof fn lemma_rig_repeats<N: Numerics, T: TfLookup>(
    n: &N,
    tf: &T,
    rig_frame: Seq<char>,
    a: CameraInfos,
    b: CameraInfos,
    frames: Seq<Seq<char>>,
    discovered: bool,
    x: Option<Seq<Placement>>,
    y: Option<Seq<Placement>>,
)
    requires
        repeatable(n),
        answers_repeat(tf),
        a.well_formed(),
        same_infos(a, b),
        rig_of(n, tf, rig_frame, a, frames, discovered, x),
        rig_of(n, tf, rig_frame, b, frames, discovered, y),
    ensures
        x == y,
{
    let la = choose|listed: Seq<Placement>|
        {
            &&& #[trigger] listed_by(tf, rig_frame, a, frames, listed)
            &&& match x {
                Some(rig) => listed.len() == frames.len() && arranged(n, discovered, listed, rig),
                None => listed.len() < frames.len() && not_placed(
                    tf,
                    rig_frame,
                    a,
                    frames[listed.len() as int],
                ),
            }
        };
    let lb = choose|listed: Seq<Placement>|
        {
            &&& #[trigger] listed_by(tf, rig_frame, b, frames, listed)
            &&& match y {
                Some(rig) => listed.len() == frames.len() && arranged(n, discovered, listed, rig),
                None => listed.len() < frames.len() && not_placed(
                    tf,
                    rig_frame,
                    b,
                    frames[listed.len() as int],
                ),
            }
        };
    if la.len() < lb.len() {
        lemma_placed_or_not(tf, rig_frame, a, b, frames[la.len() as int], lb[la.len() as int]);
    }
    if lb.len() < la.len() {
        lemma_placed_or_not(tf, rig_frame, b, a, frames[lb.len() as int], la[lb.len() as int]);
    }
    assert forall|i: int| 0 <= i < la.len() implies la[i] == lb[i] by {
        assert(placed_at(tf, rig_frame, a, frames[i], la[i]));
        assert(placed_at(tf, rig_frame, b, frames[i], lb[i]));
        lemma_info_repeats(a, b, frames[i], la[i].info, lb[i].info);
    }
    assert(la =~= lb);
}

/// A camera that can be placed is not one that cannot.
proof fn lemma_placed_or_not<T: TfLookup>(
    tf: &T,
    rig_frame: Seq<char>,
    a: CameraInfos,
    b: CameraInfos,
    frame: Seq<char>,
    p: Placement,
)
    requires
        answers_repeat(tf),
        same_keys(a.entries@, b.entries@),
        not_placed(tf, rig_frame, a, frame),
    ensures
        !placed_at(tf, rig_frame, b, frame, p),
{
    if placed_at(tf, rig_frame, b, frame, p) {
        assert(looked_up(tf, rig_frame, frame, Some(p.rig_from_camera)));
        if looked_up(tf, rig_frame, frame, None) {
            assert(None::<Pose> == Some(p.rig_from_camera));
        }
        let j = choose|j: int|
            {
                &&& 0 <= j < b.entries@.len()
                &&& (#[trigger] b.entries@[j]).0@ == frame
                &&& b.entries@[j].1@ == p.info
            };
        assert(b.entries@[j].0.parts() == (frame, Seq::<char>::empty()));
        assert(a.entries@[j].0.parts() == (frame, Seq::<char>::empty()));
    }
}

/// Two rigs with the same places and no images.
proof fn lemma_bare_rigs_alike(a: Seq<RigCamera>, b: Seq<RigCamera>)
    requires
        placements(a) == placements(b),
        imageless(a),
        imageless(b),
    ensures
        same_cameras(a, b),
{
    assert(placements(a).len() == a.len());
    assert(placements(b).len() == b.len());
    assert forall|i: int|
        #![trigger a[i]]
        #![trigger b[i]]
        0 <= i < a.len() implies a[i].placement() == b[i].placement() && same_images(
        a[i].image,
        b[i].image,
    ) by {
        assert(placements(a)[i] == placements(b)[i]);
        assert(placements(a)[i] == a[i].placement());
        assert(placements(b)[i] == b[i].placement());
        assert(a[i].image is None && b[i].image is None);
    }
}

/// Two rigs with the same cameras have the same places.
proof fn lemma_places_alike(a: Seq<RigCamera>, b: Seq<RigCamera>)
    requires
        same_cameras(a, b),
    ensures
        placements(a) == placements(b),
{
    assert forall|i: int| 0 <= i < a.len() implies placements(a)[i] == placements(b)[i] by {
        assert(a[i].placement() == b[i].placement());
    }
    assert(placements(a) =~= placements(b));
}

/// Looking for the rig goes the same way every time.
proof fn lemma_rig_sought_repeats<N: Numerics, T: TfLookup>(
    a: CuvslamCore<N>,
    b: CuvslamCore<N>,
    tf: &T,
    next_a: CuvslamCore<N>,
    next_b: CuvslamCore<N>,
)
    requires
        repeatable(&a.numerics),
        answers_repeat(tf),
        visual_alike(a, b),
        a.camera_info_by_frame.well_formed(),
        rig_sought(a, tf, next_a),
        rig_sought(b, tf, next_b),
    ensures
        visual_alike(next_a, next_b),
{
    let discovered = a.config.camera_frames@.len() == 0;
    assert(names(a.config.camera_frames@).len() == a.config.camera_frames@.len());
    assert(names(b.config.camera_frames@).len() == b.config.camera_frames@.len());
    let ia = a.camera_info_by_frame;
    let ib = b.camera_info_by_frame;
    if !(a.cameras@.len() > 0 || (discovered && ia.entries@.len() != cameras_wanted(a.mode))) {
        let frames = frames_wanted(a);
        assert(frames_known(ia) =~= frames_known(ib)) by {
            assert forall|i: int| 0 <= i < ia.entries@.len() implies frames_known(ia)[i]
                == frames_known(ib)[i] by {
                assert(ia.entries@[i].0.parts() == ib.entries@[i].0.parts());
            }
        }
        assert(frames == frames_wanted(b));
        let rig_frame = a.config.rig_frame_name();
        let ra = choose|rig: Option<Seq<Placement>>|
            {
                &&& #[trigger] rig_of(&a.numerics, tf, rig_frame, ia, frames, discovered, rig)
                &&& match rig {
                    Some(placed) => {
                        &&& placements(next_a.cameras@) == placed
                        &&& imageless(next_a.cameras@)
                        &&& next_a == (CuvslamCore { cameras: next_a.cameras, ..a })
                    },
                    None => next_a == a,
                }
            };
        let rb = choose|rig: Option<Seq<Placement>>|
            {
                &&& #[trigger] rig_of(&b.numerics, tf, rig_frame, ib, frames, discovered, rig)
                &&& match rig {
                    Some(placed) => {
                        &&& placements(next_b.cameras@) == placed
                        &&& imageless(next_b.cameras@)
                        &&& next_b == (CuvslamCore { cameras: next_b.cameras, ..b })
                    },
                    None => next_b == b,
                }
            };
        lemma_rig_repeats(&a.numerics, tf, rig_frame, ia, ib, frames, discovered, ra, rb);
        if ra is Some {
            lemma_bare_rigs_alike(next_a.cameras@, next_b.cameras@);
        }
    }
}

/// Law: what is known of a camera is taken the same way every time.
pub proof fn law_camera_info_repeats<N: Numerics, T: TfLookup>(
    a: CuvslamCore<N>,
    b: CuvslamCore<N>,
    info: CameraModel,
    again: CameraModel,
    tf: &T,
    next_a: CuvslamCore<N>,
    next_b: CuvslamCore<N>,
)
    requires
        repeatable(&a.numerics),
        answers_repeat(tf),
        visual_alike(a, b),
        a.well_formed(),
        info@ == again@,
        camera_info_taken(a, info, tf, next_a),
        camera_info_taken(b, again, tf, next_b),
    ensures
        visual_alike(next_a, next_b),
{
    if !a.tracker.exists_now() {
        let (ka, ma) = choose|key: String, infos: CameraInfos|
            {
                &&& key@ == info.frame_id@
                &&& #[trigger] inserted(a.camera_info_by_frame.entries@, key, info, infos.entries@)
                &&& rig_sought(CuvslamCore { camera_info_by_frame: infos, ..a }, tf, next_a)
            };
        let (kb, mb) = choose|key: String, infos: CameraInfos|
            {
                &&& key@ == again.frame_id@
                &&& #[trigger] inserted(b.camera_info_by_frame.entries@, key, again, infos.entries@)
                &&& rig_sought(CuvslamCore { camera_info_by_frame: infos, ..b }, tf, next_b)
            };
        assert(info@.frame_id == again@.frame_id);
        lemma_inserting_repeats(
            a.camera_info_by_frame,
            b.camera_info_by_frame,
            ka,
            kb,
            info,
            again,
            ma,
            mb,
        );
        lemma_rig_sought_repeats(
            CuvslamCore { camera_info_by_frame: ma, ..a },
            CuvslamCore { camera_info_by_frame: mb, ..b },
            tf,
            next_a,
            next_b,
        );
    }
}

/// A key goes to one place.
pub proof fn lemma_one_key_slot<K: FrameKey, V>(
    a: Seq<(K, V)>,
    b: Seq<(K, V)>,
    key: KeyView,
    i: int,
    j: int,
)
    requires
        same_keys(a, b),
        slot(a, key, i),
        slot(b, key, j),
    ensures
        i == j,
{
    if i < j {
        assert(key_precedes(b[i].0.parts(), key));
        assert(a[i].0.parts() == b[i].0.parts());
        lemma_key_irreflexive(key);
        if a[i].0.parts() != key {
            lemma_key_transitive(key, a[i].0.parts(), key);
        }
    }
    if j < i {
        assert(key_precedes(a[j].0.parts(), key));
        assert(a[j].0.parts() == b[j].0.parts());
        lemma_key_irreflexive(key);
        if b[j].0.parts() != key {
            lemma_key_transitive(key, b[j].0.parts(), key);
        }
    }
}

/// Putting the same in leaves the same.
proof fn lemma_inserting_repeats(
    a: CameraInfos,
    b: CameraInfos,
    ka: String,
    kb: String,
    info: CameraModel,
    again: CameraModel,
    ma: CameraInfos,
    mb: CameraInfos,
)
    requires
        a.well_formed(),
        same_infos(a, b),
        ka@ == kb@,
        info@ == again@,
        inserted(a.entries@, ka, info, ma.entries@),
        inserted(b.entries@, kb, again, mb.entries@),
    ensures
        same_infos(ma, mb),
        ma.well_formed(),
{
    let key = (ka@, Seq::<char>::empty());
    assert(ka.parts() == key);
    assert(kb.parts() == key);
    let i = choose|i: int| #[trigger]
        slot(a.entries@, ka.parts(), i) && ma.entries@ == if i < a.entries@.len()
            && a.entries@[i].0.parts() == ka.parts() {
            a.entries@.update(i, (a.entries@[i].0, info))
        } else {
            a.entries@.insert(i, (ka, info))
        };
    let j = choose|i: int| #[trigger]
        slot(b.entries@, kb.parts(), i) && mb.entries@ == if i < b.entries@.len()
            && b.entries@[i].0.parts() == kb.parts() {
            b.entries@.update(i, (b.entries@[i].0, again))
        } else {
            b.entries@.insert(i, (kb, again))
        };
    lemma_one_key_slot(a.entries@, b.entries@, key, i, j);
    let x = ma.entries@;
    let y = mb.entries@;
    let replaces = i < a.entries@.len() && a.entries@[i].0.parts() == key;
    assert forall|k: int|
        #![trigger x[k]]
        #![trigger y[k]]
        0 <= k < x.len() implies x[k].0.parts() == y[k].0.parts() && x[k].1@ == y[k].1@ by {
        let old = if !replaces && k > i {
            k - 1
        } else {
            k
        };
        if k != i {
            assert(x[k] == a.entries@[old]);
            assert(y[k] == b.entries@[old]);
            assert(a.entries@[old].1@ == b.entries@[old].1@);
        } else if replaces {
            assert(x[k] == (a.entries@[i].0, info));
            assert(y[k] == (b.entries@[i].0, again));
        }
    }
    assert forall|k: int, l: int|
        #![trigger x[k], x[l]]
        0 <= k < l < x.len() implies key_precedes(x[k].0.parts(), x[l].0.parts()) by {
        let old_k = if !replaces && k > i {
            k - 1
        } else {
            k
        };
        let old_l = if !replaces && l > i {
            l - 1
        } else {
            l
        };
        if k != i {
            assert(x[k] == a.entries@[old_k]);
        }
        if l != i {
            assert(x[l] == a.entries@[old_l]);
        }
        if !replaces && k == i {
            assert(x[k].0.parts() == key);
            assert(key_precedes(key, a.entries@[old_l].0.parts()));
        } else if !replaces && l == i {
            assert(key_precedes(a.entries@[old_k].0.parts(), key));
        } else {
            assert(key_precedes(a.entries@[old_k].0.parts(), a.entries@[old_l].0.parts()));
        }
    }
}

proof fn lemma_raw_pose_repeats<N: Numerics>(
    n: &N,
    m: RigMount,
    k: RigMount,
    cuv: CuvPose,
    a: Pose,
    b: Pose,
)
    requires
        repeatable(n),
        m.base_from_rig == k.base_from_rig,
        m.rig_from_base == k.rig_from_base,
        raw_pose_of(n, m, cuv, a),
        raw_pose_of(n, k, cuv, b),
    ensures
        a == b,
{
    let (ra, ha) = choose|rig: Pose, half: Pose|
        {
            &&& #[trigger] pose_of_cuv(n, cuv, rig)
            &&& #[trigger] call_ensures(N::compose, (n, &m.base_from_rig, &rig), half)
            &&& call_ensures(N::compose, (n, &half, &m.rig_from_base), a)
        };
    let (rb, hb) = choose|rig: Pose, half: Pose|
        {
            &&& #[trigger] pose_of_cuv(n, cuv, rig)
            &&& #[trigger] call_ensures(N::compose, (n, &k.base_from_rig, &rig), half)
            &&& call_ensures(N::compose, (n, &half, &k.rig_from_base), b)
        };
    let wa = choose|wide: Quaternion|
        {
            &&& rotation_widened(n, cuv, wide)
            &&& #[trigger] call_ensures(N::normalized, (n, &wide), ra.rotation)
        };
    let wb = choose|wide: Quaternion|
        {
            &&& rotation_widened(n, cuv, wide)
            &&& #[trigger] call_ensures(N::normalized, (n, &wide), rb.rotation)
        };
    assert(wa == wb);
    assert(ra.rotation == rb.rotation);
    assert(ra.translation == rb.translation);
    assert(ra == rb);
    assert(ha == hb);
}

proof fn lemma_congruence_repeats<N: Numerics>(
    n: &N,
    a: Matrix6,
    b: Matrix6,
    m: Matrix6,
    k: Matrix6,
    x: Matrix6,
    y: Matrix6,
)
    requires
        repeatable(n),
        a.entries@ == b.entries@,
        m.entries@ == k.entries@,
        congruent_of(n, a, m, x),
        congruent_of(n, b, k, y),
    ensures
        x.entries@ == y.entries@,
{
    let (ha, fa) = choose|half: Matrix6, flipped: Matrix6|
        {
            &&& call_ensures(N::matrix6_times, (n, &a, &m), half)
            &&& a.flips_to(flipped)
            &&& #[trigger] call_ensures(N::matrix6_times, (n, &half, &flipped), x)
        };
    let (hb, fb) = choose|half: Matrix6, flipped: Matrix6|
        {
            &&& call_ensures(N::matrix6_times, (n, &b, &k), half)
            &&& b.flips_to(flipped)
            &&& #[trigger] call_ensures(N::matrix6_times, (n, &half, &flipped), y)
        };
    assert(ha.entries@ == hb.entries@);
    assert forall|i: int| 0 <= i < 36 implies fa.entries@[i] == fb.entries@[i] by {
        let row = i / 6;
        let col = i % 6;
        assert(i == row * 6 + col);
        assert(fa.at(row, col) == a.at(col, row));
        assert(fb.at(row, col) == b.at(col, row));
        assert(a.entries@[col * 6 + row] == b.entries@[col * 6 + row]);
    }
    assert(fa.entries@ =~= fb.entries@);
}

proof fn lemma_speed_gate_repeats<N: Numerics>(
    a: CuvslamCore<N>,
    b: CuvslamCore<N>,
    raw: Pose,
    timestamp_ns: i64,
    x: bool,
    y: bool,
)
    requires
        repeatable(&a.numerics),
        visual_alike(a, b),
        speed_holds(a, raw, timestamp_ns, x),
        speed_holds(b, raw, timestamp_ns, y),
    ensures
        x == y,
{
    let limited = a.config.speed_gate_max_linear.positive()
        || a.config.speed_gate_max_angular.positive();
    if limited && a.previous_raw is Some {
        let n = &a.numerics;
        let previous = a.previous_raw->0;
        let s = choose|v: Speed| #[trigger]
            speed_of(n, previous, a.previous_raw_ns, raw, timestamp_ns, v) && x == too_fast(
                a.config,
                v,
            );
        let t = choose|v: Speed| #[trigger]
            speed_of(n, previous, a.previous_raw_ns, raw, timestamp_ns, v) && y == too_fast(
                a.config,
                v,
            );
        let dt_ns = span(a.previous_raw_ns, timestamp_ns);
        assert(s.offset == t.offset);
        assert(s.distance == t.distance);
        assert(s.angle == t.angle);
        lemma_per_second_repeats(n, s.distance, dt_ns, s.linear, t.linear);
        lemma_per_second_repeats(n, s.angle, dt_ns, s.angular, t.angular);
    }
}

proof fn lemma_per_second_repeats<N: Numerics>(
    n: &N,
    amount: Scalar,
    dt_ns: i64,
    a: Scalar,
    b: Scalar,
)
    requires
        repeatable(n),
        per_second_of(n, amount, dt_ns, a),
        per_second_of(n, amount, dt_ns, b),
    ensures
        a == b,
{
    let x = choose|dt: Scalar|
        {
            &&& #[trigger] seconds_of(n, dt_ns, dt)
            &&& call_ensures(N::ratio, (n, amount, dt), a)
        };
    let y = choose|dt: Scalar|
        {
            &&& #[trigger] seconds_of(n, dt_ns, dt)
            &&& call_ensures(N::ratio, (n, amount, dt), b)
        };
    lemma_seconds_repeats(n, dt_ns, x, y);
}

/// Two replies that say the same.
pub open spec fn same_reply(a: TrackReply, b: TrackReply) -> bool {
    match (a, b) {
        (TrackReply::Failed, TrackReply::Failed) => true,
        (
            TrackReply::Estimate { timestamp_ns, world_from_rig },
            TrackReply::Estimate { timestamp_ns: stamp, world_from_rig: pose },
        ) => timestamp_ns == stamp && match (world_from_rig, pose) {
            (Some((x, p)), Some((y, q))) => x == y && p.entries@ == q.entries@,
            (None, None) => true,
            _ => false,
        },
        _ => false,
    }
}

/// Law: the tracker's reply is taken the same way every time. Two visual halves that have tracked
/// the same give out the same estimate on the same reply, bit for bit, and stay alike.
pub proof fn law_track_reply_repeats<N: Numerics>(
    a: CuvslamCore<N>,
    b: CuvslamCore<N>,
    newest_ns: i64,
    reply: TrackReply,
    again: TrackReply,
    next_a: CuvslamCore<N>,
    next_b: CuvslamCore<N>,
    out_a: Option<OdometryEstimate>,
    out_b: Option<OdometryEstimate>,
)
    requires
        repeatable(&a.numerics),
        visual_alike(a, b),
        same_reply(reply, again),
        replied(a, newest_ns, reply, next_a, out_a),
        replied(b, newest_ns, again, next_b, out_b),
    ensures
        visual_alike(next_a, next_b),
        same_output(out_a, out_b),
{
    let sa = frame_seen(a, newest_ns);
    let sb = frame_seen(b, newest_ns);
    assert(visual_alike(sa, sb));
    if let TrackReply::Estimate { timestamp_ns, world_from_rig } = reply {
        if let Some((cuv, rig_covariance)) = world_from_rig {
            let n = &a.numerics;
            let other = ((again->world_from_rig)->0).1;
            let x = choose|t: FrameTrace| #[trigger]
                located_by(sa, timestamp_ns, cuv, rig_covariance, t, next_a);
            let y = choose|t: FrameTrace| #[trigger]
                located_by(sb, timestamp_ns, cuv, other, t, next_b);
            lemma_raw_pose_repeats(n, sa.mount->0, sb.mount->0, cuv, x.raw, y.raw);
            lemma_congruence_repeats(
                n,
                (sa.mount->0).covariance_adjoint,
                (sb.mount->0).covariance_adjoint,
                rig_covariance,
                other,
                next_a.covariance,
                next_b.covariance,
            );
            let ca = next_a.covariance;
            let cb = next_b.covariance;
            assert(ca.entries@[0] == cb.entries@[0]);
            assert(ca.entries@[7] == cb.entries@[7]);
            assert(ca.entries@[14] == cb.entries@[14]);
            assert(ca.at(0, 0) == cb.at(0, 0));
            assert(ca.at(1, 1) == cb.at(1, 1));
            assert(ca.at(2, 2) == cb.at(2, 2));
            assert(worst_variance(ca) == worst_variance(cb));
            assert(x.std == y.std);
            lemma_speed_gate_repeats(sa, sb, x.raw, timestamp_ns, x.too_fast, y.too_fast);
            assert(covariance_holds(sa, ca, x.std) == covariance_holds(sb, cb, y.std));
            let held = covariance_holds(sa, ca, x.std) || x.too_fast;
            if held {
                let ra = next_a.rebase->0;
                let rb = next_b.rebase->0;
                assert(rebased(n, or_identity(sa.world_from_base), x.raw, ra));
                assert(rebased(n, or_identity(sb.world_from_base), y.raw, rb));
                assert(ra == rb);
            }
            let oa = out_a->0;
            let ob = out_b->0;
            assert(oa.twist_covariance.entries@ =~= ob.twist_covariance.entries@) by {
                assert forall|i: int| 0 <= i < 36 implies oa.twist_covariance.entries@[i]
                    == ob.twist_covariance.entries@[i] by {
                    assert(oa.twist_covariance.entries[i] == Scalar::zero());
                    assert(ob.twist_covariance.entries[i] == Scalar::zero());
                }
            }
        }
    }
}

/// Law: the IMU's noise model is taken the same way every time.
pub proof fn law_imu_info_repeats<N: Numerics, T: TfLookup>(
    a: CuvslamCore<N>,
    b: CuvslamCore<N>,
    info: ImuNoiseModel,
    again: ImuNoiseModel,
    tf: &T,
    next_a: CuvslamCore<N>,
    next_b: CuvslamCore<N>,
)
    requires
        repeatable(&a.numerics),
        answers_repeat(tf),
        visual_alike(a, b),
        a.well_formed(),
        same_noise_model(info, again),
        imu_info_taken(a, info, tf, next_a),
        imu_info_taken(b, again, tf, next_b),
    ensures
        visual_alike(next_a, next_b),
{
    if !a.tracker.exists_now() {
        lemma_rig_sought_repeats(
            CuvslamCore { imu_model: Some(info), ..a },
            CuvslamCore { imu_model: Some(again), ..b },
            tf,
            next_a,
            next_b,
        );
    }
}

/// Law: an IMU sample is queued the same way every time.
pub proof fn law_visual_imu_repeats<N: Numerics>(
    a: CuvslamCore<N>,
    b: CuvslamCore<N>,
    msg: ImuSample,
    again: ImuSample,
    next_a: CuvslamCore<N>,
    next_b: CuvslamCore<N>,
)
    requires
        all_repeatable(&a.numerics),
        visual_alike(a, b),
        same_sample(msg, again),
        imu_queued(a, msg, next_a),
        imu_queued(b, again, next_b),
    ensures
        visual_alike(next_a, next_b),
{
    if a.tracker.exists_now() {
        let x = choose|r: ImuReading| #[trigger]
            reading_of(&a.numerics, msg, r) && next_a.pending_imu@ == capped(
                a.pending_imu@.push(r),
            );
        let y = choose|r: ImuReading| #[trigger]
            reading_of(&b.numerics, again, r) && next_b.pending_imu@ == capped(
                b.pending_imu@.push(r),
            );
        assert(x.linear_accelerations == y.linear_accelerations);
        assert(x.angular_velocities == y.angular_velocities);
        assert(x == y);
    }
}

/// The adjoint of a transform is one.
proof fn lemma_adjoint_repeats<N: Numerics>(n: &N, pose: Pose, a: Matrix6, b: Matrix6)
    requires
        repeatable(n),
        adjoint_of(n, pose, a),
        adjoint_of(n, pose, b),
    ensures
        a.entries@ == b.entries@,
{
    let (ra, ca) = choose|rotation: Matrix3, coupling: Matrix3|
        {
            &&& call_ensures(N::rotation_matrix, (n, &pose.rotation), rotation)
            &&& call_ensures(
                N::matrix3_times,
                (n, &spec_skew(pose.translation), &rotation),
                coupling,
            )
            &&& #[trigger] adjoint_entries(rotation, coupling, a)
        };
    let (rb, cb) = choose|rotation: Matrix3, coupling: Matrix3|
        {
            &&& call_ensures(N::rotation_matrix, (n, &pose.rotation), rotation)
            &&& call_ensures(
                N::matrix3_times,
                (n, &spec_skew(pose.translation), &rotation),
                coupling,
            )
            &&& #[trigger] adjoint_entries(rotation, coupling, b)
        };
    assert(ra == rb);
    assert(ca == cb);
    assert forall|i: int| 0 <= i < 36 implies a.entries@[i] == b.entries@[i] by {
        let row = i / 6;
        let col = i % 6;
        assert(i == row * 6 + col);
        assert(a.at(row, col) == b.at(row, col));
    }
    assert(a.entries@ =~= b.entries@);
}

/// A camera as the tracker takes it is one.
proof fn lemma_params_repeat<N: Numerics>(n: &N, c: Placement, a: CameraParams, b: CameraParams)
    requires
        all_repeatable(n),
        params_of(n, c, a),
        params_of(n, c, b),
    ensures
        same_params(a, b),
{
    let d = c.info.distortion;
    if distorted(d) {
        assert forall|i: int| 0 <= i < 5 implies a.distortion_parameters@[i]
            == b.distortion_parameters@[i] by {
            assert(call_ensures(N::narrow, (n, d[brown_source(i)]), a.distortion_parameters@[i]));
            assert(call_ensures(N::narrow, (n, d[brown_source(i)]), b.distortion_parameters@[i]));
        }
    }
    assert(a.distortion_parameters@ =~= b.distortion_parameters@);
    assert(a.rig_from_camera.translation == b.rig_from_camera.translation);
}

/// The tracker's settings are one.
proof fn lemma_settings_repeat<N: Numerics>(
    a: CuvslamCore<N>,
    b: CuvslamCore<N>,
    x: TrackerConfig,
    y: TrackerConfig,
)
    requires
        all_repeatable(&a.numerics),
        visual_alike(a, b),
        a.well_formed(),
        settings_of(a, x),
        settings_of(b, y),
    ensures
        x == y,
{
    let ua = a.config.frame_id_to_depth_units_per_meter.entries@;
    let ub = b.config.frame_id_to_depth_units_per_meter.entries@;
    if a.mode is Rgbd {
        assert(ua[0].1 == ub[0].1);
    }
}

/// The IMU for the plan is one.
proof fn lemma_imu_plan_repeats<N: Numerics, T: TfLookup>(
    a: CuvslamCore<N>,
    b: CuvslamCore<N>,
    tf: &T,
    x: Option<Option<ImuCalibration>>,
    y: Option<Option<ImuCalibration>>,
)
    requires
        all_repeatable(&a.numerics),
        answers_repeat(tf),
        visual_alike(a, b),
        imu_planned(a, tf, x),
        imu_planned(b, tf, y),
    ensures
        x == y,
{
    if a.config.enable_imu {
        if let Some(model) = a.imu_model {
            let other = b.imu_model->0;
            let n = &a.numerics;
            let rig_frame = a.config.rig_frame_name();
            let pa = choose|pose: Option<Pose>|
                {
                    &&& #[trigger] looked_up(tf, rig_frame, model.frame_id@, pose)
                    &&& match pose {
                        None => x is None,
                        Some(at) => x matches Some(Some(c)) && calibration_of(n, model, at, c),
                    }
                };
            let pb = choose|pose: Option<Pose>|
                {
                    &&& #[trigger] looked_up(tf, rig_frame, other.frame_id@, pose)
                    &&& match pose {
                        None => y is None,
                        Some(at) => y matches Some(Some(c)) && calibration_of(n, other, at, c),
                    }
                };
            assert(pa == pb);
            if pa is Some {
                let ca = (x->0)->0;
                let cb = (y->0)->0;
                assert(ca.rig_from_imu.translation == cb.rig_from_imu.translation);
                assert(ca.rig_from_imu == cb.rig_from_imu);
                assert(ca == cb);
            }
        }
    }
}

/// Asking for a tracker goes the same way every time.
proof fn lemma_planning_repeats<N: Numerics, T: TfLookup>(
    a: CuvslamCore<N>,
    b: CuvslamCore<N>,
    tf: &T,
    next_a: CuvslamCore<N>,
    next_b: CuvslamCore<N>,
    step_a: Step,
    step_b: Step,
)
    requires
        all_repeatable(&a.numerics),
        answers_repeat(tf),
        visual_alike(a, b),
        a.well_formed(),
        a.tracker is Absent,
        planned(a, tf, next_a, step_a),
        planned(b, tf, next_b, step_b),
    ensures
        visual_alike(next_a, next_b),
        same_step(step_a, step_b),
{
    let n = &a.numerics;
    let (body, rig) = (a.config.output_frame_id@, a.config.rig_frame_name());
    let pa = choose|pose: Option<Pose>|
        {
            &&& #[trigger] looked_up(tf, body, rig, pose)
            &&& match pose {
                None => next_a == a && step_a is Idle,
                Some(base_from_rig) => exists|m: RigMount| #[trigger]
                    mount_of(n, base_from_rig, m) && planned_on(
                        CuvslamCore { mount: Some(m), ..a },
                        tf,
                        next_a,
                        step_a,
                    ),
            }
        };
    let pb = choose|pose: Option<Pose>|
        {
            &&& #[trigger] looked_up(tf, body, rig, pose)
            &&& match pose {
                None => next_b == b && step_b is Idle,
                Some(base_from_rig) => exists|m: RigMount| #[trigger]
                    mount_of(n, base_from_rig, m) && planned_on(
                        CuvslamCore { mount: Some(m), ..b },
                        tf,
                        next_b,
                        step_b,
                    ),
            }
        };
    assert(pa == pb);
    if let Some(pose) = pa {
        let x = choose|m: RigMount| #[trigger]
            mount_of(n, pose, m) && planned_on(
                CuvslamCore { mount: Some(m), ..a },
                tf,
                next_a,
                step_a,
            );
        let y = choose|m: RigMount| #[trigger]
            mount_of(n, pose, m) && planned_on(
                CuvslamCore { mount: Some(m), ..b },
                tf,
                next_b,
                step_b,
            );
        lemma_adjoint_repeats(n, pose, x.covariance_adjoint, y.covariance_adjoint);
        let ma = CuvslamCore { mount: Some(x), ..a };
        let mb = CuvslamCore { mount: Some(y), ..b };
        assert(visual_alike(ma, mb));
        let ia = choose|imu: Option<Option<ImuCalibration>>|
            {
                &&& #[trigger] imu_planned(ma, tf, imu)
                &&& match imu {
                    None => next_a == ma && step_a is Idle,
                    Some(calibration) => {
                        &&& next_a == (CuvslamCore {
                            tracker: TrackerState::Building { fallback: false },
                            ..ma
                        })
                        &&& step_a matches Step::Build(plan) && plan_of(ma, calibration, plan)
                    },
                }
            };
        let ib = choose|imu: Option<Option<ImuCalibration>>|
            {
                &&& #[trigger] imu_planned(mb, tf, imu)
                &&& match imu {
                    None => next_b == mb && step_b is Idle,
                    Some(calibration) => {
                        &&& next_b == (CuvslamCore {
                            tracker: TrackerState::Building { fallback: false },
                            ..mb
                        })
                        &&& step_b matches Step::Build(plan) && plan_of(mb, calibration, plan)
                    },
                }
            };
        lemma_imu_plan_repeats(ma, mb, tf, ia, ib);
        if ia is Some {
            let plan_a = step_a->Build_0;
            let plan_b = step_b->Build_0;
            lemma_settings_repeat(ma, mb, plan_a.config, plan_b.config);
            assert forall|i: int|
                #![trigger plan_a.cameras@[i]]
                #![trigger plan_b.cameras@[i]]
                0 <= i < plan_a.cameras@.len() implies same_params(
                plan_a.cameras@[i],
                plan_b.cameras@[i],
            ) by {
                assert(ma.cameras@[i].placement() == mb.cameras@[i].placement());
                lemma_params_repeat(
                    n,
                    ma.cameras@[i].placement(),
                    plan_a.cameras@[i],
                    plan_b.cameras@[i],
                );
            }
        }
    }
}

/// Two choices of depth that are the same, or none.
spec fn same_choice(a: Option<DepthChoice>, b: Option<DepthChoice>) -> bool {
    match (a, b) {
        (Some(DepthChoice::Aligned(x)), Some(DepthChoice::Aligned(y))) => same_image(x, y),
        (Some(DepthChoice::Passthrough), Some(DepthChoice::Passthrough)) => true,
        (None, None) => true,
        _ => false,
    }
}

/// A frame has one scale.
proof fn lemma_units_repeat(
    a: OrderedMap<String, Scalar>,
    b: OrderedMap<String, Scalar>,
    frame: Seq<char>,
    x: Option<Scalar>,
    y: Option<Scalar>,
)
    requires
        a.well_formed(),
        same_entries(a.entries@, b.entries@),
        units_of(a, frame, x),
        units_of(b, frame, y),
    ensures
        x == y,
{
    let key = (frame, Seq::<char>::empty());
    lemma_same_holds(a.entries@, b.entries@, key);
    if !holds(a.entries@, key) {
        lemma_unlisted_has_no_units(a, frame, x);
        lemma_unlisted_has_no_units(b, frame, y);
    } else {
        let i = choose|i: int|
            {
                &&& 0 <= i < a.entries@.len()
                &&& (#[trigger] a.entries@[i]).0@ == frame
                &&& a.entries@[i].1 == x->0
            };
        let j = choose|j: int|
            {
                &&& 0 <= j < b.entries@.len()
                &&& (#[trigger] b.entries@[j]).0@ == frame
                &&& b.entries@[j].1 == y->0
            };
        assert(a.entries@[i].0.parts() == key);
        assert(b.entries@[j].0.parts() == key);
        lemma_one_place(a.entries@, b.entries@, i, j);
    }
}

/// Aligning depth goes the same way every time.
proof fn lemma_aligning_repeats<N: Numerics, T: TfLookup>(
    a: CuvslamCore<N>,
    b: CuvslamCore<N>,
    tf: &T,
    next_a: CuvslamCore<N>,
    next_b: CuvslamCore<N>,
    x: Option<DepthChoice>,
    y: Option<DepthChoice>,
)
    requires
        all_repeatable(&a.numerics),
        answers_repeat(tf),
        one_byte_order(),
        visual_alike(a, b),
        a.well_formed(),
        a.depth is Some,
        a.cameras@.len() > 0,
        aligned(a, tf, next_a, x),
        aligned(b, tf, next_b, y),
    ensures
        visual_alike(next_a, next_b),
        same_choice(x, y),
        next_a.cameras == a.cameras,
        next_b.cameras == b.cameras,
        next_a.depth == a.depth,
        next_b.depth == b.depth,
        next_a.pending_imu == a.pending_imu,
        next_b.pending_imu == b.pending_imu,
{
    let ta = a.config.frame_id_to_depth_units_per_meter;
    let tb = b.config.frame_id_to_depth_units_per_meter;
    let da = a.depth->0;
    let db = b.depth->0;
    let ua = choose|units: Option<Scalar>|
        {
            &&& #[trigger] units_of(ta, da.frame_id@, units)
            &&& match units {
                None => next_a == a && x is None,
                Some(per_meter) => aligned_at(a, tf, per_meter, next_a, x),
            }
        };
    let ub = choose|units: Option<Scalar>|
        {
            &&& #[trigger] units_of(tb, db.frame_id@, units)
            &&& match units {
                None => next_b == b && y is None,
                Some(per_meter) => aligned_at(b, tf, per_meter, next_b, y),
            }
        };
    lemma_units_repeat(ta, tb, da.frame_id@, ua, ub);
    let ca = a.cameras@[0];
    let cb = b.cameras@[0];
    assert(ca.placement() == cb.placement());
    assert(ca.frame@ == cb.frame@ && ca.info@ == cb.info@);
    if ua is Some && da.frame_id@ != ca.frame@ && a.depth_info is Some {
        let per_meter = ua->0;
        let pa = choose|pose: Option<Pose>|
            {
                &&& #[trigger] depth_placed(a, tf, pose)
                &&& match pose {
                    None => next_a == a && x is None,
                    Some(at) => reprojected_from(
                        CuvslamCore { camera_from_depth: Some(at), ..a },
                        at,
                        per_meter,
                        next_a,
                        x,
                    ),
                }
            };
        let pb = choose|pose: Option<Pose>|
            {
                &&& #[trigger] depth_placed(b, tf, pose)
                &&& match pose {
                    None => next_b == b && y is None,
                    Some(at) => reprojected_from(
                        CuvslamCore { camera_from_depth: Some(at), ..b },
                        at,
                        per_meter,
                        next_b,
                        y,
                    ),
                }
            };
        assert(pa == pb);
        assert(ca.info@.width == cb.info@.width && ca.info@.height == cb.info@.height);
        assert(depth_sized(ca.info) == depth_sized(cb.info));
        if pa is Some && depth_sized(ca.info) {
            lemma_reprojection_here_repeats(
                &a.numerics,
                da,
                db,
                a.depth_info->0,
                b.depth_info->0,
                ca.info,
                cb.info,
                pa->0,
                per_meter,
                x->0->Aligned_0,
                y->0->Aligned_0,
            );
        }
    }
}

proof fn lemma_reprojection_here_repeats<N: Numerics>(
    n: &N,
    depth: ImageFrame,
    depth_again: ImageFrame,
    depth_info: CameraModel,
    depth_info_again: CameraModel,
    camera_info: CameraModel,
    camera_info_again: CameraModel,
    camera_from_depth: Pose,
    units_per_meter: Scalar,
    a: ImageFrame,
    b: ImageFrame,
)
    requires
        all_repeatable(n),
        one_byte_order(),
        same_image(depth, depth_again),
        depth_info@ == depth_info_again@,
        camera_info@ == camera_info_again@,
        depth_sized(camera_info),
        reprojected_here(
            n,
            depth,
            depth_info,
            camera_info,
            camera_from_depth,
            units_per_meter,
            a,
        ),
        reprojected_here(
            n,
            depth_again,
            depth_info_again,
            camera_info_again,
            camera_from_depth,
            units_per_meter,
            b,
        ),
    ensures
        same_image(a, b),
{
    let oa = choose|order: ByteOrder| #[trigger]
        reprojected(
            n,
            depth,
            order,
            depth_info,
            camera_info,
            camera_from_depth,
            units_per_meter,
            a,
        ) && written_here(order);
    let ob = choose|order: ByteOrder| #[trigger]
        reprojected(
            n,
            depth_again,
            order,
            depth_info_again,
            camera_info_again,
            camera_from_depth,
            units_per_meter,
            b,
        ) && written_here(order);
    assert(oa == ob);
    law_reprojection_repeats(
        n,
        oa,
        depth,
        depth_again,
        depth_info,
        depth_info_again,
        camera_info,
        camera_info_again,
        camera_from_depth,
        units_per_meter,
        a,
        b,
    );
}

/// The readings up to a stamp are one list.
proof fn lemma_draining_repeats(
    pending: Seq<ImuReading>,
    newest_ns: i64,
    a: Seq<ImuReading>,
    left_a: Seq<ImuReading>,
    b: Seq<ImuReading>,
    left_b: Seq<ImuReading>,
)
    requires
        drained(pending, newest_ns, a, left_a),
        drained(pending, newest_ns, b, left_b),
    ensures
        a == b,
        left_a == left_b,
{
    if a.len() < b.len() {
        assert(pending[a.len() as int] == left_a[0]);
        assert(pending[a.len() as int] == b[a.len() as int]);
    }
    if b.len() < a.len() {
        assert(pending[b.len() as int] == left_b[0]);
        assert(pending[b.len() as int] == a[b.len() as int]);
    }
    assert(a =~= pending.take(a.len() as int));
    assert(b =~= pending.take(b.len() as int));
    assert(left_a =~= pending.skip(a.len() as int));
    assert(left_b =~= pending.skip(b.len() as int));
}

/// Giving a frame set out goes the same way every time.
proof fn lemma_sending_repeats<N: Numerics>(
    a: CuvslamCore<N>,
    b: CuvslamCore<N>,
    newest_ns: i64,
    x: Option<DepthChoice>,
    y: Option<DepthChoice>,
    next_a: CuvslamCore<N>,
    next_b: CuvslamCore<N>,
    step_a: Step,
    step_b: Step,
)
    requires
        visual_alike(a, b),
        a.images_complete(),
        x is Some ==> a.depth is Some,
        same_choice(x, y),
        sent(a, newest_ns, x, next_a, step_a),
        sent(b, newest_ns, y, next_b, step_b),
    ensures
        visual_alike(next_a, next_b),
        same_step(step_a, step_b),
{
    let ra = step_a->Track_0;
    let rb = step_b->Track_0;
    lemma_draining_repeats(
        a.pending_imu@,
        newest_ns,
        ra.imu@,
        next_a.pending_imu@,
        rb.imu@,
        next_b.pending_imu@,
    );
    lemma_places_alike(a.cameras@, b.cameras@);
    lemma_bare_rigs_alike(next_a.cameras@, next_b.cameras@);
    assert forall|i: int|
        #![trigger ra.images@[i]]
        #![trigger rb.images@[i]]
        0 <= i < ra.images@.len() implies {
        &&& same_image(ra.images@[i].frame, rb.images@[i].frame)
        &&& ra.images@[i].encoding == rb.images@[i].encoding
        &&& ra.images@[i].data_type == rb.images@[i].data_type
        &&& ra.images@[i].timestamp_ns == rb.images@[i].timestamp_ns
        &&& ra.images@[i].camera_index == rb.images@[i].camera_index
    } by {
        assert(a.cameras@[i].image is Some);
        assert(same_images(a.cameras@[i].image, b.cameras@[i].image));
        assert(ra.images@[i] == image_of(a.cameras@[i], i, newest_ns));
        assert(rb.images@[i] == image_of(b.cameras@[i], i, newest_ns));
    }
    assert(same_track_images(ra.images@, rb.images@));
    assert(same_track_images(ra.depths@, rb.depths@));
}

/// Rigs with the same images have the same stamps.
proof fn lemma_span_repeats(a: Seq<RigCamera>, b: Seq<RigCamera>, oldest: i64, newest: i64)
    requires
        same_cameras(a, b),
        forall|i: int| 0 <= i < a.len() ==> (#[trigger] a[i]).image is Some,
        stamps_span(a, oldest, newest),
    ensures
        stamps_span(b, oldest, newest),
{
    assert forall|i: int| 0 <= i < b.len() implies oldest <= ((
    #[trigger] b[i]).image->0).timestamp_ns <= newest by {
        assert(a[i].image is Some);
        assert(oldest <= (a[i].image->0).timestamp_ns <= newest);
    }
    let i = choose|i: int|
        0 <= i < a.len() && ((#[trigger] a[i]).image->0).timestamp_ns == oldest;
    let j = choose|i: int|
        0 <= i < a.len() && ((#[trigger] a[i]).image->0).timestamp_ns == newest;
    assert((b[i].image->0).timestamp_ns == oldest);
    assert((b[j].image->0).timestamp_ns == newest);
}

/// Asking for tracking goes the same way every time.
proof fn lemma_request_repeats<N: Numerics, T: TfLookup>(
    a: CuvslamCore<N>,
    b: CuvslamCore<N>,
    tf: &T,
    next_a: CuvslamCore<N>,
    next_b: CuvslamCore<N>,
    step_a: Step,
    step_b: Step,
)
    requires
        all_repeatable(&a.numerics),
        answers_repeat(tf),
        one_byte_order(),
        visual_alike(a, b),
        a.well_formed(),
        a.frame_set_complete(),
        requested(a, tf, next_a, step_a),
        requested(b, tf, next_b, step_b),
    ensures
        visual_alike(next_a, next_b),
        same_step(step_a, step_b),
{
    let (oa, na) = choose|oldest: i64, newest: i64| #[trigger]
        stamps_span(a.cameras@, oldest, newest) && requested_at(
            a,
            tf,
            oldest,
            newest,
            next_a,
            step_a,
        );
    let (ob, nb) = choose|oldest: i64, newest: i64| #[trigger]
        stamps_span(b.cameras@, oldest, newest) && requested_at(
            b,
            tf,
            oldest,
            newest,
            next_b,
            step_b,
        );
    lemma_span_repeats(a.cameras@, b.cameras@, oa, na);
    lemma_one_span(b.cameras@, oa, na, ob, nb);
    if na - oa > a.max_skew_ns {
    } else if a.last_ts_ns matches Some(last) && na <= last {
        lemma_places_alike(a.cameras@, b.cameras@);
        lemma_bare_rigs_alike(next_a.cameras@, next_b.cameras@);
    } else if a.mode is Rgbd {
        let (ma, x) = choose|mid: CuvslamCore<N>, choice: Option<DepthChoice>| #[trigger]
            aligned(a, tf, mid, choice) && if choice is Some {
                sent(mid, na, choice, next_a, step_a)
            } else {
                step_a is Idle && next_a == mid
            };
        let (mb, y) = choose|mid: CuvslamCore<N>, choice: Option<DepthChoice>| #[trigger]
            aligned(b, tf, mid, choice) && if choice is Some {
                sent(mid, na, choice, next_b, step_b)
            } else {
                step_b is Idle && next_b == mid
            };
        lemma_aligning_repeats(a, b, tf, ma, mb, x, y);
        if x is Some {
            assert(ma.images_complete());
            lemma_sending_repeats(ma, mb, na, x, y, next_a, next_b, step_a, step_b);
        }
    } else {
        lemma_sending_repeats(a, b, na, None, None, next_a, next_b, step_a, step_b);
    }
}

/// Two that are alike have complete frame sets together.
proof fn lemma_completeness_repeats<N: Numerics>(a: CuvslamCore<N>, b: CuvslamCore<N>)
    requires
        visual_alike(a, b),
    ensures
        a.frame_set_complete() == b.frame_set_complete(),
{
    assert(a.images_complete() == b.images_complete()) by {
        if a.images_complete() {
            assert forall|i: int| 0 <= i < b.cameras@.len() implies (
            #[trigger] b.cameras@[i]).image is Some by {
                assert(a.cameras@[i].image is Some);
            }
        }
        if b.images_complete() {
            assert forall|i: int| 0 <= i < a.cameras@.len() implies (
            #[trigger] a.cameras@[i]).image is Some by {
                assert(b.cameras@[i].image is Some);
            }
        }
    }
}

/// What an arrival leads to is the same every time.
proof fn lemma_advance_repeats<N: Numerics, T: TfLookup>(
    a: CuvslamCore<N>,
    b: CuvslamCore<N>,
    tf: &T,
    next_a: CuvslamCore<N>,
    next_b: CuvslamCore<N>,
    step_a: Step,
    step_b: Step,
)
    requires
        all_repeatable(&a.numerics),
        answers_repeat(tf),
        one_byte_order(),
        visual_alike(a, b),
        a.well_formed(),
        advanced(a, tf, next_a, step_a),
        advanced(b, tf, next_b, step_b),
    ensures
        visual_alike(next_a, next_b),
        same_step(step_a, step_b),
{
    lemma_completeness_repeats(a, b);
    if a.frame_set_complete() && !(a.tracker is Unbuildable) {
        if a.tracker is Absent {
            lemma_planning_repeats(a, b, tf, next_a, next_b, step_a, step_b);
        } else {
            lemma_request_repeats(a, b, tf, next_a, next_b, step_a, step_b);
        }
    }
}

/// Law: an image is taken the same way every time, and asks for the same.
pub proof fn law_image_repeats<N: Numerics, T: TfLookup>(
    a: CuvslamCore<N>,
    b: CuvslamCore<N>,
    img: ImageFrame,
    again: ImageFrame,
    tf: &T,
    next_a: CuvslamCore<N>,
    next_b: CuvslamCore<N>,
    step_a: Step,
    step_b: Step,
)
    requires
        all_repeatable(&a.numerics),
        answers_repeat(tf),
        one_byte_order(),
        visual_alike(a, b),
        a.well_formed(),
        a.tracker.settled(),
        same_image(img, again),
        image_taken(a, img, tf, next_a, step_a),
        image_taken(b, again, tf, next_b, step_b),
    ensures
        visual_alike(next_a, next_b),
        same_step(step_a, step_b),
{
    let sa = choose|sought: CuvslamCore<N>| #[trigger]
        rig_sought(a, tf, sought) && image_placed(sought, img, tf, next_a, step_a);
    let sb = choose|sought: CuvslamCore<N>| #[trigger]
        rig_sought(b, tf, sought) && image_placed(sought, again, tf, next_b, step_b);
    lemma_rig_sought_repeats(a, b, tf, sa, sb);
    let frame = img.frame_id@;
    assert(off_rig(sa.cameras@, frame) == off_rig(sb.cameras@, frame)) by {
        if off_rig(sa.cameras@, frame) {
            assert forall|i: int| 0 <= i < sb.cameras@.len() implies (
            #[trigger] sb.cameras@[i]).frame@ != frame by {
                assert(sa.cameras@[i].placement() == sb.cameras@[i].placement());
            }
        }
        if off_rig(sb.cameras@, frame) {
            assert forall|i: int| 0 <= i < sa.cameras@.len() implies (
            #[trigger] sa.cameras@[i]).frame@ != frame by {
                assert(sa.cameras@[i].placement() == sb.cameras@[i].placement());
            }
        }
    }
    if !off_rig(sa.cameras@, frame) {
        let (ia, pa) = choose|index: int, put: CuvslamCore<N>|
            {
                &&& camera_at(sa.cameras@, frame, index)
                &&& #[trigger] image_put(sa, index, img, put)
                &&& advanced(put, tf, next_a, step_a)
            };
        let (ib, pb) = choose|index: int, put: CuvslamCore<N>|
            {
                &&& camera_at(sb.cameras@, frame, index)
                &&& #[trigger] image_put(sb, index, again, put)
                &&& advanced(put, tf, next_b, step_b)
            };
        lemma_one_camera(sa.cameras@, sb.cameras@, frame, ia, ib);
        assert forall|i: int|
            #![trigger pa.cameras@[i]]
            #![trigger pb.cameras@[i]]
            0 <= i < pa.cameras@.len() implies pa.cameras@[i].placement()
            == pb.cameras@[i].placement() && same_images(
            pa.cameras@[i].image,
            pb.cameras@[i].image,
        ) by {
            assert(sa.cameras@[i].placement() == sb.cameras@[i].placement());
        }
        lemma_advance_repeats(pa, pb, tf, next_a, next_b, step_a, step_b);
    }
}

/// A frame is that of one camera.
proof fn lemma_one_camera(
    a: Seq<RigCamera>,
    b: Seq<RigCamera>,
    frame: Seq<char>,
    i: int,
    j: int,
)
    requires
        same_cameras(a, b),
        camera_at(a, frame, i),
        camera_at(b, frame, j),
    ensures
        i == j,
{
    assert(a[i].placement() == b[i].placement());
    assert(a[j].placement() == b[j].placement());
    if i < j {
        assert(b[i].frame@ != frame);
    }
    if j < i {
        assert(a[j].frame@ != frame);
    }
}

/// A depth image has one camera model.
proof fn lemma_depth_model_repeats<N: Numerics>(
    a: CuvslamCore<N>,
    b: CuvslamCore<N>,
    img: ImageFrame,
    again: ImageFrame,
    x: Option<CameraModel>,
    y: Option<CameraModel>,
)
    requires
        visual_alike(a, b),
        same_image(img, again),
        depth_model(a, img, x),
        depth_model(b, again, y),
    ensures
        same_models(x, y),
{
    let frame = img.frame_id@;
    if a.depth_info is None {
        if x is Some {
            let i = choose|i: int| #[trigger]
                camera_at(a.cameras@, frame, i) && a.cameras@[i].info == x->0;
            assert(a.cameras@[i].placement() == b.cameras@[i].placement());
            assert(b.cameras@[i].frame@ == frame);
            if y is Some {
                let j = choose|j: int| #[trigger]
                    camera_at(b.cameras@, frame, j) && b.cameras@[j].info == y->0;
                lemma_one_camera(a.cameras@, b.cameras@, frame, i, j);
            }
        } else if y is Some {
            let j = choose|j: int| #[trigger]
                camera_at(b.cameras@, frame, j) && b.cameras@[j].info == y->0;
            assert(a.cameras@[j].placement() == b.cameras@[j].placement());
            assert(a.cameras@[j].frame@ == frame);
        }
    }
}

/// A depth image's cloud is the same every time.
proof fn lemma_cloud_given_repeats<N: Numerics>(
    a: CuvslamCore<N>,
    b: CuvslamCore<N>,
    img: ImageFrame,
    again: ImageFrame,
    x: Option<PointCloud>,
    y: Option<PointCloud>,
)
    requires
        all_repeatable(&a.numerics),
        one_byte_order(),
        visual_alike(a, b),
        a.well_formed(),
        same_image(img, again),
        cloud_given(a, img, x),
        cloud_given(b, again, y),
    ensures
        same_clouds(x, y),
{
    let ta = a.config.frame_id_to_depth_units_per_meter;
    let tb = b.config.frame_id_to_depth_units_per_meter;
    let (ia, ua) = choose|info: Option<CameraModel>, units: Option<Scalar>|
        {
            &&& #[trigger] depth_model(a, img, info)
            &&& #[trigger] units_of(ta, img.frame_id@, units)
            &&& match (info, units) {
                (Some(model), Some(per_meter)) => x matches Some(cloud) && cloud_here(
                    a,
                    img,
                    model,
                    per_meter,
                    cloud,
                ),
                _ => x is None,
            }
        };
    let (ib, ub) = choose|info: Option<CameraModel>, units: Option<Scalar>|
        {
            &&& #[trigger] depth_model(b, again, info)
            &&& #[trigger] units_of(tb, again.frame_id@, units)
            &&& match (info, units) {
                (Some(model), Some(per_meter)) => y matches Some(cloud) && cloud_here(
                    b,
                    again,
                    model,
                    per_meter,
                    cloud,
                ),
                _ => y is None,
            }
        };
    lemma_depth_model_repeats(a, b, img, again, ia, ib);
    lemma_units_repeat(ta, tb, img.frame_id@, ua, ub);
    if ia is Some && ua is Some {
        let n = &a.numerics;
        let min = a.config.depth_cloud_min_range;
        let max = a.config.depth_cloud_max_range;
        let decimation = decimation_of(a.config.depth_cloud_decimation);
        let oa = choose|order: ByteOrder| #[trigger]
            cloud_of(n, img, order, ia->0, ua->0, min, max, decimation, x->0)
                && written_here(order);
        let ob = choose|order: ByteOrder| #[trigger]
            cloud_of(n, again, order, ib->0, ua->0, min, max, decimation, y->0)
                && written_here(order);
        assert(oa == ob);
        law_cloud_repeats(
            n,
            oa,
            img,
            again,
            ia->0,
            ib->0,
            ua->0,
            min,
            max,
            decimation,
            x->0,
            y->0,
        );
    }
}

/// Law: a depth image is taken the same way every time, gives the same cloud and asks for the
/// same.
pub proof fn law_depth_image_repeats<N: Numerics, T: TfLookup>(
    a: CuvslamCore<N>,
    b: CuvslamCore<N>,
    img: ImageFrame,
    again: ImageFrame,
    tf: &T,
    next_a: CuvslamCore<N>,
    next_b: CuvslamCore<N>,
    cloud_a: Option<PointCloud>,
    cloud_b: Option<PointCloud>,
    step_a: Step,
    step_b: Step,
)
    requires
        all_repeatable(&a.numerics),
        answers_repeat(tf),
        one_byte_order(),
        visual_alike(a, b),
        a.well_formed(),
        a.tracker.settled(),
        same_image(img, again),
        depth_taken(a, img, tf, next_a, cloud_a, step_a),
        depth_taken(b, again, tf, next_b, cloud_b, step_b),
    ensures
        visual_alike(next_a, next_b),
        same_clouds(cloud_a, cloud_b),
        same_step(step_a, step_b),
{
    if whole(img) {
        lemma_cloud_given_repeats(a, b, img, again, cloud_a, cloud_b);
        lemma_advance_repeats(
            CuvslamCore { depth: Some(img), ..a },
            CuvslamCore { depth: Some(again), ..b },
            tf,
            next_a,
            next_b,
            step_a,
            step_b,
        );
    }
}

/// Law: that the tracker has been made is taken the same way every time, and asks for the same.
pub proof fn law_tracker_built_repeats<N: Numerics, T: TfLookup>(
    a: CuvslamCore<N>,
    b: CuvslamCore<N>,
    tf: &T,
    next_a: CuvslamCore<N>,
    next_b: CuvslamCore<N>,
    step_a: Step,
    step_b: Step,
)
    requires
        all_repeatable(&a.numerics),
        answers_repeat(tf),
        one_byte_order(),
        visual_alike(a, b),
        a.well_formed(),
        a.tracker is Building,
        built(a, tf, next_a, step_a),
        built(b, tf, next_b, step_b),
    ensures
        visual_alike(next_a, next_b),
        same_step(step_a, step_b),
{
    let ra = CuvslamCore { tracker: TrackerState::Ready, ..a };
    let rb = CuvslamCore { tracker: TrackerState::Ready, ..b };
    lemma_completeness_repeats(ra, rb);
    if ra.frame_set_complete() {
        lemma_request_repeats(ra, rb, tf, next_a, next_b, step_a, step_b);
    }
}

/// What comes in at the visual half.
pub enum Sight {
    CameraInfo(CameraModel),
    ImuInfo(ImuNoiseModel),
    Imu(ImuSample),
    Image(ImageFrame),
    Depth(ImageFrame),
    DepthInfo(CameraModel),
    Built,
    BuildFailed(TrackerPlan),
    Reply(TrackReply),
}

/// Two arrivals that say the same.
pub open spec fn same_sight(a: Sight, b: Sight) -> bool {
    match (a, b) {
        (Sight::CameraInfo(x), Sight::CameraInfo(y)) => x@ == y@,
        (Sight::ImuInfo(x), Sight::ImuInfo(y)) => same_noise_model(x, y),
        (Sight::Imu(x), Sight::Imu(y)) => same_sample(x, y),
        (Sight::Image(x), Sight::Image(y)) => same_image(x, y),
        (Sight::Depth(x), Sight::Depth(y)) => same_image(x, y),
        (Sight::DepthInfo(x), Sight::DepthInfo(y)) => x@ == y@,
        (Sight::Built, Sight::Built) => true,
        (Sight::BuildFailed(x), Sight::BuildFailed(y)) => same_plan(x, y),
        (Sight::Reply(x), Sight::Reply(y)) => same_reply(x, y),
        _ => false,
    }
}

/// What the visual half gives out.
pub struct SightOutcome {
    pub step: Step,
    pub cloud: Option<PointCloud>,
    pub estimate: Option<OdometryEstimate>,
}

/// Two outcomes that are the same.
pub open spec fn same_outcome(a: SightOutcome, b: SightOutcome) -> bool {
    &&& same_step(a.step, b.step)
    &&& same_clouds(a.cloud, b.cloud)
    &&& same_output(a.estimate, b.estimate)
}

/// The visual half is in a state to take the arrival.
pub open spec fn awaited<N: Numerics>(core: CuvslamCore<N>, sight: Sight) -> bool {
    match sight {
        Sight::Imu(_) => true,
        Sight::DepthInfo(_) => true,
        Sight::Built => core.tracker is Building,
        Sight::BuildFailed(_) => core.tracker is Building,
        Sight::Reply(_) => core.tracker is Tracking,
        _ => core.tracker.settled(),
    }
}

/// What the visual half does with an arrival, and what it gives out.
pub open spec fn seen_to<N: Numerics, T: TfLookup>(
    before: CuvslamCore<N>,
    sight: Sight,
    tf: &T,
    after: CuvslamCore<N>,
    out: SightOutcome,
) -> bool {
    match sight {
        Sight::CameraInfo(info) => {
            &&& camera_info_taken(before, info, tf, after)
            &&& out.step is Idle && out.cloud is None && out.estimate is None
        },
        Sight::ImuInfo(info) => {
            &&& imu_info_taken(before, info, tf, after)
            &&& out.step is Idle && out.cloud is None && out.estimate is None
        },
        Sight::Imu(msg) => {
            &&& imu_queued(before, msg, after)
            &&& out.step is Idle && out.cloud is None && out.estimate is None
        },
        Sight::Image(img) => {
            &&& image_taken(before, img, tf, after, out.step)
            &&& out.cloud is None && out.estimate is None
        },
        Sight::Depth(img) => {
            &&& depth_taken(before, img, tf, after, out.cloud, out.step)
            &&& out.estimate is None
        },
        Sight::DepthInfo(info) => {
            &&& after == depth_info_taken(before, info)
            &&& out.step is Idle && out.cloud is None && out.estimate is None
        },
        Sight::Built => {
            &&& built(before, tf, after, out.step)
            &&& out.cloud is None && out.estimate is None
        },
        Sight::BuildFailed(plan) => {
            &&& build_failed(before, plan, after, out.step)
            &&& out.cloud is None && out.estimate is None
        },
        Sight::Reply(reply) => {
            &&& replied(before, before.tracker->newest_ns, reply, after, out.estimate)
            &&& out.step is Idle && out.cloud is None
        },
    }
}

/// Arrivals seen to one after the other: the core before each and after the last one, the
/// transforms as they were at each, and what was given out.
pub open spec fn watched_from<N: Numerics, T: TfLookup>(
    cores: Seq<CuvslamCore<N>>,
    tfs: Seq<T>,
    sights: Seq<Sight>,
    outs: Seq<SightOutcome>,
) -> bool {
    &&& cores.len() == sights.len() + 1
    &&& tfs.len() == sights.len()
    &&& outs.len() == sights.len()
    &&& forall|i: int| 0 <= i < cores.len() ==> (#[trigger] cores[i]).well_formed()
    &&& forall|i: int|
        0 <= i < sights.len() ==> awaited(cores[i], #[trigger] sights[i]) && seen_to(
            cores[i],
            sights[i],
            &tfs[i],
            cores[i + 1],
            outs[i],
        )
}

/// A recording played through the visual half, from the start.
pub open spec fn watched<N: Numerics, T: TfLookup>(
    cores: Seq<CuvslamCore<N>>,
    tfs: Seq<T>,
    sights: Seq<Sight>,
    outs: Seq<SightOutcome>,
) -> bool {
    watched_from(cores, tfs, sights, outs) && untouched(cores[0])
}

/// Law: once both backends have failed there is no tracker, nothing is asked for and no odometry
/// is given out, whatever arrives from then on.
pub proof fn law_no_odometry_without_a_backend<N: Numerics, T: TfLookup>(
    cores: Seq<CuvslamCore<N>>,
    tfs: Seq<T>,
    sights: Seq<Sight>,
    outs: Seq<SightOutcome>,
    i: int,
)
    requires
        watched_from(cores, tfs, sights, outs),
        cores[0].tracker is Unbuildable,
        0 <= i <= sights.len(),
    ensures
        cores[i].tracker is Unbuildable,
        forall|k: int|
            0 <= k < i ==> (#[trigger] outs[k]).step is Idle && outs[k].estimate is None,
    decreases i,
{
    if i > 0 {
        let k = i - 1;
        law_no_odometry_without_a_backend(cores, tfs, sights, outs, k);
        let sight = sights[k];
        assert(awaited(cores[k], sight));
        assert(seen_to(cores[k], sight, &tfs[k], cores[i], outs[k]));
        match sight {
            Sight::Image(img) => {
                law_unbuildable_is_for_ever(
                    cores[k],
                    img,
                    &tfs[k],
                    cores[i],
                    outs[k].cloud,
                    outs[k].step,
                );
            },
            Sight::Depth(img) => {
                law_unbuildable_is_for_ever(
                    cores[k],
                    img,
                    &tfs[k],
                    cores[i],
                    outs[k].cloud,
                    outs[k].step,
                );
            },
            Sight::CameraInfo(info) => {
                law_camera_info_leaves_the_track_alone(cores[k], info, &tfs[k], cores[i]);
            },
            _ => {},
        }
    }
}

/// One arrival is seen to the same way every time.
pub proof fn lemma_seeing_to_repeats<N: Numerics, T: TfLookup>(
    a: CuvslamCore<N>,
    b: CuvslamCore<N>,
    sight: Sight,
    again: Sight,
    tf: &T,
    next_a: CuvslamCore<N>,
    next_b: CuvslamCore<N>,
    out_a: SightOutcome,
    out_b: SightOutcome,
)
    requires
        all_repeatable(&a.numerics),
        answers_repeat(tf),
        one_byte_order(),
        visual_alike(a, b),
        a.well_formed(),
        awaited(a, sight),
        same_sight(sight, again),
        seen_to(a, sight, tf, next_a, out_a),
        seen_to(b, again, tf, next_b, out_b),
    ensures
        visual_alike(next_a, next_b),
        same_outcome(out_a, out_b),
{
    match (sight, again) {
        (Sight::CameraInfo(x), Sight::CameraInfo(y)) => {
            law_camera_info_repeats(a, b, x, y, tf, next_a, next_b);
        },
        (Sight::ImuInfo(x), Sight::ImuInfo(y)) => {
            law_imu_info_repeats(a, b, x, y, tf, next_a, next_b);
        },
        (Sight::Imu(x), Sight::Imu(y)) => {
            law_visual_imu_repeats(a, b, x, y, next_a, next_b);
        },
        (Sight::Image(x), Sight::Image(y)) => {
            law_image_repeats(a, b, x, y, tf, next_a, next_b, out_a.step, out_b.step);
        },
        (Sight::Depth(x), Sight::Depth(y)) => {
            law_depth_image_repeats(
                a,
                b,
                x,
                y,
                tf,
                next_a,
                next_b,
                out_a.cloud,
                out_b.cloud,
                out_a.step,
                out_b.step,
            );
        },
        (Sight::Built, Sight::Built) => {
            law_tracker_built_repeats(a, b, tf, next_a, next_b, out_a.step, out_b.step);
        },
        (Sight::Reply(x), Sight::Reply(y)) => {
            law_track_reply_repeats(
                a,
                b,
                a.tracker->newest_ns,
                x,
                y,
                next_a,
                next_b,
                out_a.estimate,
                out_b.estimate,
            );
        },
        _ => {},
    }
}

/// Law: replaying a recording through the visual half is deterministic. Two of them with
/// configurations that say the same and the same repeatable arithmetic, given the same recording,
/// the same answers about mounts and the same replies of the tracker, are alike at every point of
/// it, ask for the same and give out the same, bit for bit.
pub proof fn law_visual_recording_repeats<N: Numerics, T: TfLookup>(
    a: Seq<CuvslamCore<N>>,
    b: Seq<CuvslamCore<N>>,
    tfs: Seq<T>,
    first: Seq<Sight>,
    second: Seq<Sight>,
    outs_a: Seq<SightOutcome>,
    outs_b: Seq<SightOutcome>,
    i: int,
)
    requires
        watched(a, tfs, first, outs_a),
        watched(b, tfs, second, outs_b),
        all_repeatable(&a[0].numerics),
        one_byte_order(),
        a[0].numerics == b[0].numerics,
        same_visual_config(a[0].config, b[0].config),
        forall|k: int| 0 <= k < tfs.len() ==> answers_repeat(&#[trigger] tfs[k]),
        forall|k: int| 0 <= k < first.len() ==> same_sight(#[trigger] first[k], second[k]),
        0 <= i <= first.len(),
    ensures
        visual_alike(a[i], b[i]),
        a[i].numerics == a[0].numerics,
        forall|k: int| 0 <= k < i ==> same_outcome(#[trigger] outs_a[k], outs_b[k]),
    decreases i,
{
    if i == 0 {
        law_new_visual_cores_are_alike(a[0], b[0]);
    } else {
        let k = i - 1;
        law_visual_recording_repeats(a, b, tfs, first, second, outs_a, outs_b, k);
        assert(same_sight(first[k], second[k]));
        assert(awaited(a[k], first[k]) && seen_to(a[k], first[k], &tfs[k], a[i], outs_a[k]));
        assert(seen_to(b[k], second[k], &tfs[k], b[i], outs_b[k]));
        assert(a[k].well_formed());
        assert(answers_repeat(&tfs[k]));
        lemma_seeing_to_repeats(
            a[k],
            b[k],
            first[k],
            second[k],
            &tfs[k],
            a[i],
            b[i],
            outs_a[k],
            outs_b[k],
        );
        lemma_numerics_last(a[k], first[k], &tfs[k], a[i], outs_a[k]);
    }
}

/// The arithmetic is the core's for good.
pub proof fn lemma_numerics_last<N: Numerics, T: TfLookup>(
    before: CuvslamCore<N>,
    sight: Sight,
    tf: &T,
    after: CuvslamCore<N>,
    out: SightOutcome,
)
    requires
        seen_to(before, sight, tf, after, out),
    ensures
        after.numerics == before.numerics,
{
    match sight {
        Sight::Image(img) => {
            law_image_leaves_the_track_alone(before, img, tf, after, out.step);
        },
        Sight::Depth(img) => {
            law_depth_leaves_the_track_alone(before, img, tf, after, out.cloud, out.step);
        },
        Sight::CameraInfo(info) => {
            law_camera_info_leaves_the_track_alone(before, info, tf, after);
        },
        Sight::Built => {
            let ready = CuvslamCore { tracker: TrackerState::Ready, ..before };
            if ready.frame_set_complete() {
                lemma_request_is_quiet(ready, tf, after, out.step);
            }
        },
        _ => {},
    }
}

} // verus!
