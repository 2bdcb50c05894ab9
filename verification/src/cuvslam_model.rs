//! What the visual odometry keeps, and what each input does to it.
//!
//! The tracker keeps one world frame for its life; nothing is emitted while it is lost.

use std::collections::VecDeque;

use vstd::prelude::*;

use crate::cuvslam_config::CuvslamOdometryConfig;
use crate::depth_cloud::cloud_of;
use crate::depth_pixels::{whole, written_here, ByteOrder};
use crate::depth_reproject::{depth_sized, reprojected};
use crate::formulas::{congruent_of, milliseconds_of, per_second_of};
use crate::numerics::Numerics;
use crate::ordered_map::{holds, inserted, OrderedMap};
use crate::rig::{cameras_wanted, frames_known, imageless, names, placements, rig_of, CameraInfos};
use crate::rig::{Placement, RigCamera};
use crate::scalar::{spec_larger, Scalar, Single};
use crate::stamp::{counted, span};
use crate::text::decimal;
use crate::tracker::{adjoint_of, cuv_pose_of, distortion_of, narrowed, pose_of_cuv};
use crate::tracker::{spec_image_encoding, spec_odometry_mode, CuvPose, Mode, DATA_UINT16};
use crate::tracker::{DATA_UINT8, ENCODING_MONO};
use crate::types::{looked_up, CameraModel, ImageFrame, ImuNoiseModel, ImuSample, Matrix6};
use crate::types::{OdometryEstimate, PointCloud, Pose, SingleVector, TfLookup, Twist, Vector3};

verus! {

/// The tracker asks for stamps of one frame set within a millisecond, unless another spread is
/// configured.
pub const MAX_PAIR_SKEW_NS: i64 = 1_000_000;

/// A stall long enough to overflow this has outlived any use the buffered IMU had.
pub const MAX_PENDING_IMU: usize = 2048;

/// An IMU sample as the tracker takes it.
#[derive(Clone, Copy, Debug, PartialEq, Eq, Structural)]
pub struct ImuReading {
    pub timestamp_ns: i64,
    pub linear_accelerations: SingleVector,
    pub angular_velocities: SingleVector,
}

/// A camera as the tracker takes it.
pub struct CameraParams {
    pub width: i32,
    pub height: i32,
    pub principal: (Single, Single),
    pub focal: (Single, Single),
    pub rig_from_camera: CuvPose,
    pub distortion_model: u8,
    pub distortion_parameters: Vec<Single>,
}

/// The IMU as the tracker takes it.
#[derive(Clone, Copy, Debug, PartialEq, Eq, Structural)]
pub struct ImuCalibration {
    pub rig_from_imu: CuvPose,
    pub gyroscope_noise_density: Single,
    pub gyroscope_random_walk: Single,
    pub accelerometer_noise_density: Single,
    pub accelerometer_random_walk: Single,
    pub frequency: Single,
}

/// The tracker's settings.
#[derive(Clone, Copy, Debug, PartialEq, Eq, Structural)]
pub struct TrackerConfig {
    pub odometry_mode: u8,
    pub use_gpu: bool,
    pub rectified_stereo_camera: bool,
    pub rgbd_depth_scale_factor: Single,
    pub rgbd_depth_camera_id: i32,
}

/// What a tracker is made from.
pub struct TrackerPlan {
    pub cameras: Vec<CameraParams>,
    pub imu: Option<ImuCalibration>,
    pub config: TrackerConfig,
}

/// An image as the tracker takes it.
pub struct TrackImage {
    pub frame: ImageFrame,
    pub encoding: u8,
    pub data_type: u8,
    pub timestamp_ns: i64,
    pub camera_index: u32,
}

/// A frame set to be tracked, after the IMU readings up to it have been registered in order.
pub struct TrackRequest {
    pub imu: Vec<ImuReading>,
    pub images: Vec<TrackImage>,
    pub depths: Vec<TrackImage>,
}

/// What the caller has to do next.
pub enum Step {
    /// Nothing.
    Idle,
    /// Make a tracker, and say whether that worked.
    Build(TrackerPlan),
    /// Track a frame set, and say what came of it.
    Track(TrackRequest),
}

/// What came of tracking a frame set.
pub enum TrackReply {
    /// The tracker failed.
    Failed,
    /// The tracker has an estimate; without a pose it is lost.
    Estimate { timestamp_ns: i64, world_from_rig: Option<(CuvPose, Matrix6)> },
}

/// How far the tracker is.
#[derive(Clone, Copy, Debug, PartialEq, Eq, Structural)]
pub enum TrackerState {
    /// There is none yet.
    Absent,
    /// One is being made, with the configured backend or the other one.
    Building { fallback: bool },
    /// It waits for a frame set.
    Ready,
    /// It has been given a frame set whose newest stamp this is.
    Tracking { newest_ns: i64 },
    /// Both backends failed. Nothing about the rig changes later, so a retry would only repeat
    /// this.
    Unbuildable,
}

impl TrackerState {
    /// There is a tracker.
    pub open spec fn exists_now(self) -> bool {
        self is Ready || self is Tracking
    }

    /// Nothing is outstanding.
    pub open spec fn settled(self) -> bool {
        self is Absent || self is Ready || self is Unbuildable
    }
}

/// Where the rig is on the body, fixed when the tracker is made.
#[derive(Clone, Copy, Debug)]
pub struct RigMount {
    pub base_from_rig: Pose,
    pub rig_from_base: Pose,
    /// Adjoint of base_from_rig.
    pub covariance_adjoint: Matrix6,
}

/// What the visual odometry has seen and done so far.
#[derive(Clone, Copy, Debug, PartialEq, Eq, Structural)]
pub struct CuvslamCounters {
    pub frames: u64,
    pub tracked_frames: u64,
    /// Times that tracking was lost.
    pub segment_id: u64,
    pub imu_samples: u64,
    /// Samples from before there was a tracker.
    pub imu_dropped: u64,
    pub skew_rejects: u64,
    pub depth_reprojected: u64,
    pub covariance_gated: u64,
    pub speed_gated: u64,
    pub unplaced_images: u64,
}

impl CuvslamCounters {
    pub open spec fn spec_none() -> CuvslamCounters {
        CuvslamCounters {
            frames: 0,
            tracked_frames: 0,
            segment_id: 0,
            imu_samples: 0,
            imu_dropped: 0,
            skew_rejects: 0,
            depth_reprojected: 0,
            covariance_gated: 0,
            speed_gated: 0,
            unplaced_images: 0,
        }
    }
}

pub struct CuvslamCore<N: Numerics> {
    pub numerics: N,
    pub config: CuvslamOdometryConfig,
    pub mode: Mode,
    /// The spread that the stamps of one frame set may have.
    pub max_skew_ns: i64,
    /// The rig, in the tracker's camera order.
    pub cameras: Vec<RigCamera>,
    pub camera_info_by_frame: CameraInfos,
    pub imu_model: Option<ImuNoiseModel>,
    /// The tracker needs non-decreasing stamps, but a caller's images can overtake its IMU.
    pub pending_imu: VecDeque<ImuReading>,
    pub tracker: TrackerState,
    pub depth: Option<ImageFrame>,
    pub depth_info: Option<CameraModel>,
    pub camera_from_depth: Option<Pose>,
    pub last_ts_ns: Option<i64>,
    pub world_from_base: Option<Pose>,
    pub mount: Option<RigMount>,
    pub rebase: Option<Pose>,
    pub covariance: Matrix6,
    pub previous_raw: Option<Pose>,
    pub previous_raw_ns: i64,
    pub was_tracking: bool,
    pub counters: CuvslamCounters,
}

/// The message for an IMU outside stereo.
pub open spec fn imu_refused(camera_mode: Seq<char>) -> Seq<char> {
    "config: enable_imu requires camera_mode 'stereo'; cuVSLAM has no inertial "@ + camera_mode
        + " mode"@
}

/// The message for a number of depth scales that is not one.
pub open spec fn scales_refused(count: nat) -> Seq<char> {
    "config: camera_mode 'rgbd' needs exactly one frame_id_to_depth_units_per_meter entry, got "@
        + decimal(count)
}

/// What is wrong with a configuration: the first of an unknown mode, an IMU outside stereo, and
/// a number of depth scales that is not one for rgbd. The tracker carries one global depth scale
/// factor, so one depth stream is all that mode can serve.
pub open spec fn config_fault(config: CuvslamOdometryConfig, fault: Seq<char>) -> bool {
    let name = config.camera_mode@;
    let scales = config.frame_id_to_depth_units_per_meter.entries@.len();
    if forall|mode: Mode| name != #[trigger] mode.name() {
        fault == Mode::unknown(name)
    } else if config.enable_imu && name != Mode::Stereo.name() {
        fault == imu_refused(name)
    } else {
        name == Mode::Rgbd.name() && scales != 1 && fault == scales_refused(scales)
    }
}

/// The configuration names a mode, has an IMU only in stereo, and one depth scale for rgbd.
pub open spec fn config_usable(config: CuvslamOdometryConfig, mode: Mode) -> bool {
    &&& config.camera_mode@ == mode.name()
    &&& config.enable_imu ==> mode is Stereo
    &&& mode is Rgbd ==> config.frame_id_to_depth_units_per_meter.entries@.len() == 1
}

/// `limit` is the spread that the stamps of one frame set may have: a configured one that is not
/// above zero stands for a millisecond.
pub open spec fn skew_limit_of<N: Numerics>(n: &N, max_skew_ms: Scalar, limit: i64) -> bool {
    if max_skew_ms.positive() {
        milliseconds_of(n, max_skew_ms, limit)
    } else {
        limit == MAX_PAIR_SKEW_NS
    }
}

/// The core has seen nothing yet.
pub open spec fn untouched<N: Numerics>(core: CuvslamCore<N>) -> bool {
    &&& core.cameras@.len() == 0
    &&& core.camera_info_by_frame.entries@.len() == 0
    &&& core.imu_model is None
    &&& core.pending_imu@.len() == 0
    &&& core.tracker is Absent
    &&& core.depth is None
    &&& core.depth_info is None
    &&& core.camera_from_depth is None
    &&& core.last_ts_ns is None
    &&& core.world_from_base is None
    &&& core.mount is None
    &&& core.rebase is None
    &&& core.covariance.blank()
    &&& core.previous_raw is None
    &&& core.previous_raw_ns == 0
    &&& !core.was_tracking
    &&& core.counters == CuvslamCounters::spec_none()
}

/// The rig as it is after looking for it: a rig that is there stays. Otherwise the cameras are
/// those of the configuration or, if it names none, those that camera_info has told of, once there
/// are as many as the mode uses; and all of them are placed, or none.
pub open spec fn rig_sought<N: Numerics, T: TfLookup>(
    before: CuvslamCore<N>,
    tf: &T,
    after: CuvslamCore<N>,
) -> bool {
    let discovered = before.config.camera_frames@.len() == 0;
    let infos = before.camera_info_by_frame;
    if before.cameras@.len() > 0 || (discovered && infos.entries@.len() != cameras_wanted(
        before.mode,
    )) {
        after == before
    } else {
        rig_sought_among(before, tf, frames_wanted(before), discovered, after)
    }
}

/// The frames of the cameras that the rig is to have.
pub open spec fn frames_wanted<N: Numerics>(core: CuvslamCore<N>) -> Seq<Seq<char>> {
    if core.config.camera_frames@.len() == 0 {
        frames_known(core.camera_info_by_frame)
    } else {
        names(core.config.camera_frames@)
    }
}

/// See [`rig_sought`].
pub open spec fn rig_sought_among<N: Numerics, T: TfLookup>(
    before: CuvslamCore<N>,
    tf: &T,
    frames: Seq<Seq<char>>,
    discovered: bool,
    after: CuvslamCore<N>,
) -> bool {
    exists|rig: Option<Seq<Placement>>|
        {
            &&& #[trigger] rig_of(
                &before.numerics,
                tf,
                before.config.rig_frame_name(),
                before.camera_info_by_frame,
                frames,
                discovered,
                rig,
            )
            &&& match rig {
                Some(placed) => {
                    &&& placements(after.cameras@) == placed
                    &&& imageless(after.cameras@)
                    &&& after == (CuvslamCore { cameras: after.cameras, ..before })
                },
                None => after == before,
            }
        }
}

/// What camera_info does: it is kept under its frame, and the rig is looked for. The rig is fixed
/// once there is a tracker.
pub open spec fn camera_info_taken<N: Numerics, T: TfLookup>(
    before: CuvslamCore<N>,
    info: CameraModel,
    tf: &T,
    after: CuvslamCore<N>,
) -> bool {
    if before.tracker.exists_now() {
        after == before
    } else {
        exists|key: String, infos: CameraInfos|
            {
                &&& key@ == info.frame_id@
                &&& #[trigger] inserted(
                    before.camera_info_by_frame.entries@,
                    key,
                    info,
                    infos.entries@,
                )
                &&& rig_sought(CuvslamCore { camera_info_by_frame: infos, ..before }, tf, after)
            }
    }
}

/// What the IMU's noise model does: it is kept, and the rig is looked for. It is fixed once there
/// is a tracker.
pub open spec fn imu_info_taken<N: Numerics, T: TfLookup>(
    before: CuvslamCore<N>,
    info: ImuNoiseModel,
    tf: &T,
    after: CuvslamCore<N>,
) -> bool {
    if before.tracker.exists_now() {
        after == before
    } else {
        rig_sought(CuvslamCore { imu_model: Some(info), ..before }, tf, after)
    }
}

/// `r` is a sample as the tracker takes it.
pub open spec fn reading_of<N: Numerics>(n: &N, msg: ImuSample, r: ImuReading) -> bool {
    &&& r.timestamp_ns == msg.timestamp_ns
    &&& narrowed(n, msg.linear_acceleration, r.linear_accelerations)
    &&& narrowed(n, msg.angular_velocity, r.angular_velocities)
}

/// The newest of the readings, as many as are kept.
pub open spec fn capped(pending: Seq<ImuReading>) -> Seq<ImuReading> {
    if pending.len() > MAX_PENDING_IMU {
        pending.skip(pending.len() - MAX_PENDING_IMU)
    } else {
        pending
    }
}

/// What an IMU sample does: it waits for the next frame set, or counts as dropped if there is no
/// tracker.
pub open spec fn imu_queued<N: Numerics>(
    before: CuvslamCore<N>,
    msg: ImuSample,
    after: CuvslamCore<N>,
) -> bool {
    if before.tracker.exists_now() {
        &&& exists|r: ImuReading| #[trigger]
            reading_of(&before.numerics, msg, r) && after.pending_imu@ == capped(
                before.pending_imu@.push(r),
            )
        &&& after == (CuvslamCore {
            pending_imu: after.pending_imu,
            counters: CuvslamCounters {
                imu_samples: counted(before.counters.imu_samples),
                ..before.counters
            },
            ..before
        })
    } else {
        after == (CuvslamCore {
            counters: CuvslamCounters {
                imu_dropped: counted(before.counters.imu_dropped),
                ..before.counters
            },
            ..before
        })
    }
}

/// `m` is where the rig is, with what follows from it.
pub open spec fn mount_of<N: Numerics>(n: &N, base_from_rig: Pose, m: RigMount) -> bool {
    &&& m.base_from_rig == base_from_rig
    &&& call_ensures(N::inverse, (n, &base_from_rig), m.rig_from_base)
    &&& adjoint_of(n, base_from_rig, m.covariance_adjoint)
}

/// `p` is a camera of the rig as the tracker takes it.
pub open spec fn params_of<N: Numerics>(n: &N, c: Placement, p: CameraParams) -> bool {
    &&& p.width == c.info.width
    &&& p.height == c.info.height
    &&& call_ensures(N::narrow, (n, c.info.intrinsics[2]), p.principal.0)
    &&& call_ensures(N::narrow, (n, c.info.intrinsics[5]), p.principal.1)
    &&& call_ensures(N::narrow, (n, c.info.intrinsics[0]), p.focal.0)
    &&& call_ensures(N::narrow, (n, c.info.intrinsics[4]), p.focal.1)
    &&& cuv_pose_of(n, c.rig_from_camera, p.rig_from_camera)
    &&& distortion_of(n, c.info.distortion, p.distortion_model, p.distortion_parameters@)
}

/// `c` is the IMU as the tracker takes it.
pub open spec fn calibration_of<N: Numerics>(
    n: &N,
    model: ImuNoiseModel,
    rig_from_imu: Pose,
    c: ImuCalibration,
) -> bool {
    &&& cuv_pose_of(n, rig_from_imu, c.rig_from_imu)
    &&& call_ensures(N::narrow, (n, model.gyro_noise_density), c.gyroscope_noise_density)
    &&& call_ensures(N::narrow, (n, model.gyro_random_walk), c.gyroscope_random_walk)
    &&& call_ensures(N::narrow, (n, model.accel_noise_density), c.accelerometer_noise_density)
    &&& call_ensures(N::narrow, (n, model.accel_random_walk), c.accelerometer_random_walk)
    &&& call_ensures(N::narrow, (n, model.frequency), c.frequency)
}

/// `t` are the tracker's settings. A rectified pair is a matter of stereo only. Depth is delivered
/// in camera 0's frame, with the one configured scale.
pub open spec fn settings_of<N: Numerics>(core: CuvslamCore<N>, t: TrackerConfig) -> bool {
    let units = core.config.frame_id_to_depth_units_per_meter.entries@;
    &&& t.odometry_mode == spec_odometry_mode(core.mode, core.config.enable_imu)
    &&& t.use_gpu == core.config.use_gpu
    &&& t.rectified_stereo_camera == (core.config.rectified && core.mode is Stereo)
    &&& if core.mode is Rgbd {
        &&& call_ensures(N::narrow, (&core.numerics, units[0].1), t.rgbd_depth_scale_factor)
        &&& t.rgbd_depth_camera_id == 0
    } else {
        &&& t.rgbd_depth_scale_factor == Single::one()
        &&& t.rgbd_depth_camera_id == -1
    }
}

/// The plan is that of the core's rig and settings, with this IMU.
pub open spec fn plan_of<N: Numerics>(
    core: CuvslamCore<N>,
    imu: Option<ImuCalibration>,
    plan: TrackerPlan,
) -> bool {
    &&& plan.cameras@.len() == core.cameras@.len()
    &&& forall|i: int|
        0 <= i < core.cameras@.len() ==> params_of(
            &core.numerics,
            core.cameras@[i].placement(),
            #[trigger] plan.cameras@[i],
        )
    &&& plan.imu == imu
    &&& settings_of(core, plan.config)
}

/// The IMU for the plan: none unless the tracker uses one. Outside that it has to be known and
/// placed, or there is no plan yet.
pub open spec fn imu_planned<N: Numerics, T: TfLookup>(
    core: CuvslamCore<N>,
    tf: &T,
    r: Option<Option<ImuCalibration>>,
) -> bool {
    if !core.config.enable_imu {
        r == Some(None::<ImuCalibration>)
    } else {
        match core.imu_model {
            None => r is None,
            Some(model) => exists|pose: Option<Pose>|
                {
                    &&& #[trigger] looked_up(
                        tf,
                        core.config.rig_frame_name(),
                        model.frame_id@,
                        pose,
                    )
                    &&& match pose {
                        None => r is None,
                        Some(rig_from_imu) => r matches Some(Some(c)) && calibration_of(
                            &core.numerics,
                            model,
                            rig_from_imu,
                            c,
                        ),
                    }
                },
        }
    }
}

/// Without a tracker one is asked for: once the rig is placed against the body and the IMU is
/// known, a tracker is to be made.
pub open spec fn planned<N: Numerics, T: TfLookup>(
    before: CuvslamCore<N>,
    tf: &T,
    after: CuvslamCore<N>,
    step: Step,
) -> bool {
    exists|pose: Option<Pose>|
        {
            &&& #[trigger] looked_up(
                tf,
                before.config.output_frame_id@,
                before.config.rig_frame_name(),
                pose,
            )
            &&& match pose {
                None => after == before && step is Idle,
                Some(base_from_rig) => exists|m: RigMount|
                    {
                        &&& #[trigger] mount_of(&before.numerics, base_from_rig, m)
                        &&& planned_on(
                            CuvslamCore { mount: Some(m), ..before },
                            tf,
                            after,
                            step,
                        )
                    },
            }
        }
}

/// What looking for a tracker does: nothing if there is one, or if both backends have failed.
pub open spec fn tracker_sought<N: Numerics, T: TfLookup>(
    before: CuvslamCore<N>,
    tf: &T,
    after: CuvslamCore<N>,
    step: Step,
) -> bool {
    if before.tracker is Absent {
        planned(before, tf, after, step)
    } else {
        after == before && step is Idle
    }
}

/// See [`planned`]: the rig is placed.
pub open spec fn planned_on<N: Numerics, T: TfLookup>(
    mounted: CuvslamCore<N>,
    tf: &T,
    after: CuvslamCore<N>,
    step: Step,
) -> bool {
    exists|imu: Option<Option<ImuCalibration>>|
        {
            &&& #[trigger] imu_planned(mounted, tf, imu)
            &&& match imu {
                None => after == mounted && step is Idle,
                Some(calibration) => {
                    &&& after == (CuvslamCore {
                        tracker: TrackerState::Building { fallback: false },
                        ..mounted
                    })
                    &&& step matches Step::Build(plan) && plan_of(mounted, calibration, plan)
                },
            }
        }
}

/// `units` are the raw depth units per metre of this frame, if it has an entry.
pub open spec fn units_of(
    table: OrderedMap<String, Scalar>,
    frame: Seq<char>,
    units: Option<Scalar>,
) -> bool {
    match units {
        Some(u) => exists|i: int|
            {
                &&& 0 <= i < table.entries@.len()
                &&& (#[trigger] table.entries@[i]).0@ == frame
                &&& table.entries@[i].1 == u
            },
        None => !holds(table.entries@, (frame, Seq::empty())),
    }
}

/// Depth for the tracker.
pub enum DepthChoice {
    /// The depth image as it is.
    Passthrough,
    /// The depth image as the rig camera sees it.
    Aligned(ImageFrame),
}

/// The tracker needs depth pixel by pixel in the rig camera's image. Depth whose frame has no
/// entry in the table of scales is dropped, wherever it comes from.
pub open spec fn aligned<N: Numerics, T: TfLookup>(
    before: CuvslamCore<N>,
    tf: &T,
    after: CuvslamCore<N>,
    choice: Option<DepthChoice>,
) -> bool {
    exists|units: Option<Scalar>|
        {
            &&& #[trigger] units_of(
                before.config.frame_id_to_depth_units_per_meter,
                (before.depth->0).frame_id@,
                units,
            )
            &&& match units {
                None => after == before && choice is None,
                Some(units_per_meter) => aligned_at(before, tf, units_per_meter, after, choice),
            }
        }
}

/// See [`aligned`]: the depth has a scale. Depth in the rig camera's own frame is as it should be;
/// any other is reprojected, once the depth camera is known and placed against the rig camera.
pub open spec fn aligned_at<N: Numerics, T: TfLookup>(
    before: CuvslamCore<N>,
    tf: &T,
    units_per_meter: Scalar,
    after: CuvslamCore<N>,
    choice: Option<DepthChoice>,
) -> bool {
    let depth = before.depth->0;
    let camera = before.cameras@[0];
    if depth.frame_id@ == camera.frame@ {
        after == before && choice == Some(DepthChoice::Passthrough)
    } else if before.depth_info is None {
        after == before && choice is None
    } else {
        exists|pose: Option<Pose>|
            {
                &&& #[trigger] depth_placed(before, tf, pose)
                &&& match pose {
                    None => after == before && choice is None,
                    Some(camera_from_depth) => reprojected_from(
                        CuvslamCore { camera_from_depth: Some(camera_from_depth), ..before },
                        camera_from_depth,
                        units_per_meter,
                        after,
                        choice,
                    ),
                }
            }
    }
}

/// Where the depth camera is against the rig camera: as found before, or as the transforms have
/// it.
pub open spec fn depth_placed<N: Numerics, T: TfLookup>(
    core: CuvslamCore<N>,
    tf: &T,
    pose: Option<Pose>,
) -> bool {
    if core.camera_from_depth is Some {
        pose == core.camera_from_depth
    } else {
        looked_up(tf, core.cameras@[0].frame@, (core.depth->0).frame_id@, pose)
    }
}

/// `out` is the depth image as the camera sees it, in the byte order of this machine.
pub open spec fn reprojected_here<N: Numerics>(
    n: &N,
    depth: ImageFrame,
    depth_info: CameraModel,
    camera_info: CameraModel,
    camera_from_depth: Pose,
    units_per_meter: Scalar,
    out: ImageFrame,
) -> bool {
    exists|order: ByteOrder| #[trigger]
        reprojected(
            n,
            depth,
            order,
            depth_info,
            camera_info,
            camera_from_depth,
            units_per_meter,
            out,
        ) && written_here(order)
}

/// See [`aligned`]: the depth camera is placed. An image of a size that cannot be made is not
/// aligned.
pub open spec fn reprojected_from<N: Numerics>(
    placed: CuvslamCore<N>,
    camera_from_depth: Pose,
    units_per_meter: Scalar,
    after: CuvslamCore<N>,
    choice: Option<DepthChoice>,
) -> bool {
    if depth_sized(placed.cameras@[0].info) {
        &&& after == (CuvslamCore {
            counters: CuvslamCounters {
                depth_reprojected: counted(placed.counters.depth_reprojected),
                ..placed.counters
            },
            ..placed
        })
        &&& choice matches Some(DepthChoice::Aligned(out)) && reprojected_here(
            &placed.numerics,
            placed.depth->0,
            placed.depth_info->0,
            placed.cameras@[0].info,
            camera_from_depth,
            units_per_meter,
            out,
        )
    } else {
        after == placed && choice is None
    }
}

/// The stamps of the cameras' images run from `oldest` to `newest`.
pub open spec fn stamps_span(cameras: Seq<RigCamera>, oldest: i64, newest: i64) -> bool {
    &&& forall|i: int|
        0 <= i < cameras.len() ==> oldest <= ((#[trigger] cameras[i]).image->0).timestamp_ns
            <= newest
    &&& exists|i: int|
        0 <= i < cameras.len() && ((#[trigger] cameras[i]).image->0).timestamp_ns == oldest
    &&& exists|i: int|
        0 <= i < cameras.len() && ((#[trigger] cameras[i]).image->0).timestamp_ns == newest
}

/// The readings up to a stamp are taken from the front. A late sample can leave the queue
/// unsorted, so it is what stands before the first newer one.
pub open spec fn drained(
    pending: Seq<ImuReading>,
    newest_ns: i64,
    taken: Seq<ImuReading>,
    left: Seq<ImuReading>,
) -> bool {
    &&& pending == taken + left
    &&& forall|i: int| 0 <= i < taken.len() ==> (#[trigger] taken[i]).timestamp_ns <= newest_ns
    &&& left.len() > 0 ==> left[0].timestamp_ns > newest_ns
}

/// The rig without its images, and no depth.
pub open spec fn frame_set_cleared<N: Numerics>(
    before: CuvslamCore<N>,
    after: CuvslamCore<N>,
) -> bool {
    &&& placements(after.cameras@) == placements(before.cameras@)
    &&& imageless(after.cameras@)
    &&& after == (CuvslamCore { cameras: after.cameras, depth: None, ..before })
}

/// A camera's image as the tracker takes it.
pub open spec fn image_of(camera: RigCamera, index: int, newest_ns: i64) -> TrackImage {
    let frame = camera.image->0;
    TrackImage {
        frame,
        encoding: spec_image_encoding(frame.encoding@),
        data_type: DATA_UINT8,
        timestamp_ns: newest_ns,
        camera_index: index as u32,
    }
}

/// The depth that goes with the images: in camera 0's frame.
pub open spec fn depths_of<N: Numerics>(
    core: CuvslamCore<N>,
    choice: Option<DepthChoice>,
    newest_ns: i64,
) -> Seq<TrackImage> {
    match choice {
        None => Seq::empty(),
        Some(c) => seq![
            TrackImage {
                frame: match c {
                    DepthChoice::Passthrough => core.depth->0,
                    DepthChoice::Aligned(img) => img,
                },
                encoding: ENCODING_MONO,
                data_type: DATA_UINT16,
                timestamp_ns: newest_ns,
                camera_index: 0,
            },
        ],
    }
}

/// The frame set goes to the tracker, every image under the newest stamp, with the IMU readings up
/// to it; the rig waits for the next one.
pub open spec fn sent<N: Numerics>(
    before: CuvslamCore<N>,
    newest_ns: i64,
    choice: Option<DepthChoice>,
    after: CuvslamCore<N>,
    step: Step,
) -> bool {
    &&& step matches Step::Track(request) && {
        &&& drained(before.pending_imu@, newest_ns, request.imu@, after.pending_imu@)
        &&& request.images@.len() == before.cameras@.len()
        &&& forall|i: int|
            0 <= i < before.cameras@.len() ==> #[trigger] request.images@[i] == image_of(
                before.cameras@[i],
                i,
                newest_ns,
            )
        &&& request.depths@ == depths_of(before, choice, newest_ns)
    }
    &&& placements(after.cameras@) == placements(before.cameras@)
    &&& imageless(after.cameras@)
    &&& after == (CuvslamCore {
        cameras: after.cameras,
        depth: None,
        pending_imu: after.pending_imu,
        tracker: TrackerState::Tracking { newest_ns },
        ..before
    })
}

/// A complete frame set with a tracker: one whose stamps are too far apart counts as rejected,
/// one that is not newer than the last is dropped, and any other goes to the tracker. Depth that
/// cannot be aligned yet is tried again with the next message.
pub open spec fn requested<N: Numerics, T: TfLookup>(
    before: CuvslamCore<N>,
    tf: &T,
    after: CuvslamCore<N>,
    step: Step,
) -> bool {
    exists|oldest: i64, newest: i64| #[trigger]
        stamps_span(before.cameras@, oldest, newest) && requested_at(
            before,
            tf,
            oldest,
            newest,
            after,
            step,
        )
}

/// See [`requested`]: the stamps run from `oldest` to `newest`.
pub open spec fn requested_at<N: Numerics, T: TfLookup>(
    before: CuvslamCore<N>,
    tf: &T,
    oldest: i64,
    newest: i64,
    after: CuvslamCore<N>,
    step: Step,
) -> bool {
    if newest - oldest > before.max_skew_ns {
        &&& step is Idle
        &&& after == (CuvslamCore {
            counters: CuvslamCounters {
                skew_rejects: counted(before.counters.skew_rejects),
                ..before.counters
            },
            ..before
        })
    } else if before.last_ts_ns matches Some(last) && newest <= last {
        step is Idle && frame_set_cleared(before, after)
    } else if before.mode is Rgbd {
        exists|mid: CuvslamCore<N>, choice: Option<DepthChoice>| #[trigger]
            aligned(before, tf, mid, choice) && if choice is Some {
                sent(mid, newest, choice, after, step)
            } else {
                step is Idle && after == mid
            }
    } else {
        sent(before, newest, None, after, step)
    }
}

/// What the arrival of an image leads to.
pub open spec fn advanced<N: Numerics, T: TfLookup>(
    before: CuvslamCore<N>,
    tf: &T,
    after: CuvslamCore<N>,
    step: Step,
) -> bool {
    if !before.frame_set_complete() || before.tracker is Unbuildable {
        step is Idle && after == before
    } else if before.tracker is Absent {
        planned(before, tf, after, step)
    } else {
        requested(before, tf, after, step)
    }
}

/// The worst of the three translation variances. One that is not a number gives way.
pub open spec fn worst_variance(covariance: Matrix6) -> Scalar {
    spec_larger(
        spec_larger(
            spec_larger(Scalar::infinity().opposite(), covariance.at(0, 0)),
            covariance.at(1, 1),
        ),
        covariance.at(2, 2),
    )
}

/// All three translation variances are finite. The tracker marks an unconstrained one by a value
/// that is not a number.
pub open spec fn translation_constrained(covariance: Matrix6) -> bool {
    covariance.at(0, 0).finite() && covariance.at(1, 1).finite() && covariance.at(2, 2).finite()
}

/// The covariance gate holds a frame: while tracking, one that is unconstrained or whose standard
/// deviation is above the threshold. A threshold that is not above zero holds none.
pub open spec fn covariance_holds<N: Numerics>(
    core: CuvslamCore<N>,
    covariance: Matrix6,
    std: Scalar,
) -> bool {
    let gate = core.config.covariance_gate_translation_std;
    gate.positive() && core.was_tracking && (!translation_constrained(covariance) || gate.below(
        std,
    ))
}

/// How fast the raw pose moved since the previous one.
pub struct Speed {
    pub offset: Vector3,
    pub distance: Scalar,
    pub linear: Scalar,
    pub angle: Scalar,
    pub angular: Scalar,
}

/// `v` is the speed from the previous raw pose to this one.
pub open spec fn speed_of<N: Numerics>(
    n: &N,
    previous: Pose,
    previous_ns: i64,
    raw: Pose,
    timestamp_ns: i64,
    v: Speed,
) -> bool {
    let dt_ns = span(previous_ns, timestamp_ns);
    &&& call_ensures(N::minus, (n, &raw.translation, &previous.translation), v.offset)
    &&& call_ensures(N::norm, (n, &v.offset), v.distance)
    &&& per_second_of(n, v.distance, dt_ns, v.linear)
    &&& call_ensures(N::angle_between, (n, &previous.rotation, &raw.rotation), v.angle)
    &&& per_second_of(n, v.angle, dt_ns, v.angular)
}

/// The speed is above one of the limits. A limit that is not above zero is none.
pub open spec fn too_fast(config: CuvslamOdometryConfig, v: Speed) -> bool {
    ||| config.speed_gate_max_linear.positive() && config.speed_gate_max_linear.below(v.linear)
    ||| config.speed_gate_max_angular.positive() && config.speed_gate_max_angular.below(v.angular)
}

/// The speed gate holds a frame: one that moved too fast since the previous raw pose, if there is
/// one.
pub open spec fn speed_holds<N: Numerics>(
    core: CuvslamCore<N>,
    raw: Pose,
    timestamp_ns: i64,
    holds: bool,
) -> bool {
    let limited = core.config.speed_gate_max_linear.positive()
        || core.config.speed_gate_max_angular.positive();
    match core.previous_raw {
        Some(previous) if limited => exists|v: Speed| #[trigger]
            speed_of(&core.numerics, previous, core.previous_raw_ns, raw, timestamp_ns, v) && holds
                == too_fast(core.config, v),
        _ => !holds,
    }
}

/// `raw` is the body's pose in the tracker's world, seen through the mount.
pub open spec fn raw_pose_of<N: Numerics>(n: &N, m: RigMount, cuv: CuvPose, raw: Pose) -> bool {
    exists|rig: Pose, half: Pose|
        {
            &&& #[trigger] pose_of_cuv(n, cuv, rig)
            &&& #[trigger] call_ensures(N::compose, (n, &m.base_from_rig, &rig), half)
            &&& call_ensures(N::compose, (n, &half, &m.rig_from_base), raw)
        }
}

/// The pose, or that of the origin.
pub open spec fn or_identity(pose: Option<Pose>) -> Pose {
    match pose {
        Some(p) => p,
        None => Pose::identity(),
    }
}

/// What a frame does to the output: a held one keeps it, and later frames rebase onto the held
/// pose, so that only motion from then on reaches the output; any other moves it.
pub open spec fn pose_moved<N: Numerics>(
    core: CuvslamCore<N>,
    raw: Pose,
    held: bool,
    world_from_base: Option<Pose>,
    rebase: Option<Pose>,
) -> bool {
    let n = &core.numerics;
    if held {
        &&& world_from_base == core.world_from_base
        &&& rebase matches Some(r) && rebased(n, or_identity(core.world_from_base), raw, r)
    } else {
        &&& rebase == core.rebase
        &&& world_from_base matches Some(w) && call_ensures(
            N::compose,
            (n, &or_identity(core.rebase), &raw),
            w,
        )
    }
}

/// `rebase` takes the raw pose to the held one.
pub open spec fn rebased<N: Numerics>(n: &N, held: Pose, raw: Pose, rebase: Pose) -> bool {
    exists|undone: Pose|
        {
            &&& call_ensures(N::inverse, (n, &raw), undone)
            &&& #[trigger] call_ensures(N::compose, (n, &held, &undone), rebase)
        }
}

/// What the visual odometry gives out: the pose in the odometry frame with its covariance, and no
/// twist.
pub open spec fn emitted<N: Numerics>(
    core: CuvslamCore<N>,
    timestamp_ns: i64,
    out: OdometryEstimate,
) -> bool {
    &&& out.timestamp_ns == timestamp_ns
    &&& out.frame_id@ == core.config.odom_frame_id@
    &&& out.child_frame_id@ == core.config.output_frame_id@
    &&& out.pose == or_identity(core.world_from_base)
    &&& out.pose_covariance == core.covariance
    &&& out.twist == (Twist { linear: Vector3::zeros(), angular: Vector3::zeros() })
    &&& out.twist_covariance.blank()
}

/// What happened to a frame that was tracked.
pub struct FrameTrace {
    pub raw: Pose,
    pub std: Scalar,
    pub too_fast: bool,
}

/// See [`replied`]: the tracker has a pose.
pub open spec fn located_by<N: Numerics>(
    seen: CuvslamCore<N>,
    timestamp_ns: i64,
    cuv: CuvPose,
    rig_covariance: Matrix6,
    t: FrameTrace,
    after: CuvslamCore<N>,
) -> bool {
    let n = &seen.numerics;
    let mount = seen.mount->0;
    let unsure = covariance_holds(seen, after.covariance, t.std);
    &&& raw_pose_of(n, mount, cuv, t.raw)
    &&& congruent_of(n, mount.covariance_adjoint, rig_covariance, after.covariance)
    &&& call_ensures(N::sqrt, (n, worst_variance(after.covariance)), t.std)
    &&& speed_holds(seen, t.raw, timestamp_ns, t.too_fast)
    &&& pose_moved(seen, t.raw, unsure || t.too_fast, after.world_from_base, after.rebase)
    &&& after == (CuvslamCore {
        world_from_base: after.world_from_base,
        rebase: after.rebase,
        covariance: after.covariance,
        previous_raw: Some(t.raw),
        previous_raw_ns: timestamp_ns,
        was_tracking: true,
        counters: CuvslamCounters {
            covariance_gated: if unsure {
                counted(seen.counters.covariance_gated)
            } else {
                seen.counters.covariance_gated
            },
            speed_gated: if t.too_fast {
                counted(seen.counters.speed_gated)
            } else {
                seen.counters.speed_gated
            },
            tracked_frames: counted(seen.counters.tracked_frames),
            ..seen.counters
        },
        ..seen
    })
}

/// The core once the tracker has been given a frame set.
pub open spec fn frame_seen<N: Numerics>(
    before: CuvslamCore<N>,
    newest_ns: i64,
) -> CuvslamCore<N> {
    CuvslamCore {
        tracker: TrackerState::Ready,
        last_ts_ns: Some(newest_ns),
        counters: CuvslamCounters { frames: counted(before.counters.frames), ..before.counters },
        ..before
    }
}

/// Tracking was lost. Speed against the pose before would be meaningless across the gap.
pub open spec fn lost<N: Numerics>(seen: CuvslamCore<N>) -> CuvslamCore<N> {
    if seen.was_tracking {
        CuvslamCore {
            was_tracking: false,
            previous_raw: None,
            counters: CuvslamCounters {
                segment_id: counted(seen.counters.segment_id),
                ..seen.counters
            },
            ..seen
        }
    } else {
        seen
    }
}

/// What the tracker's reply does: a failure or a loss gives nothing out, and a pose goes through
/// the gates.
pub open spec fn replied<N: Numerics>(
    before: CuvslamCore<N>,
    newest_ns: i64,
    reply: TrackReply,
    after: CuvslamCore<N>,
    r: Option<OdometryEstimate>,
) -> bool {
    let seen = frame_seen(before, newest_ns);
    match reply {
        TrackReply::Failed => after == seen && r is None,
        TrackReply::Estimate { timestamp_ns, world_from_rig } => match world_from_rig {
            None => after == lost(seen) && r is None,
            Some((cuv, rig_covariance)) => {
                &&& exists|t: FrameTrace| #[trigger]
                    located_by(seen, timestamp_ns, cuv, rig_covariance, t, after)
                &&& r matches Some(out) && emitted(after, timestamp_ns, out)
            },
        },
    }
}

/// The place on the rig of the camera with this frame: the first one's.
pub open spec fn camera_at(cameras: Seq<RigCamera>, frame: Seq<char>, index: int) -> bool {
    &&& 0 <= index < cameras.len()
    &&& cameras[index].frame@ == frame
    &&& forall|i: int| 0 <= i < index ==> (#[trigger] cameras[i]).frame@ != frame
}

/// No camera on the rig has this frame.
pub open spec fn off_rig(cameras: Seq<RigCamera>, frame: Seq<char>) -> bool {
    forall|i: int| 0 <= i < cameras.len() ==> (#[trigger] cameras[i]).frame@ != frame
}

/// The core with an image on one of its cameras.
pub open spec fn image_put<N: Numerics>(
    before: CuvslamCore<N>,
    index: int,
    img: ImageFrame,
    after: CuvslamCore<N>,
) -> bool {
    &&& after.cameras@ == before.cameras@.update(
        index,
        RigCamera { image: Some(img), ..before.cameras@[index] },
    )
    &&& after == (CuvslamCore { cameras: after.cameras, ..before })
}

/// See [`image_taken`]: the rig has been looked for.
pub open spec fn image_placed<N: Numerics, T: TfLookup>(
    sought: CuvslamCore<N>,
    img: ImageFrame,
    tf: &T,
    after: CuvslamCore<N>,
    step: Step,
) -> bool {
    if off_rig(sought.cameras@, img.frame_id@) {
        &&& step is Idle
        &&& after == (CuvslamCore {
            counters: CuvslamCounters {
                unplaced_images: counted(sought.counters.unplaced_images),
                ..sought.counters
            },
            ..sought
        })
    } else {
        exists|index: int, put: CuvslamCore<N>|
            {
                &&& camera_at(sought.cameras@, img.frame_id@, index)
                &&& #[trigger] image_put(sought, index, img, put)
                &&& advanced(put, tf, after, step)
            }
    }
}

/// What an image does: it replaces the waiting one of its camera, and may complete a frame set.
/// One whose frame is not on the rig is counted and dropped.
pub open spec fn image_taken<N: Numerics, T: TfLookup>(
    before: CuvslamCore<N>,
    img: ImageFrame,
    tf: &T,
    after: CuvslamCore<N>,
    step: Step,
) -> bool {
    exists|sought: CuvslamCore<N>| #[trigger]
        rig_sought(before, tf, sought) && image_placed(sought, img, tf, after, step)
}

/// The side of the cloud's blocks, from its configured value.
pub open spec fn decimation_of(configured: i64) -> u32 {
    if configured < 0 {
        0
    } else {
        configured as u32
    }
}

/// The camera model of a depth image: the depth camera's, or that of the rig camera whose frame
/// the image has.
pub open spec fn depth_model<N: Numerics>(
    core: CuvslamCore<N>,
    depth: ImageFrame,
    info: Option<CameraModel>,
) -> bool {
    match core.depth_info {
        Some(known) => info == Some(known),
        None => match info {
            Some(model) => exists|i: int| #[trigger]
                camera_at(core.cameras@, depth.frame_id@, i) && core.cameras@[i].info == model,
            None => off_rig(core.cameras@, depth.frame_id@),
        },
    }
}

/// The cloud of a depth image, in the byte order of this machine.
pub open spec fn cloud_here<N: Numerics>(
    core: CuvslamCore<N>,
    depth: ImageFrame,
    info: CameraModel,
    units_per_meter: Scalar,
    cloud: PointCloud,
) -> bool {
    exists|order: ByteOrder| #[trigger]
        cloud_of(
            &core.numerics,
            depth,
            order,
            info,
            units_per_meter,
            core.config.depth_cloud_min_range,
            core.config.depth_cloud_max_range,
            decimation_of(core.config.depth_cloud_decimation),
            cloud,
        ) && written_here(order)
}

/// The cloud that a depth image gives, if its camera is known and its frame has a scale.
pub open spec fn cloud_given<N: Numerics>(
    core: CuvslamCore<N>,
    depth: ImageFrame,
    r: Option<PointCloud>,
) -> bool {
    exists|info: Option<CameraModel>, units: Option<Scalar>|
        {
            &&& #[trigger] depth_model(core, depth, info)
            &&& #[trigger] units_of(
                core.config.frame_id_to_depth_units_per_meter,
                depth.frame_id@,
                units,
            )
            &&& match (info, units) {
                (Some(model), Some(units_per_meter)) => r matches Some(cloud) && cloud_here(
                    core,
                    depth,
                    model,
                    units_per_meter,
                    cloud,
                ),
                _ => r is None,
            }
        }
}

/// What a depth image does: it gives its cloud, waits for the frame set and may complete one. One
/// that is smaller than its header claims is dropped.
pub open spec fn depth_taken<N: Numerics, T: TfLookup>(
    before: CuvslamCore<N>,
    img: ImageFrame,
    tf: &T,
    after: CuvslamCore<N>,
    cloud: Option<PointCloud>,
    step: Step,
) -> bool {
    if whole(img) {
        &&& cloud_given(before, img, cloud)
        &&& advanced(CuvslamCore { depth: Some(img), ..before }, tf, after, step)
    } else {
        cloud is None && step is Idle && after == before
    }
}

/// What is known of the depth camera: the first word on it counts.
pub open spec fn depth_info_taken<N: Numerics>(
    before: CuvslamCore<N>,
    info: CameraModel,
) -> CuvslamCore<N> {
    if before.depth_info is None {
        CuvslamCore { depth_info: Some(info), ..before }
    } else {
        before
    }
}

/// What it does that the tracker that was asked for has been made: a complete frame set that waits
/// for it is given out.
pub open spec fn built<N: Numerics, T: TfLookup>(
    before: CuvslamCore<N>,
    tf: &T,
    after: CuvslamCore<N>,
    step: Step,
) -> bool {
    let ready = CuvslamCore { tracker: TrackerState::Ready, ..before };
    if ready.frame_set_complete() {
        requested(ready, tf, after, step)
    } else {
        after == ready && step is Idle
    }
}

/// What it does that a tracker could not be made: the other backend is tried, and if that was it,
/// there will be none.
pub open spec fn build_failed<N: Numerics>(
    before: CuvslamCore<N>,
    plan: TrackerPlan,
    after: CuvslamCore<N>,
    step: Step,
) -> bool {
    if before.tracker == (TrackerState::Building { fallback: false }) {
        &&& after == (CuvslamCore {
            tracker: TrackerState::Building { fallback: true },
            ..before
        })
        &&& step == Step::Build(
            TrackerPlan {
                config: TrackerConfig { use_gpu: !plan.config.use_gpu, ..plan.config },
                ..plan
            },
        )
    } else {
        &&& after == (CuvslamCore { tracker: TrackerState::Unbuildable, ..before })
        &&& step is Idle
    }
}

impl<N: Numerics> CuvslamCore<N> {
    /// Every camera has an image.
    pub open spec fn images_complete(&self) -> bool {
        forall|i: int| 0 <= i < self.cameras@.len() ==> (#[trigger] self.cameras@[i]).image is Some
    }

    /// The frame set is complete: the rig is placed, every camera has an image, and rgbd its
    /// depth.
    pub open spec fn frame_set_complete(&self) -> bool {
        &&& self.cameras@.len() > 0
        &&& self.mode is Rgbd ==> self.depth is Some
        &&& self.images_complete()
    }

    /// The configuration is usable, the limit on the stamps as configured and the maps in order; a
    /// tracker is made or run only where the rig is placed against the body; depth that is kept is
    /// whole; the IMU queue is bounded; and a pose to measure a speed against is kept only while
    /// tracking.
    pub open spec fn well_formed(&self) -> bool {
        &&& config_usable(self.config, self.mode)
        &&& skew_limit_of(&self.numerics, self.config.max_skew_ms, self.max_skew_ns)
        &&& self.config.frame_id_to_depth_units_per_meter.well_formed()
        &&& self.camera_info_by_frame.well_formed()
        &&& self.tracker.exists_now() || self.tracker is Building ==> self.mount is Some
        &&& self.depth matches Some(depth) ==> whole(depth)
        &&& self.pending_imu@.len() <= MAX_PENDING_IMU
        &&& !self.was_tracking ==> self.previous_raw is None
    }
}

} // verus!
