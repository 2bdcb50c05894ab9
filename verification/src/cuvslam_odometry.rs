//! Visual odometry around an outside tracker.
//!
//! The tracker is run by the caller: an input gives back the [`Step`] that is due, and what came
//! of it is handed in again.

use std::collections::VecDeque;

use vstd::prelude::*;
use vstd::string::*;

use crate::cuvslam_config::CuvslamOdometryConfig;
use crate::cuvslam_model::{advanced, aligned, build_failed, built, calibration_of, camera_at};
use crate::cuvslam_model::{camera_info_taken, capped, cloud_given, cloud_here, config_fault};
use crate::cuvslam_model::{config_usable, decimation_of, depth_info_taken, depth_model};
use crate::cuvslam_model::{depth_placed, depth_taken, depths_of, drained, emitted, frame_seen};
use crate::cuvslam_model::{frame_set_cleared, frames_wanted, image_of, image_put, image_taken};
use crate::cuvslam_model::{imu_info_taken, imu_planned, imu_queued, located_by, mount_of};
use crate::cuvslam_model::{off_rig, or_identity, params_of, plan_of, planned_on, pose_moved};
use crate::cuvslam_model::{raw_pose_of, reading_of, rebased, replied, reprojected_from};
use crate::cuvslam_model::{reprojected_here, requested, rig_sought, sent, settings_of};
use crate::cuvslam_model::{speed_holds, speed_of, stamps_span, tracker_sought, units_of};
use crate::cuvslam_model::{untouched, CameraParams, CuvslamCore, CuvslamCounters, DepthChoice};
use crate::cuvslam_model::{FrameTrace, ImuCalibration, ImuReading, RigMount, Speed, Step};
use crate::cuvslam_model::{TrackImage, TrackReply, TrackRequest, TrackerConfig, TrackerPlan};
use crate::cuvslam_model::{TrackerState, MAX_PAIR_SKEW_NS, MAX_PENDING_IMU};
use crate::depth_cloud::depth_cloud;
use crate::depth_pixels::{is_whole, whole, ByteOrder};
use crate::depth_reproject::{can_be_made, reproject_depth};
use crate::formulas::{congruent, milliseconds, per_second};
use crate::numerics::Numerics;
use crate::ordered_map::{FrameKey, OrderedMap};
use crate::rig::{frames_known, names, place_cameras, placements, rig_of, rig_placements};
use crate::rig::RigCamera;
use crate::scalar::{larger, Scalar, Single};
use crate::stamp::{count_up, span_ns};
use crate::text::{decimal_text, same};
use crate::tracker::{cuv_pose_to_isometry, data_uint16, data_uint8, encoding_mono};
use crate::tracker::{image_encoding, narrow_vector, odometry_mode, se3_adjoint, to_cuv_pose};
use crate::tracker::{to_distortion, CuvPose, Mode};
use crate::types::{look_up, CameraModel, ImageFrame, ImuNoiseModel, ImuSample, Matrix6};
use crate::types::{OdometryEstimate, PointCloud, Pose, TfLookup, Twist, Vector3};

verus! {

/// The three names differ.
proof fn lemma_mode_names()
    ensures
        Mode::Stereo.name() != Mode::Mono.name(),
        Mode::Stereo.name() != Mode::Rgbd.name(),
        Mode::Mono.name() != Mode::Rgbd.name(),
{
    reveal_strlit("stereo");
    reveal_strlit("mono");
    reveal_strlit("rgbd");
    assert(Mode::Mono.name()[0] != Mode::Rgbd.name()[0]);
}

impl<N: Numerics> CuvslamCore<N> {
    /// Rejects an unusable configuration here rather than at the first image, where a bad
    /// `camera_mode` would have to become some mode.
    pub fn new(config: CuvslamOdometryConfig, numerics: N) -> (r: Result<Self, String>)
        requires
            config.frame_id_to_depth_units_per_meter.well_formed(),
        ensures
            match r {
                Ok(core) => {
                    &&& config_usable(config, core.mode)
                    &&& core.well_formed()
                    &&& core.numerics == numerics
                    &&& core.config == config
                    &&& untouched(core)
                },
                Err(message) => config_fault(config, message@),
            },
    {
        proof {
            lemma_mode_names();
        }
        let mode = match Mode::from_str(config.camera_mode.as_str()) {
            Ok(mode) => mode,
            Err(message) => return Err(message),
        };
        if config.enable_imu && mode != Mode::Stereo {
            let mut message: String =
                "config: enable_imu requires camera_mode 'stereo'; cuVSLAM has no inertial ".to_owned();
            message.append(config.camera_mode.as_str());
            message.append(" mode");
            return Err(message);
        }
        let scales: usize = config.frame_id_to_depth_units_per_meter.len();
        if mode == Mode::Rgbd && scales != 1 {
            let mut message: String =
                "config: camera_mode 'rgbd' needs exactly one frame_id_to_depth_units_per_meter entry, got ".to_owned();
            message.append(decimal_text(scales).as_str());
            return Err(message);
        }
        let max_skew_ns: i64 = if config.max_skew_ms.is_positive() {
            milliseconds(&numerics, config.max_skew_ms)
        } else {
            MAX_PAIR_SKEW_NS
        };
        Ok(
            CuvslamCore {
                numerics,
                config,
                mode,
                max_skew_ns,
                cameras: Vec::new(),
                camera_info_by_frame: OrderedMap::new(),
                imu_model: None,
                pending_imu: VecDeque::new(),
                tracker: TrackerState::Absent,
                depth: None,
                depth_info: None,
                camera_from_depth: None,
                last_ts_ns: None,
                world_from_base: None,
                mount: None,
                rebase: None,
                covariance: Matrix6::zeros(),
                previous_raw: None,
                previous_raw_ns: 0,
                was_tracking: false,
                counters: CuvslamCounters {
                    frames: 0,
                    tracked_frames: 0,
                    segment_id: 0,
                    imu_samples: 0,
                    imu_dropped: 0,
                    skew_rejects: 0,
                    depth_reprojected: 0,
                    covariance_gated: 0,
                    speed_gated: 0,
                    unplaced_images: 0,
                },
            },
        )
    }

    /// All-or-nothing: no camera is placed until every camera resolves.
    pub fn resolve_rig<T: TfLookup>(&mut self, tf: &T)
        requires
            old(self).well_formed(),
        ensures
            final(self).well_formed(),
            rig_sought(*old(self), tf, *final(self)),
    {
        if self.cameras.len() > 0 {
            return;
        }
        let discovered: bool = self.config.camera_frames.len() == 0;
        let wanted: usize = if self.mode == Mode::Stereo {
            2
        } else {
            1
        };
        if discovered && self.camera_info_by_frame.len() != wanted {
            return;
        }
        let placed = if discovered {
            // The keys are in order: camera_info has no order of its own, and the rig is indexed.
            let mut frames: Vec<String> = Vec::new();
            let mut i: usize = 0;
            let ghost keys = frames_known(self.camera_info_by_frame);
            while i < self.camera_info_by_frame.entries.len()
                invariant
                    i <= self.camera_info_by_frame.entries@.len(),
                    keys == frames_known(self.camera_info_by_frame),
                    names(frames@) == keys.take(i as int),
                decreases self.camera_info_by_frame.entries@.len() - i,
            {
                let ghost listed = frames@;
                frames.push(self.camera_info_by_frame.entries[i].0.clone());
                i += 1;
                assert(names(frames@) =~= names(listed).push(keys[i - 1]));
                assert(keys.take(i as int) =~= keys.take(i - 1).push(keys[i - 1]));
            }
            assert(keys.take(i as int) =~= keys);
            place_cameras(
                &self.numerics,
                tf,
                self.config.rig_frame(),
                &self.camera_info_by_frame,
                &frames,
                true,
            )
        } else {
            place_cameras(
                &self.numerics,
                tf,
                self.config.rig_frame(),
                &self.camera_info_by_frame,
                &self.config.camera_frames,
                false,
            )
        };
        let ghost before = *self;
        proof {
            let frames = frames_wanted(before);
            assert(rig_of(
                &before.numerics,
                tf,
                before.config.rig_frame_name(),
                before.camera_info_by_frame,
                frames,
                discovered,
                rig_placements(placed),
            ));
        }
        if let Some(cameras) = placed {
            self.cameras = cameras;
        }
    }

    /// Takes what is known of a camera.
    pub fn handle_camera_info<T: TfLookup>(&mut self, info: CameraModel, tf: &T)
        requires
            old(self).well_formed(),
            old(self).tracker.settled(),
        ensures
            final(self).well_formed(),
            camera_info_taken(*old(self), info, tf, *final(self)),
    {
        if self.has_tracker() {
            return;  // the rig is fixed once there is a tracker
        }
        let key: String = info.frame_id.clone();
        self.camera_info_by_frame.insert(key, info);
        self.resolve_rig(tf);
    }

    fn has_tracker(&self) -> (r: bool)
        ensures
            r == self.tracker.exists_now(),
    {
        match self.tracker {
            TrackerState::Ready => true,
            TrackerState::Tracking { .. } => true,
            _ => false,
        }
    }

    /// Takes the IMU's noise model.
    pub fn handle_imu_info<T: TfLookup>(&mut self, info: ImuNoiseModel, tf: &T)
        requires
            old(self).well_formed(),
            old(self).tracker.settled(),
        ensures
            final(self).well_formed(),
            imu_info_taken(*old(self), info, tf, *final(self)),
    {
        if self.has_tracker() {
            return;  // the rig is fixed once there is a tracker
        }
        self.imu_model = Some(info);
        self.resolve_rig(tf);
    }

    /// Takes an IMU sample.
    pub fn handle_imu(&mut self, msg: &ImuSample)
        requires
            old(self).well_formed(),
        ensures
            final(self).well_formed(),
            imu_queued(*old(self), *msg, *final(self)),
    {
        if !self.has_tracker() {
            self.counters.imu_dropped = count_up(self.counters.imu_dropped);
            return;
        }
        let ghost before = *self;
        let reading = ImuReading {
            timestamp_ns: msg.timestamp_ns,
            linear_accelerations: narrow_vector(&self.numerics, &msg.linear_acceleration),
            angular_velocities: narrow_vector(&self.numerics, &msg.angular_velocity),
        };
        assert(reading_of(&before.numerics, *msg, reading));
        self.pending_imu.push_back(reading);
        if self.pending_imu.len() > MAX_PENDING_IMU {
            let _ = self.pending_imu.pop_front();
        }
        assert(self.pending_imu@ =~= capped(before.pending_imu@.push(reading)));
        self.counters.imu_samples = count_up(self.counters.imu_samples);
    }

    /// A camera of the rig as the tracker takes it.
    fn camera_params(&self, index: usize) -> (p: CameraParams)
        requires
            index < self.cameras@.len(),
        ensures
            params_of(&self.numerics, self.cameras@[index as int].placement(), p),
    {
        let n = &self.numerics;
        let camera = &self.cameras[index];
        let info = &camera.info;
        let (distortion_model, distortion_parameters) = to_distortion(n, info);
        CameraParams {
            width: info.width,
            height: info.height,
            principal: (n.narrow(info.intrinsics[2]), n.narrow(info.intrinsics[5])),
            focal: (n.narrow(info.intrinsics[0]), n.narrow(info.intrinsics[4])),
            rig_from_camera: to_cuv_pose(n, &camera.rig_from_camera),
            distortion_model,
            distortion_parameters,
        }
    }

    /// The IMU for the plan, or nothing if it has to wait.
    fn plan_imu<T: TfLookup>(&self, tf: &T) -> (r: Option<Option<ImuCalibration>>)
        ensures
            imu_planned(*self, tf, r),
    {
        if !self.config.enable_imu {
            return Some(None);
        }
        let n = &self.numerics;
        match &self.imu_model {
            None => None,
            Some(model) => {
                let pose = look_up(tf, self.config.rig_frame(), model.frame_id.as_str());
                match pose {
                    None => None,
                    Some(rig_from_imu) => {
                        let c = ImuCalibration {
                            rig_from_imu: to_cuv_pose(n, &rig_from_imu),
                            gyroscope_noise_density: n.narrow(model.gyro_noise_density),
                            gyroscope_random_walk: n.narrow(model.gyro_random_walk),
                            accelerometer_noise_density: n.narrow(model.accel_noise_density),
                            accelerometer_random_walk: n.narrow(model.accel_random_walk),
                            frequency: n.narrow(model.frequency),
                        };
                        assert(calibration_of(&self.numerics, *model, rig_from_imu, c));
                        Some(Some(c))
                    },
                }
            },
        }
    }

    /// The tracker's settings.
    fn tracker_config(&self) -> (t: TrackerConfig)
        requires
            self.well_formed(),
        ensures
            settings_of(*self, t),
    {
        let mut scale: Single = Single::one();
        let mut camera_id: i32 = -1;
        if self.mode == Mode::Rgbd {
            let units: Scalar = self.config.frame_id_to_depth_units_per_meter.entries[0].1;
            scale = self.numerics.narrow(units);
            // Depth is delivered in camera 0's frame; the other value silently ignores depth.
            camera_id = 0;
        }
        TrackerConfig {
            odometry_mode: odometry_mode(self.mode, self.config.enable_imu),
            use_gpu: self.config.use_gpu,
            rectified_stereo_camera: self.config.rectified && self.mode == Mode::Stereo,
            rgbd_depth_scale_factor: scale,
            rgbd_depth_camera_id: camera_id,
        }
    }

    /// Asks for a tracker, if everything that one is made from is there.
    pub fn ensure_tracker<T: TfLookup>(&mut self, tf: &T) -> (step: Step)
        requires
            old(self).well_formed(),
            old(self).tracker.settled(),
        ensures
            final(self).well_formed(),
            tracker_sought(*old(self), tf, *final(self), step),
    {
        let ghost before = *self;
        if self.tracker != TrackerState::Absent {
            return Step::Idle;
        }
        let pose = look_up(
            tf,
            self.config.output_frame_id.as_str(),
            self.config.rig_frame(),
        );
        let base_from_rig = match pose {
            None => {
                return Step::Idle;
            },
            Some(base_from_rig) => base_from_rig,
        };
        let mount = RigMount {
            base_from_rig,
            rig_from_base: self.numerics.inverse(&base_from_rig),
            covariance_adjoint: se3_adjoint(&self.numerics, &base_from_rig),
        };
        assert(mount_of(&before.numerics, base_from_rig, mount));
        self.mount = Some(mount);
        let ghost mounted = *self;
        let imu = match self.plan_imu(tf) {
            None => {
                assert(planned_on(mounted, tf, *self, Step::Idle));
                return Step::Idle;
            },
            Some(imu) => imu,
        };
        let mut cameras: Vec<CameraParams> = Vec::new();
        let mut i: usize = 0;
        while i < self.cameras.len()
            invariant
                *self == mounted,
                i <= mounted.cameras@.len(),
                cameras@.len() == i,
                forall|k: int|
                    0 <= k < i ==> params_of(
                        &mounted.numerics,
                        mounted.cameras@[k].placement(),
                        #[trigger] cameras@[k],
                    ),
            decreases mounted.cameras@.len() - i,
        {
            let p = self.camera_params(i);
            cameras.push(p);
            i += 1;
        }
        let plan = TrackerPlan { cameras, imu, config: self.tracker_config() };
        assert(plan_of(mounted, imu, plan));
        self.tracker = TrackerState::Building { fallback: false };
        assert(planned_on(mounted, tf, *self, Step::Build(plan)));
        Step::Build(plan)
    }

    /// The raw depth units per metre of a frame. Scaling depth by a number belonging to another
    /// camera turns a metric map into a plausible-looking wrong one, so an unlisted frame has
    /// none.
    fn depth_units(&self, frame_id: &String) -> (r: Option<Scalar>)
        requires
            self.config.frame_id_to_depth_units_per_meter.well_formed(),
        ensures
            units_of(self.config.frame_id_to_depth_units_per_meter, frame_id@, r),
    {
        let table = &self.config.frame_id_to_depth_units_per_meter;
        match table.position(frame_id) {
            Some(index) => {
                assert(table.entries@[index as int].0.parts() == frame_id.parts());
                assert(table.entries@[index as int].0@ == frame_id@);
                Some(table.entries[index].1)
            },
            None => None,
        }
    }

    /// Brings the depth into the rig camera's image.
    pub fn align_depth<T: TfLookup>(&mut self, tf: &T) -> (choice: Option<DepthChoice>)
        requires
            old(self).well_formed(),
            old(self).mode is Rgbd,
            old(self).depth is Some,
            old(self).cameras@.len() > 0,
        ensures
            final(self).well_formed(),
            aligned(*old(self), tf, *final(self), choice),
            final(self).cameras == old(self).cameras,
            final(self).tracker == old(self).tracker,
            final(self).depth == old(self).depth,
    {
        let ghost before = *self;
        if let Some(depth) = &self.depth {
            let units = self.depth_units(&depth.frame_id);
            assert(units_of(
                before.config.frame_id_to_depth_units_per_meter,
                (before.depth->0).frame_id@,
                units,
            ));
            let units_per_meter = match units {
                Some(units_per_meter) => units_per_meter,
                None => return None,
            };
            if same(depth.frame_id.as_str(), self.cameras[0].frame.as_str()) {
                return Some(DepthChoice::Passthrough);
            }
            if let Some(depth_info) = &self.depth_info {
                let pose = match self.camera_from_depth {
                    Some(pose) => Some(pose),
                    None => look_up(
                        tf,
                        self.cameras[0].frame.as_str(),
                        depth.frame_id.as_str(),
                    ),
                };
                assert(depth_placed(before, tf, pose));
                let camera_from_depth = match pose {
                    Some(pose) => pose,
                    None => return None,
                };
                let ghost placed = CuvslamCore {
                    camera_from_depth: Some(camera_from_depth),
                    ..before
                };
                let mut choice: Option<DepthChoice> = None;
                if can_be_made(&self.cameras[0].info) {
                    let order = ByteOrder::native();
                    let mut out = ImageFrame::default();
                    reproject_depth(
                        &self.numerics,
                        order,
                        depth,
                        depth_info,
                        &self.cameras[0].info,
                        &camera_from_depth,
                        units_per_meter,
                        &mut out,
                    );
                    assert(reprojected_here(
                        &self.numerics,
                        *depth,
                        *depth_info,
                        self.cameras@[0].info,
                        camera_from_depth,
                        units_per_meter,
                        out,
                    ));
                    choice = Some(DepthChoice::Aligned(out));
                }
                self.camera_from_depth = Some(camera_from_depth);
                assert(*self == placed);
                if choice.is_some() {
                    self.counters.depth_reprojected = count_up(self.counters.depth_reprojected);
                }
                assert(reprojected_from(
                    placed,
                    camera_from_depth,
                    units_per_meter,
                    *self,
                    choice,
                ));
                assert(self.frame_set_complete() == before.frame_set_complete());
                return choice;
            }
        }
        None
    }

    /// The oldest and the newest stamp of the cameras' images.
    fn stamp_range(&self) -> (r: (i64, i64))
        requires
            self.cameras@.len() > 0,
            self.images_complete(),
        ensures
            stamps_span(self.cameras@, r.0, r.1),
    {
        let first: i64 = self.image_stamp(0);
        let mut oldest: i64 = first;
        let mut newest: i64 = first;
        let ghost mut at_oldest: int = 0;
        let ghost mut at_newest: int = 0;
        let mut i: usize = 1;
        while i < self.cameras.len()
            invariant
                self.images_complete(),
                1 <= i <= self.cameras@.len(),
                0 <= at_oldest < i,
                0 <= at_newest < i,
                (self.cameras@[at_oldest].image->0).timestamp_ns == oldest,
                (self.cameras@[at_newest].image->0).timestamp_ns == newest,
                forall|k: int|
                    0 <= k < i ==> oldest <= ((#[trigger] self.cameras@[k]).image->0).timestamp_ns
                        <= newest,
            decreases self.cameras@.len() - i,
        {
            let stamp: i64 = self.image_stamp(i);
            if stamp < oldest {
                oldest = stamp;
                proof {
                    at_oldest = i as int;
                }
            }
            if stamp > newest {
                newest = stamp;
                proof {
                    at_newest = i as int;
                }
            }
            i += 1;
        }
        (oldest, newest)
    }

    fn image_stamp(&self, index: usize) -> (stamp: i64)
        requires
            self.images_complete(),
            index < self.cameras@.len(),
        ensures
            stamp == (self.cameras@[index as int].image->0).timestamp_ns,
    {
        assert(self.cameras@[index as int].image is Some);
        match &self.cameras[index].image {
            Some(image) => image.timestamp_ns,
            None => 0,
        }
    }

    fn clear_frame_set(&mut self)
        requires
            old(self).well_formed(),
            old(self).tracker is Ready,
        ensures
            final(self).well_formed(),
            frame_set_cleared(*old(self), *final(self)),
    {
        let ghost before = *self;
        let mut i: usize = 0;
        while i < self.cameras.len()
            invariant
                *self == (CuvslamCore { cameras: self.cameras, ..before }),
                i <= self.cameras@.len(),
                self.cameras@.len() == before.cameras@.len(),
                forall|k: int|
                    #![trigger self.cameras@[k]]
                    0 <= k < self.cameras@.len() ==> self.cameras@[k] == (RigCamera {
                        image: self.cameras@[k].image,
                        ..before.cameras@[k]
                    }),
                forall|k: int| 0 <= k < i ==> (#[trigger] self.cameras@[k]).image is None,
            decreases self.cameras@.len() - i,
        {
            self.cameras[i].image = None;
            i += 1;
        }
        self.depth = None;
        proof {
            assert(placements(self.cameras@) =~= placements(before.cameras@));
        }
    }

    /// Takes the images off the cameras.
    fn take_images(&mut self, newest_ns: i64) -> (images: Vec<TrackImage>)
        requires
            old(self).images_complete(),
        ensures
            images@.len() == old(self).cameras@.len(),
            forall|k: int|
                0 <= k < images@.len() ==> #[trigger] images@[k] == image_of(
                    old(self).cameras@[k],
                    k,
                    newest_ns,
                ),
            final(self).cameras@.len() == old(self).cameras@.len(),
            forall|k: int|
                #![trigger final(self).cameras@[k]]
                0 <= k < final(self).cameras@.len() ==> final(self).cameras@[k] == (RigCamera {
                    image: None,
                    ..old(self).cameras@[k]
                }),
            *final(self) == (CuvslamCore { cameras: final(self).cameras, ..*old(self) }),
    {
        let ghost before = *self;
        let mut images: Vec<TrackImage> = Vec::new();
        let mut i: usize = 0;
        while i < self.cameras.len()
            invariant
                before.images_complete(),
                *self == (CuvslamCore { cameras: self.cameras, ..before }),
                i <= self.cameras@.len(),
                images@.len() == i,
                self.cameras@.len() == before.cameras@.len(),
                forall|k: int|
                    0 <= k < i ==> #[trigger] images@[k] == image_of(
                        before.cameras@[k],
                        k,
                        newest_ns,
                    ),
                forall|k: int|
                    i <= k < self.cameras@.len() ==> #[trigger] self.cameras@[k]
                        == before.cameras@[k],
                forall|k: int|
                    0 <= k < i ==> #[trigger] self.cameras@[k] == (RigCamera {
                        image: None,
                        ..before.cameras@[k]
                    }),
            decreases self.cameras@.len() - i,
        {
            assert(before.cameras@[i as int].image is Some);
            let image = self.cameras[i].image.take();
            if let Some(frame) = image {
                let encoding: u8 = image_encoding(frame.encoding.as_str());
                images.push(
                    TrackImage {
                        frame,
                        encoding,
                        data_type: data_uint8(),
                        timestamp_ns: newest_ns,
                        camera_index: #[verifier::truncate]
                        (i as u32),
                    },
                );
            }
            i += 1;
        }
        images
    }

    /// Takes the IMU readings up to a stamp.
    fn drain_imu(&mut self, newest_ns: i64) -> (taken: Vec<ImuReading>)
        ensures
            drained(old(self).pending_imu@, newest_ns, taken@, final(self).pending_imu@),
            *final(self) == (CuvslamCore { pending_imu: final(self).pending_imu, ..*old(self) }),
    {
        let ghost before = *self;
        let mut taken: Vec<ImuReading> = Vec::new();
        assert(before.pending_imu@ =~= taken@ + self.pending_imu@);
        while self.pending_imu.len() > 0 && self.pending_imu[0].timestamp_ns <= newest_ns
            invariant
                *self == (CuvslamCore { pending_imu: self.pending_imu, ..before }),
                before.pending_imu@ == taken@ + self.pending_imu@,
                forall|i: int|
                    0 <= i < taken@.len() ==> (#[trigger] taken@[i]).timestamp_ns <= newest_ns,
            decreases self.pending_imu@.len(),
        {
            if let Some(reading) = self.pending_imu.pop_front() {
                taken.push(reading);
            }
            assert(before.pending_imu@ =~= taken@ + self.pending_imu@);
        }
        taken
    }

    /// Gives the frame set out.
    fn send(&mut self, newest_ns: i64, choice: Option<DepthChoice>) -> (step: Step)
        requires
            old(self).well_formed(),
            old(self).tracker is Ready,
            old(self).frame_set_complete(),
            choice is Some ==> old(self).depth is Some,
        ensures
            final(self).well_formed(),
            sent(*old(self), newest_ns, choice, *final(self), step),
    {
        let ghost before = *self;
        let imu = self.drain_imu(newest_ns);
        assert(self.images_complete());
        let images = self.take_images(newest_ns);
        let depth = self.depth.take();
        let mut depths: Vec<TrackImage> = Vec::new();
        if let Some(choice) = choice {
            let frame = match choice {
                DepthChoice::Passthrough => depth,
                DepthChoice::Aligned(aligned) => Some(aligned),
            };
            if let Some(frame) = frame {
                depths.push(
                    TrackImage {
                        frame,
                        encoding: encoding_mono(),
                        data_type: data_uint16(),
                        timestamp_ns: newest_ns,
                        camera_index: 0,
                    },
                );
            }
        }
        assert(depths@ =~= depths_of(before, choice, newest_ns));
        self.tracker = TrackerState::Tracking { newest_ns };
        proof {
            assert(placements(self.cameras@) =~= placements(before.cameras@));
        }
        Step::Track(TrackRequest { imu, images, depths })
    }

    /// Gives the frame set out, if it can be tracked.
    pub fn request<T: TfLookup>(&mut self, tf: &T) -> (step: Step)
        requires
            old(self).well_formed(),
            old(self).tracker is Ready,
            old(self).frame_set_complete(),
        ensures
            final(self).well_formed(),
            requested(*old(self), tf, *final(self), step),
    {
        let ghost before = *self;
        let (oldest, newest) = self.stamp_range();
        assert(stamps_span(before.cameras@, oldest, newest));
        if newest as i128 - oldest as i128 > self.max_skew_ns as i128 {
            self.counters.skew_rejects = count_up(self.counters.skew_rejects);
            return Step::Idle;
        }
        // The tracker rejects a frame that is not strictly newer than the last one.
        if let Some(last) = self.last_ts_ns {
            if newest <= last {
                self.clear_frame_set();
                return Step::Idle;
            }
        }
        if self.mode == Mode::Rgbd {
            // Reprojection inputs still missing means retry on the next message.
            let choice = self.align_depth(tf);
            let ghost mid = *self;
            assert(aligned(before, tf, mid, choice));
            assert(self.images_complete());
            if choice.is_some() {
                self.send(newest, choice)
            } else {
                Step::Idle
            }
        } else {
            self.send(newest, None)
        }
    }

    /// Whether the frame set is complete.
    fn is_complete(&self) -> (r: bool)
        ensures
            r == self.frame_set_complete(),
    {
        if self.cameras.len() == 0 || (self.mode == Mode::Rgbd && self.depth.is_none()) {
            return false;
        }
        let mut i: usize = 0;
        while i < self.cameras.len()
            invariant
                i <= self.cameras@.len(),
                forall|k: int| 0 <= k < i ==> (#[trigger] self.cameras@[k]).image is Some,
            decreases self.cameras@.len() - i,
        {
            if self.cameras[i].image.is_none() {
                assert(self.cameras@[i as int].image is None);
                return false;
            }
            i += 1;
        }
        true
    }

    /// Finds out what is due.
    pub fn try_track<T: TfLookup>(&mut self, tf: &T) -> (step: Step)
        requires
            old(self).well_formed(),
            old(self).tracker.settled(),
        ensures
            final(self).well_formed(),
            advanced(*old(self), tf, *final(self), step),
    {
        if !self.is_complete() {
            return Step::Idle;
        }
        match self.tracker {
            TrackerState::Absent => self.ensure_tracker(tf),
            TrackerState::Ready => self.request(tf),
            _ => Step::Idle,
        }
    }

    /// The speed gate's decision.
    fn is_too_fast(&self, raw: &Pose, timestamp_ns: i64) -> (r: bool)
        ensures
            speed_holds(*self, *raw, timestamp_ns, r),
    {
        let n = &self.numerics;
        let max_linear: Scalar = self.config.speed_gate_max_linear;
        let max_angular: Scalar = self.config.speed_gate_max_angular;
        if !max_linear.is_positive() && !max_angular.is_positive() {
            return false;
        }
        match self.previous_raw {
            None => false,
            Some(previous) => {
                let dt_ns: i64 = span_ns(self.previous_raw_ns, timestamp_ns);
                let offset = n.minus(&raw.translation, &previous.translation);
                let distance: Scalar = n.norm(&offset);
                let linear: Scalar = per_second(n, distance, dt_ns);
                let angle: Scalar = n.angle_between(&previous.rotation, &raw.rotation);
                let angular: Scalar = per_second(n, angle, dt_ns);
                let ghost v = Speed { offset, distance, linear, angle, angular };
                assert(speed_of(
                    &self.numerics,
                    previous,
                    self.previous_raw_ns,
                    *raw,
                    timestamp_ns,
                    v,
                ));
                (max_linear.is_positive() && max_linear.lt(linear)) || (max_angular.is_positive()
                    && max_angular.lt(angular))
            },
        }
    }

    /// Takes the tracker's reply to a frame set; the estimate, if there is one.
    pub fn handle_track_reply(&mut self, reply: TrackReply) -> (r: Option<OdometryEstimate>)
        requires
            old(self).well_formed(),
            old(self).tracker is Tracking,
        ensures
            final(self).well_formed(),
            replied(*old(self), old(self).tracker->newest_ns, reply, *final(self), r),
    {
        let ghost before = *self;
        if let TrackerState::Tracking { newest_ns } = self.tracker {
            self.tracker = TrackerState::Ready;
            self.last_ts_ns = Some(newest_ns);
            self.counters.frames = count_up(self.counters.frames);
        }
        let ghost seen = *self;
        assert(seen == frame_seen(before, before.tracker->newest_ns));
        match reply {
            TrackReply::Failed => None,
            TrackReply::Estimate { timestamp_ns, world_from_rig } => {
                match world_from_rig {
                    None => {
                        if self.was_tracking {
                            self.counters.segment_id = count_up(self.counters.segment_id);
                            self.was_tracking = false;
                            self.previous_raw = None;
                        }
                        None
                    },
                    Some((cuv, rig_covariance)) => {
                        self.locate(timestamp_ns, &cuv, &rig_covariance);
                        Some(self.output(timestamp_ns))
                    },
                }
            },
        }
    }

    /// Moves the output to where the tracker has the rig, unless a gate holds the frame.
    fn locate(&mut self, timestamp_ns: i64, cuv: &CuvPose, rig_covariance: &Matrix6)
        requires
            old(self).well_formed(),
            old(self).mount is Some,
            old(self).tracker is Ready,
        ensures
            final(self).well_formed(),
            exists|t: FrameTrace| #[trigger]
                located_by(*old(self), timestamp_ns, *cuv, *rig_covariance, t, *final(self)),
    {
        let ghost seen = *self;
        if let Some(mount) = self.mount {
            let rig = cuv_pose_to_isometry(&self.numerics, cuv);
            let half = self.numerics.compose(&mount.base_from_rig, &rig);
            let raw = self.numerics.compose(&half, &mount.rig_from_base);
            assert(raw_pose_of(&seen.numerics, mount, *cuv, raw));
            let covariance = congruent(
                &self.numerics,
                &mount.covariance_adjoint,
                rig_covariance,
            );
            let x: Scalar = covariance.entry(0, 0);
            let y: Scalar = covariance.entry(1, 1);
            let z: Scalar = covariance.entry(2, 2);
            let worst: Scalar = larger(larger(larger(Scalar::infinity().negated(), x), y), z);
            let std: Scalar = self.numerics.sqrt(worst);
            let constrained: bool = x.is_finite() && y.is_finite() && z.is_finite();
            let gate: Scalar = self.config.covariance_gate_translation_std;
            let unsure: bool = gate.is_positive() && self.was_tracking && (!constrained || gate.lt(
                std,
            ));
            let too_fast: bool = self.is_too_fast(&raw, timestamp_ns);
            let held: bool = unsure || too_fast;
            let rebase = match self.rebase {
                Some(rebase) => rebase,
                None => Pose::identity(),
            };
            let world_from_base = match self.world_from_base {
                Some(pose) => pose,
                None => Pose::identity(),
            };
            if held {
                // Hold the pose and rebase so only post-recovery deltas reach the output.
                let undone = self.numerics.inverse(&raw);
                let onto = self.numerics.compose(&world_from_base, &undone);
                assert(rebased(&seen.numerics, or_identity(seen.world_from_base), raw, onto));
                self.rebase = Some(onto);
            } else {
                self.world_from_base = Some(self.numerics.compose(&rebase, &raw));
            }
            self.covariance = covariance;
            if unsure {
                self.counters.covariance_gated = count_up(self.counters.covariance_gated);
            }
            if too_fast {
                self.counters.speed_gated = count_up(self.counters.speed_gated);
            }
            self.previous_raw = Some(raw);
            self.previous_raw_ns = timestamp_ns;
            self.was_tracking = true;
            self.counters.tracked_frames = count_up(self.counters.tracked_frames);
            let ghost t = FrameTrace { raw, std, too_fast };
            assert(pose_moved(seen, raw, held, self.world_from_base, self.rebase));
            assert(located_by(seen, timestamp_ns, *cuv, *rig_covariance, t, *self));
        }
    }

    fn output(&self, timestamp_ns: i64) -> (out: OdometryEstimate)
        ensures
            emitted(*self, timestamp_ns, out),
    {
        OdometryEstimate {
            timestamp_ns,
            frame_id: self.config.odom_frame_id.clone(),
            child_frame_id: self.config.output_frame_id.clone(),
            pose: match self.world_from_base {
                Some(pose) => pose,
                None => Pose::identity(),
            },
            pose_covariance: self.covariance,
            twist: Twist { linear: Vector3::zeros(), angular: Vector3::zeros() },
            twist_covariance: Matrix6::zeros(),
        }
    }

    /// What has been seen and done so far.
    pub fn report(&self) -> (r: CuvslamCounters)
        ensures
            r == self.counters,
    {
        self.counters
    }

    /// The place on the rig of the camera with this frame.
    fn camera_index(&self, frame_id: &str) -> (r: Option<usize>)
        ensures
            match r {
                Some(index) => camera_at(self.cameras@, frame_id@, index as int),
                None => off_rig(self.cameras@, frame_id@),
            },
    {
        let mut i: usize = 0;
        while i < self.cameras.len()
            invariant
                i <= self.cameras@.len(),
                forall|k: int| 0 <= k < i ==> (#[trigger] self.cameras@[k]).frame@ != frame_id@,
            decreases self.cameras@.len() - i,
        {
            if same(self.cameras[i].frame.as_str(), frame_id) {
                return Some(i);
            }
            i += 1;
        }
        None
    }

    /// Takes an image.
    pub fn handle_image<T: TfLookup>(&mut self, img: ImageFrame, tf: &T) -> (step: Step)
        requires
            old(self).well_formed(),
            old(self).tracker.settled(),
        ensures
            final(self).well_formed(),
            image_taken(*old(self), img, tf, *final(self), step),
    {
        let ghost before = *self;
        self.resolve_rig(tf);
        let ghost sought = *self;
        assert(rig_sought(before, tf, sought));
        let index: usize = match self.camera_index(img.frame_id.as_str()) {
            Some(index) => index,
            None => {
                self.counters.unplaced_images = count_up(self.counters.unplaced_images);
                return Step::Idle;
            },
        };
        self.cameras[index].image = Some(img);
        proof {
            assert(!off_rig(sought.cameras@, img.frame_id@)) by {
                assert(sought.cameras@[index as int].frame@ == img.frame_id@);
            }
            assert(self.cameras@ =~= sought.cameras@.update(
                index as int,
                RigCamera { image: Some(img), ..sought.cameras@[index as int] },
            ));
            assert(image_put(sought, index as int, img, *self));
        }
        self.try_track(tf)
    }

    /// A driver's own cloud carries every far, noisy pixel; this one is range-gated.
    fn depth_cloud_msg(&self, depth: &ImageFrame) -> (r: Option<PointCloud>)
        requires
            self.well_formed(),
            whole(*depth),
        ensures
            cloud_given(*self, *depth, r),
    {
        let units = self.depth_units(&depth.frame_id);
        let info: &CameraModel = match &self.depth_info {
            Some(info) => info,
            None => {
                match self.camera_index(depth.frame_id.as_str()) {
                    Some(index) => {
                        assert(camera_at(self.cameras@, depth.frame_id@, index as int));
                        &self.cameras[index].info
                    },
                    None => {
                        assert(depth_model(*self, *depth, None));
                        return None;
                    },
                }
            },
        };
        assert(depth_model(*self, *depth, Some(*info)));
        let units_per_meter: Scalar = match units {
            Some(units) => units,
            None => return None,
        };
        let mut cloud = PointCloud::default();
        let order = ByteOrder::native();
        let configured: i64 = self.config.depth_cloud_decimation;
        let decimation: u32 = if configured < 0 {
            0
        } else {
            #[verifier::truncate]
            (configured as u32)
        };
        depth_cloud(
            &self.numerics,
            order,
            depth,
            info,
            units_per_meter,
            self.config.depth_cloud_min_range,
            self.config.depth_cloud_max_range,
            decimation,
            &mut cloud,
        );
        assert(decimation == decimation_of(configured));
        assert(cloud_here(*self, *depth, *info, units_per_meter, cloud));
        Some(cloud)
    }

    /// Takes a depth image; its cloud, if there is one, and what is due.
    pub fn handle_depth_image<T: TfLookup>(&mut self, img: ImageFrame, tf: &T) -> (r: (
        Option<PointCloud>,
        Step,
    ))
        requires
            old(self).well_formed(),
            old(self).tracker.settled(),
        ensures
            final(self).well_formed(),
            depth_taken(*old(self), img, tf, *final(self), r.0, r.1),
    {
        // Downstream indexes by step and height, so an undersized buffer would be read past.
        if !is_whole(&img) {
            return (None, Step::Idle);
        }
        let ghost before = *self;
        let cloud = self.depth_cloud_msg(&img);
        self.depth = Some(img);
        assert(self.images_complete() == before.images_complete());
        let step = self.try_track(tf);
        (cloud, step)
    }

    /// Takes what is known of the depth camera; the first word on it counts.
    pub fn handle_depth_camera_info(&mut self, info: CameraModel)
        requires
            old(self).well_formed(),
        ensures
            final(self).well_formed(),
            *final(self) == depth_info_taken(*old(self), info),
    {
        let ghost before = *self;
        if self.depth_info.is_none() {
            self.depth_info = Some(info);
        }
        assert(self.images_complete() == before.images_complete());
    }

    /// The tracker that was asked for has been made.
    pub fn handle_tracker_built<T: TfLookup>(&mut self, tf: &T) -> (step: Step)
        requires
            old(self).well_formed(),
            old(self).tracker is Building,
        ensures
            final(self).well_formed(),
            built(*old(self), tf, *final(self), step),
    {
        self.tracker = TrackerState::Ready;
        if self.is_complete() {
            self.request(tf)
        } else {
            Step::Idle
        }
    }

    /// The tracker that was asked for could not be made from this plan.
    pub fn handle_build_failure(&mut self, plan: TrackerPlan) -> (step: Step)
        requires
            old(self).well_formed(),
            old(self).tracker is Building,
        ensures
            final(self).well_formed(),
            build_failed(*old(self), plan, *final(self), step),
    {
        match self.tracker {
            TrackerState::Building { fallback: false } => {
                self.tracker = TrackerState::Building { fallback: true };
                let use_gpu: bool = !plan.config.use_gpu;
                Step::Build(
                    TrackerPlan {
                        cameras: plan.cameras,
                        imu: plan.imu,
                        config: TrackerConfig { use_gpu, ..plan.config },
                    },
                )
            },
            _ => {
                self.tracker = TrackerState::Unbuildable;
                Step::Idle
            },
        }
    }
}

} // verus!
