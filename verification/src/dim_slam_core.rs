//! Visual odometry fused with any other odometry source.
//!
//! The tracker is a fusion source like any other, so it is wired up here rather than by every
//! caller: its world frame, its place among the sources and its `enable_imu` all have to agree
//! with the filter's, and none of that is a choice a caller gets to make.

use vstd::prelude::*;

use crate::cuvslam_config::CuvslamOdometryConfig;
use crate::cuvslam_model::{build_failed, built, camera_info_taken, config_fault};
use crate::cuvslam_model::{depth_info_taken, depth_taken, emitted, image_taken, replied};
use crate::cuvslam_model::{untouched, CuvslamCore, CuvslamCounters, Step, TrackReply};
use crate::cuvslam_model::TrackerPlan;
use crate::eskf::InitialStds;
use crate::fusion_config::{ImuConfig, OdometryFusionConfig, SourceConfig};
use crate::fusion_model::{imu_known, imu_taken, published, source_at, source_taken, unstarted};
use crate::fusion_model::{FusionCore, FusionCounters};
use crate::numerics::Numerics;
use crate::ordered_map::{inserted, slot, FrameKey, OrderedMap};
use crate::scalar::Scalar;
use crate::source_key::SourceKey;
use crate::types::{look_up, looked_up, placed_in, CameraModel, ImageFrame, ImuSample};
use crate::types::{OdometryEstimate, PointCloud, Pose, Six, TfLookup};

verus! {

/// The tracker's own drifting world frame. It never leaves the core: it exists only to tell the
/// tracker's estimates apart from the other sources inside the filter.
pub open spec fn visual_odom_frame() -> Seq<char> {
    "visual_odom"@
}

#[derive(Clone, Debug)]
pub struct DimSlamCoreConfig {
    /// "stereo", "mono" or "rgbd". Mono is accurate only up to scale.
    pub camera_mode: String,
    /// One tf frame per camera in the tracker's index order; empty discovers them off camera_info.
    pub camera_frames: Vec<String>,
    pub rectified: bool,
    /// Off needs a tracker library that was built without GPU enforcement.
    pub use_gpu: bool,
    /// Empty means output_frame_id.
    pub rig_frame_id: String,
    /// Parent of the loop-closure correction, carried so a caller's frame naming survives.
    pub map_frame_id: String,
    /// Meters; over this the frame's motion is dropped and later frames rebase onto the held
    /// pose. Zero disables.
    pub covariance_gate_translation_std: Scalar,
    /// A teleport the covariance gate believes: m/s against the previous raw pose.
    pub speed_gate_max_linear: Scalar,
    /// The same in rad/s.
    pub speed_gate_max_angular: Scalar,
    /// Stamp spread one frame set may span, milliseconds; zero keeps the tracker's own limit
    /// of one.
    pub max_skew_ms: Scalar,
    /// Raw depth units per metre, keyed by the depth image's frame_id.
    pub frame_id_to_depth_units_per_meter: OrderedMap<String, Scalar>,
    /// Range gate on the returned depth cloud, metres; zero leaves it open.
    pub depth_cloud_min_range: Scalar,
    pub depth_cloud_max_range: Scalar,
    /// One median point per k x k depth block; one or less is off.
    pub depth_cloud_decimation: i64,
    /// Trust in the visual odometry, [x y z roll pitch yaw]. Negative takes the message
    /// covariance, zero drops the dimension, positive is a fixed variance. It drifts, so its
    /// covariance describes accumulated drift rather than the delta: prefer a fixed value.
    pub visual_odom_pose_variances: Six,
    /// Frame the fused output is stamped in.
    pub odom_frame_id: String,
    /// The body frame everything is resolved into: the tracker's output and the frame the filter
    /// estimates.
    pub output_frame_id: String,
    /// Output cadence per second; the filter itself runs at the IMU rate.
    pub publish_rate: Scalar,
    /// How far back a late measurement can reach before it is dropped.
    pub replay_buffer_seconds: Scalar,
    /// Outlier gate in standard deviations per measurement dimension; zero disables.
    pub mahalanobis_gate: Scalar,
    /// Gate on the filter's own state, which can run away with no bad measurement; zero disables.
    pub max_position_m: Scalar,
    /// Keyed by the frame_id an IMU's samples carry. Empty disables inertial propagation.
    pub imus: OrderedMap<String, ImuConfig>,
    /// m/s^2, the filter's gravity.
    pub initial_gravity_estimate: Scalar,
    /// Samples averaged while stationary to level the filter and take the IMU biases.
    pub imu_init_samples: i64,
    /// rad/s. Bias calibration restarts above this rate.
    pub imu_init_gyro_limit: Scalar,
    pub initial_stds: InitialStds,
    /// External sources, each identified by the transform its estimates carry. The visual
    /// odometry joins them under a key of its own.
    pub odom_sources: OrderedMap<SourceKey, SourceConfig>,
    /// Virtual zero-twist [vx vy vz wx wy wz] fused after each source update (needs an IMU): a
    /// positive entry pins that dimension to zero with this variance, zero frees it.
    pub per_dimension_error_variance: Six,
}

/// What the visual odometry is configured with. The filter owns the IMU: the tracker's own
/// inertial mode would double-count it.
pub open spec fn visual_part(c: DimSlamCoreConfig, v: CuvslamOdometryConfig) -> bool {
    &&& v.camera_mode == c.camera_mode
    &&& v.camera_frames == c.camera_frames
    &&& v.rectified == c.rectified
    &&& v.use_gpu == c.use_gpu
    &&& v.odom_frame_id@ == visual_odom_frame()
    &&& v.output_frame_id@ == c.output_frame_id@
    &&& v.rig_frame_id == c.rig_frame_id
    &&& v.map_frame_id == c.map_frame_id
    &&& v.covariance_gate_translation_std == c.covariance_gate_translation_std
    &&& v.speed_gate_max_linear == c.speed_gate_max_linear
    &&& v.speed_gate_max_angular == c.speed_gate_max_angular
    &&& v.max_skew_ms == c.max_skew_ms
    &&& !v.enable_imu
    &&& v.frame_id_to_depth_units_per_meter == c.frame_id_to_depth_units_per_meter
    &&& v.depth_cloud_min_range == c.depth_cloud_min_range
    &&& v.depth_cloud_max_range == c.depth_cloud_max_range
    &&& v.depth_cloud_decimation == c.depth_cloud_decimation
}

/// What the filter is configured with: the visual odometry is one of its sources, and an IMU is
/// used if one is configured.
pub open spec fn fusion_part(c: DimSlamCoreConfig, f: OdometryFusionConfig) -> bool {
    &&& f.odom_frame == c.odom_frame_id
    &&& f.base_frame@ == c.output_frame_id@
    &&& f.publish_rate == c.publish_rate
    &&& f.replay_buffer_seconds == c.replay_buffer_seconds
    &&& f.mahalanobis_gate == c.mahalanobis_gate
    &&& f.max_position_m == c.max_position_m
    &&& f.use_imu == (c.imus.entries@.len() > 0)
    &&& f.imus == c.imus
    &&& f.gravity == c.initial_gravity_estimate
    &&& f.imu_init_samples == c.imu_init_samples
    &&& f.imu_init_gyro_limit == c.imu_init_gyro_limit
    &&& f.initial_stds == c.initial_stds
    &&& sources_with(c, f.sources)
    &&& f.constraint_twist_variances == c.per_dimension_error_variance
}

/// The sources with the visual odometry among them, which reports no twist.
pub open spec fn sources_with(
    c: DimSlamCoreConfig,
    sources: OrderedMap<SourceKey, SourceConfig>,
) -> bool {
    exists|key: SourceKey|
        {
            &&& key.parts() == (visual_odom_frame(), c.output_frame_id@)
            &&& #[trigger] inserted(
                c.odom_sources.entries@,
                key,
                SourceConfig {
                    pose_variances: c.visual_odom_pose_variances,
                    twist_variances: Six::zeros(),
                },
                sources.entries@,
            )
        }
}

impl DimSlamCoreConfig {
    /// The maps are in order.
    pub open spec fn well_formed(&self) -> bool {
        &&& self.frame_id_to_depth_units_per_meter.well_formed()
        &&& self.imus.well_formed()
        &&& self.odom_sources.well_formed()
    }
}

/// Defers to the two cores so a field's default cannot drift from the core that reads it.
pub open spec fn defaults(
    v: CuvslamOdometryConfig,
    f: OdometryFusionConfig,
    c: DimSlamCoreConfig,
) -> bool {
    c == (DimSlamCoreConfig {
        camera_mode: v.camera_mode,
        camera_frames: v.camera_frames,
        rectified: v.rectified,
        use_gpu: v.use_gpu,
        rig_frame_id: v.rig_frame_id,
        map_frame_id: v.map_frame_id,
        covariance_gate_translation_std: v.covariance_gate_translation_std,
        speed_gate_max_linear: v.speed_gate_max_linear,
        speed_gate_max_angular: v.speed_gate_max_angular,
        max_skew_ms: v.max_skew_ms,
        frame_id_to_depth_units_per_meter: v.frame_id_to_depth_units_per_meter,
        depth_cloud_min_range: v.depth_cloud_min_range,
        depth_cloud_max_range: v.depth_cloud_max_range,
        depth_cloud_decimation: v.depth_cloud_decimation,
        visual_odom_pose_variances: Six::zeros(),
        odom_frame_id: f.odom_frame,
        output_frame_id: f.base_frame,
        publish_rate: f.publish_rate,
        replay_buffer_seconds: f.replay_buffer_seconds,
        mahalanobis_gate: f.mahalanobis_gate,
        max_position_m: f.max_position_m,
        imus: f.imus,
        initial_gravity_estimate: f.gravity,
        imu_init_samples: f.imu_init_samples,
        imu_init_gyro_limit: f.imu_init_gyro_limit,
        initial_stds: f.initial_stds,
        odom_sources: f.sources,
        per_dimension_error_variance: f.constraint_twist_variances,
    })
}

impl Default for DimSlamCoreConfig {
    fn default() -> (r: DimSlamCoreConfig)
        ensures
            exists|v: CuvslamOdometryConfig, f: OdometryFusionConfig|
                {
                    &&& call_ensures(CuvslamOdometryConfig::default, (), v)
                    &&& call_ensures(OdometryFusionConfig::default, (), f)
                    &&& #[trigger] defaults(v, f, r)
                },
            r.well_formed(),
    {
        let v = CuvslamOdometryConfig::default();
        let f = OdometryFusionConfig::default();
        let r = DimSlamCoreConfig {
            camera_mode: v.camera_mode,
            camera_frames: v.camera_frames,
            rectified: v.rectified,
            use_gpu: v.use_gpu,
            rig_frame_id: v.rig_frame_id,
            map_frame_id: v.map_frame_id,
            covariance_gate_translation_std: v.covariance_gate_translation_std,
            speed_gate_max_linear: v.speed_gate_max_linear,
            speed_gate_max_angular: v.speed_gate_max_angular,
            max_skew_ms: v.max_skew_ms,
            frame_id_to_depth_units_per_meter: v.frame_id_to_depth_units_per_meter,
            depth_cloud_min_range: v.depth_cloud_min_range,
            depth_cloud_max_range: v.depth_cloud_max_range,
            depth_cloud_decimation: v.depth_cloud_decimation,
            visual_odom_pose_variances: Six::zeros(),
            odom_frame_id: f.odom_frame,
            output_frame_id: f.base_frame,
            publish_rate: f.publish_rate,
            replay_buffer_seconds: f.replay_buffer_seconds,
            mahalanobis_gate: f.mahalanobis_gate,
            max_position_m: f.max_position_m,
            imus: f.imus,
            initial_gravity_estimate: f.gravity,
            imu_init_samples: f.imu_init_samples,
            imu_init_gyro_limit: f.imu_init_gyro_limit,
            initial_stds: f.initial_stds,
            odom_sources: f.sources,
            per_dimension_error_variance: f.constraint_twist_variances,
        };
        assert(defaults(v, f, r));
        r
    }
}

/// Visual-inertial odometry: tracking blended with any other odometry source.
///
/// Feed it frames, IMU samples and other sources' estimates, do what the steps that come back ask
/// for, then ask for output. The tracker's pose is fused in-process and never leaves the core.
pub struct DimSlamCore<N: Numerics> {
    pub visual_odometry: CuvslamCore<N>,
    pub fusion: FusionCore<N>,
    pub output_frame_id: String,
    pub use_imu: bool,
}

/// A tracked pose enters the filter like any other source.
pub open spec fn fused_in<N: Numerics>(
    before: FusionCore<N>,
    estimate: Option<OdometryEstimate>,
    after: FusionCore<N>,
) -> bool {
    match estimate {
        Some(msg) => source_taken(before, msg, after),
        None => after == before,
    }
}

/// What an IMU sample does: it goes to the filter, mounted where the transforms have it. It does
/// nothing if no IMU is configured or if it is not placed.
pub open spec fn sample_taken<N: Numerics, T: TfLookup>(
    before: DimSlamCore<N>,
    sample: ImuSample,
    tf: &T,
    after: DimSlamCore<N>,
) -> bool {
    if !before.use_imu {
        after == before
    } else {
        exists|pose: Option<Pose>|
            {
                &&& #[trigger] looked_up(tf, before.output_frame_id@, sample.frame_id@, pose)
                &&& match pose {
                    None => after == before,
                    Some(base_from_imu) => {
                        &&& imu_taken(before.fusion, sample, base_from_imu, after.fusion)
                        &&& after == (DimSlamCore { fusion: after.fusion, ..before })
                    },
                }
            }
    }
}

impl<N: Numerics> DimSlamCore<N> {
    /// Both halves are sound.
    pub open spec fn well_formed(&self) -> bool {
        self.visual_odometry.well_formed() && self.fusion.well_formed()
    }

    /// A core that has seen nothing yet, or what is wrong with the visual half's configuration.
    pub fn new(config: DimSlamCoreConfig, visual_numerics: N, fusion_numerics: N) -> (r: Result<
        Self,
        String,
    >)
        requires
            config.well_formed(),
        ensures
            match r {
                Ok(core) => {
                    &&& core.well_formed()
                    &&& visual_part(config, core.visual_odometry.config)
                    &&& fusion_part(config, core.fusion.config)
                    &&& core.visual_odometry.numerics == visual_numerics
                    &&& core.fusion.numerics == fusion_numerics
                    &&& untouched(core.visual_odometry)
                    &&& unstarted(core.fusion)
                    &&& core.output_frame_id@ == config.output_frame_id@
                    &&& core.use_imu == (config.imus.entries@.len() > 0)
                },
                Err(message) => exists|v: CuvslamOdometryConfig| #[trigger]
                    visual_part(config, v) && config_fault(v, message@),
            },
    {
        let visual_config = CuvslamOdometryConfig {
            camera_mode: config.camera_mode,
            camera_frames: config.camera_frames,
            rectified: config.rectified,
            use_gpu: config.use_gpu,
            odom_frame_id: "visual_odom".to_owned(),
            output_frame_id: config.output_frame_id.clone(),
            rig_frame_id: config.rig_frame_id,
            map_frame_id: config.map_frame_id,
            covariance_gate_translation_std: config.covariance_gate_translation_std,
            speed_gate_max_linear: config.speed_gate_max_linear,
            speed_gate_max_angular: config.speed_gate_max_angular,
            max_skew_ms: config.max_skew_ms,
            // The filter owns the IMU; the tracker's own inertial mode would double-count it.
            enable_imu: false,
            frame_id_to_depth_units_per_meter: config.frame_id_to_depth_units_per_meter,
            depth_cloud_min_range: config.depth_cloud_min_range,
            depth_cloud_max_range: config.depth_cloud_max_range,
            depth_cloud_decimation: config.depth_cloud_decimation,
        };
        assert(visual_part(config, visual_config));
        let visual_odometry = match CuvslamCore::new(visual_config, visual_numerics) {
            Ok(core) => core,
            Err(message) => return Err(message),
        };
        let key = SourceKey {
            parent_frame: "visual_odom".to_owned(),
            child_frame: config.output_frame_id.clone(),
        };
        let mut sources = config.odom_sources;
        sources.insert(
            key,
            SourceConfig {
                pose_variances: config.visual_odom_pose_variances,
                twist_variances: Six::zeros(),
            },
        );
        let use_imu: bool = config.imus.len() > 0;
        let fusion_config = OdometryFusionConfig {
            odom_frame: config.odom_frame_id,
            base_frame: config.output_frame_id.clone(),
            publish_rate: config.publish_rate,
            replay_buffer_seconds: config.replay_buffer_seconds,
            mahalanobis_gate: config.mahalanobis_gate,
            max_position_m: config.max_position_m,
            use_imu,
            imus: config.imus,
            gravity: config.initial_gravity_estimate,
            imu_init_samples: config.imu_init_samples,
            imu_init_gyro_limit: config.imu_init_gyro_limit,
            initial_stds: config.initial_stds,
            sources,
            constraint_twist_variances: config.per_dimension_error_variance,
        };
        let fusion = FusionCore::new(fusion_config, fusion_numerics);
        Ok(
            DimSlamCore {
                visual_odometry,
                fusion,
                output_frame_id: config.output_frame_id,
                use_imu,
            },
        )
    }

    pub fn handle_camera_info<T: TfLookup>(&mut self, info: CameraModel, tf: &T)
        requires
            old(self).well_formed(),
            old(self).visual_odometry.tracker.settled(),
        ensures
            final(self).well_formed(),
            camera_info_taken(
                old(self).visual_odometry,
                info,
                tf,
                final(self).visual_odometry,
            ),
            *final(self) == (DimSlamCore {
                visual_odometry: final(self).visual_odometry,
                ..*old(self)
            }),
    {
        self.visual_odometry.handle_camera_info(info, tf);
    }

    pub fn handle_depth_camera_info(&mut self, info: CameraModel)
        requires
            old(self).well_formed(),
        ensures
            final(self).well_formed(),
            final(self).visual_odometry == depth_info_taken(old(self).visual_odometry, info),
            *final(self) == (DimSlamCore {
                visual_odometry: final(self).visual_odometry,
                ..*old(self)
            }),
    {
        self.visual_odometry.handle_depth_camera_info(info);
    }

    /// Takes an image; what is due then.
    pub fn handle_image<T: TfLookup>(&mut self, img: ImageFrame, tf: &T) -> (step: Step)
        requires
            old(self).well_formed(),
            old(self).visual_odometry.tracker.settled(),
        ensures
            final(self).well_formed(),
            image_taken(
                old(self).visual_odometry,
                img,
                tf,
                final(self).visual_odometry,
                step,
            ),
            *final(self) == (DimSlamCore {
                visual_odometry: final(self).visual_odometry,
                ..*old(self)
            }),
    {
        self.visual_odometry.handle_image(img, tf)
    }

    /// Takes a depth image; the range-gated depth cloud, in the depth sensor's own frame, when
    /// there is one, and what is due then.
    pub fn handle_depth_image<T: TfLookup>(&mut self, img: ImageFrame, tf: &T) -> (r: (
        Option<PointCloud>,
        Step,
    ))
        requires
            old(self).well_formed(),
            old(self).visual_odometry.tracker.settled(),
        ensures
            final(self).well_formed(),
            depth_taken(
                old(self).visual_odometry,
                img,
                tf,
                final(self).visual_odometry,
                r.0,
                r.1,
            ),
            *final(self) == (DimSlamCore {
                visual_odometry: final(self).visual_odometry,
                ..*old(self)
            }),
    {
        self.visual_odometry.handle_depth_image(img, tf)
    }

    /// The tracker that was asked for has been made.
    pub fn handle_tracker_built<T: TfLookup>(&mut self, tf: &T) -> (step: Step)
        requires
            old(self).well_formed(),
            old(self).visual_odometry.tracker is Building,
        ensures
            final(self).well_formed(),
            built(old(self).visual_odometry, tf, final(self).visual_odometry, step),
            *final(self) == (DimSlamCore {
                visual_odometry: final(self).visual_odometry,
                ..*old(self)
            }),
    {
        self.visual_odometry.handle_tracker_built(tf)
    }

    /// The tracker that was asked for could not be made from this plan.
    pub fn handle_build_failure(&mut self, plan: TrackerPlan) -> (step: Step)
        requires
            old(self).well_formed(),
            old(self).visual_odometry.tracker is Building,
        ensures
            final(self).well_formed(),
            build_failed(old(self).visual_odometry, plan, final(self).visual_odometry, step),
            *final(self) == (DimSlamCore {
                visual_odometry: final(self).visual_odometry,
                ..*old(self)
            }),
    {
        self.visual_odometry.handle_build_failure(plan)
    }

    /// Takes the tracker's reply to a frame set, and fuses the pose if there is one.
    pub fn handle_track_reply(&mut self, reply: TrackReply)
        requires
            old(self).well_formed(),
            old(self).visual_odometry.tracker is Tracking,
        ensures
            final(self).well_formed(),
            exists|estimate: Option<OdometryEstimate>|
                {
                    &&& #[trigger] replied(
                        old(self).visual_odometry,
                        old(self).visual_odometry.tracker->newest_ns,
                        reply,
                        final(self).visual_odometry,
                        estimate,
                    )
                    &&& fused_in(old(self).fusion, estimate, final(self).fusion)
                },
            *final(self) == (DimSlamCore {
                visual_odometry: final(self).visual_odometry,
                fusion: final(self).fusion,
                ..*old(self)
            }),
    {
        let estimate = self.visual_odometry.handle_track_reply(reply);
        self.fuse(estimate);
    }

    fn fuse(&mut self, estimate: Option<OdometryEstimate>)
        requires
            old(self).fusion.well_formed(),
        ensures
            final(self).fusion.well_formed(),
            fused_in(old(self).fusion, estimate, final(self).fusion),
            *final(self) == (DimSlamCore { fusion: final(self).fusion, ..*old(self) }),
    {
        if let Some(msg) = estimate {
            self.fusion.handle_source(&msg);
        }
    }

    /// Takes an IMU sample. A no-op with no IMU configured. The mount is read off `tf`, so the
    /// sample's frame must be placed in the output frame.
    pub fn handle_imu<T: TfLookup>(&mut self, sample: &ImuSample, tf: &T)
        requires
            old(self).well_formed(),
            old(self).use_imu && !old(self).fusion.initialized && imu_known(
                old(self).fusion,
                sample.frame_id@,
            ) && placed_in(tf, old(self).output_frame_id@, sample.frame_id@)
                ==> old(self).fusion.config.usable(),
        ensures
            final(self).well_formed(),
            sample_taken(*old(self), *sample, tf, *final(self)),
    {
        if !self.use_imu {
            return;
        }
        let pose = look_up(tf, self.output_frame_id.as_str(), sample.frame_id.as_str());
        if let Some(base_from_imu) = pose {
            assert(placed_in(tf, self.output_frame_id@, sample.frame_id@));
            self.fusion.handle_imu(sample, &base_from_imu);
        }
    }

    /// Takes an external odometry source's estimate, told apart by the transform it carries.
    pub fn handle_source(&mut self, msg: &OdometryEstimate)
        requires
            old(self).well_formed(),
        ensures
            final(self).well_formed(),
            source_taken(old(self).fusion, *msg, final(self).fusion),
            *final(self) == (DimSlamCore { fusion: final(self).fusion, ..*old(self) }),
    {
        self.fusion.handle_source(msg);
    }

    /// The fused pose, once a publish period has elapsed.
    pub fn maybe_publish(&mut self) -> (r: Option<OdometryEstimate>)
        requires
            old(self).well_formed(),
        ensures
            final(self).well_formed(),
            published(old(self).fusion, final(self).fusion, r),
            *final(self) == (DimSlamCore { fusion: final(self).fusion, ..*old(self) }),
    {
        self.fusion.maybe_publish()
    }

    /// What the two halves have seen and done so far.
    pub fn report(&self) -> (r: (CuvslamCounters, FusionCounters))
        ensures
            r == (self.visual_odometry.counters, self.fusion.counters),
    {
        (self.visual_odometry.report(), self.fusion.report())
    }
}

/// What was put under a key is there.
proof fn lemma_inserted_holds(
    before: Seq<(SourceKey, SourceConfig)>,
    key: SourceKey,
    value: SourceConfig,
    after: Seq<(SourceKey, SourceConfig)>,
) -> (i: int)
    requires
        inserted(before, key, value, after),
    ensures
        0 <= i < after.len(),
        after[i].0.parts() == key.parts(),
        after[i].1 == value,
{
    let i = choose|i: int| #[trigger]
        slot(before, key.parts(), i) && after == if i < before.len() && before[i].0.parts()
            == key.parts() {
            before.update(i, (before[i].0, value))
        } else {
            before.insert(i, (key, value))
        };
    i
}

/// Law: the two halves agree on the wiring. Whatever the visual half gives out carries the
/// transform of one of the filter's sources, whose pose is fused with the configured variances and
/// whose twist is not; so a tracked pose is never dropped for its frame.
pub proof fn law_tracked_pose_is_a_source<N: Numerics>(
    config: DimSlamCoreConfig,
    core: DimSlamCore<N>,
    timestamp_ns: i64,
    out: OdometryEstimate,
)
    requires
        visual_part(config, core.visual_odometry.config),
        fusion_part(config, core.fusion.config),
        emitted(core.visual_odometry, timestamp_ns, out),
    ensures
        !core.visual_odometry.config.enable_imu,
        exists|index: int|
            {
                &&& #[trigger] source_at(core.fusion, out, index)
                &&& core.fusion.config.sources.entries@[index].1 == (SourceConfig {
                    pose_variances: config.visual_odom_pose_variances,
                    twist_variances: Six::zeros(),
                })
            },
{
    let entries = core.fusion.config.sources.entries@;
    let value = SourceConfig {
        pose_variances: config.visual_odom_pose_variances,
        twist_variances: Six::zeros(),
    };
    let key = choose|key: SourceKey|
        {
            &&& key.parts() == (visual_odom_frame(), config.output_frame_id@)
            &&& #[trigger] inserted(config.odom_sources.entries@, key, value, entries)
        };
    let i = lemma_inserted_holds(config.odom_sources.entries@, key, value, entries);
    assert(source_at(core.fusion, out, i));
}

} // verus!
