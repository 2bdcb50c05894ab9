//! The two halves wired up as a node: frames, IMU samples and other sources in, the fused
//! odometry with its transforms and the depth cloud out.
//!
//! The tracker's pose stream never leaves the node; it enters the filter as a drifting source under
//! a frame of its own, alongside any external sources. The transforms that go out are that from
//! the odometry frame to the body, and an identity from the map to the odometry frame until a map
//! correction exists.

use vstd::prelude::*;

use crate::cuvslam_config::CuvslamOdometryConfig;
use crate::cuvslam_model::{build_failed, built, camera_info_taken, config_fault};
use crate::cuvslam_model::{depth_info_taken, depth_taken, image_taken, imu_info_taken};
use crate::cuvslam_model::{imu_queued, replied, untouched, CuvslamCore, CuvslamCounters, Step};
use crate::cuvslam_model::{TrackReply, TrackerPlan};
use crate::dim_slam_core::fused_in;
use crate::eskf::InitialStds;
use crate::fusion_config::{ImuConfig, OdometryFusionConfig, SourceConfig};
use crate::fusion_model::{imu_known, imu_taken, published, unstarted, FusionCore, FusionCounters};
use crate::numerics::Numerics;
use crate::ordered_map::OrderedMap;
use crate::scalar::Scalar;
use crate::source_key::SourceKey;
use crate::stamp::split;
use crate::types::{look_up, looked_up, placed_in, CameraModel, ImageFrame, ImuNoiseModel};
use crate::types::{ImuSample, OdometryEstimate, PointCloud, Pose, Six, TfLookup};
use crate::wire::{to_message, transforms, transforms_for, OdometryMessage, StampedTransform};

verus! {

#[derive(Clone, Debug)]
pub struct DimSlamConfig {
    pub camera_mode: String,
    pub camera_frames: Vec<String>,
    pub rectified: bool,
    pub use_gpu: bool,
    /// Frame the tracker's own odometry drifts in; fused as a drifting source, so it must appear
    /// among the sources.
    pub visual_odom_frame: String,
    pub rig_frame: String,
    pub covariance_gate_translation_std: Scalar,
    pub speed_gate_max_linear: Scalar,
    pub speed_gate_max_angular: Scalar,
    /// The tracker's own inertial mode, separate from the filter's use_imu.
    pub cuvslam_enable_imu: bool,
    pub frame_id_to_depth_units_per_meter: OrderedMap<String, Scalar>,
    pub depth_cloud_min_range: Scalar,
    pub depth_cloud_max_range: Scalar,
    pub depth_cloud_decimation: i64,
    pub odom_frame: String,
    pub base_frame: String,
    pub map_frame: String,
    pub publish_map_to_odom: bool,
    pub publish_tf: bool,
    pub publish_rate: Scalar,
    pub replay_buffer_seconds: Scalar,
    pub mahalanobis_gate: Scalar,
    pub max_position_m: Scalar,
    pub use_imu: bool,
    pub imus: OrderedMap<String, ImuConfig>,
    pub gravity: Scalar,
    pub imu_init_samples: i64,
    pub imu_init_gyro_limit: Scalar,
    pub initial_stds: InitialStds,
    pub sources: OrderedMap<SourceKey, SourceConfig>,
    pub constraint_twist_variances: Six,
}

impl DimSlamConfig {
    /// The maps are in order.
    pub open spec fn well_formed(&self) -> bool {
        &&& self.frame_id_to_depth_units_per_meter.well_formed()
        &&& self.imus.well_formed()
        &&& self.sources.well_formed()
    }
}

/// What the visual half is configured with.
pub open spec fn visual_settings(c: DimSlamConfig, v: CuvslamOdometryConfig) -> bool {
    &&& v.camera_mode == c.camera_mode
    &&& v.camera_frames == c.camera_frames
    &&& v.rectified == c.rectified
    &&& v.use_gpu == c.use_gpu
    &&& v.odom_frame_id == c.visual_odom_frame
    &&& v.output_frame_id@ == c.base_frame@
    &&& v.rig_frame_id == c.rig_frame
    &&& v.map_frame_id@ == c.map_frame@
    &&& v.covariance_gate_translation_std == c.covariance_gate_translation_std
    &&& v.speed_gate_max_linear == c.speed_gate_max_linear
    &&& v.speed_gate_max_angular == c.speed_gate_max_angular
    &&& v.max_skew_ms == Scalar::zero()
    &&& v.enable_imu == c.cuvslam_enable_imu
    &&& v.frame_id_to_depth_units_per_meter == c.frame_id_to_depth_units_per_meter
    &&& v.depth_cloud_min_range == c.depth_cloud_min_range
    &&& v.depth_cloud_max_range == c.depth_cloud_max_range
    &&& v.depth_cloud_decimation == c.depth_cloud_decimation
}

/// What the filter is configured with.
pub open spec fn fusion_settings(c: DimSlamConfig, f: OdometryFusionConfig) -> bool {
    &&& f.odom_frame == c.odom_frame
    &&& f.base_frame@ == c.base_frame@
    &&& f.publish_rate == c.publish_rate
    &&& f.replay_buffer_seconds == c.replay_buffer_seconds
    &&& f.mahalanobis_gate == c.mahalanobis_gate
    &&& f.max_position_m == c.max_position_m
    &&& f.use_imu == c.use_imu
    &&& f.imus == c.imus
    &&& f.gravity == c.gravity
    &&& f.imu_init_samples == c.imu_init_samples
    &&& f.imu_init_gyro_limit == c.imu_init_gyro_limit
    &&& f.initial_stds == c.initial_stds
    &&& f.sources == c.sources
    &&& f.constraint_twist_variances == c.constraint_twist_variances
}

/// What goes out with a fused estimate.
pub struct Publication {
    pub message: OdometryMessage,
    pub transforms: Vec<StampedTransform>,
}

/// The node.
pub struct DimSlam<N: Numerics> {
    pub vo: CuvslamCore<N>,
    pub fusion: FusionCore<N>,
    pub cuvslam_enable_imu: bool,
    pub use_imu: bool,
    pub base_frame: String,
    pub map_frame: String,
    pub publish_map_to_odom: bool,
    pub publish_tf: bool,
}

/// `p` is the estimate as it goes out, with its transforms.
pub open spec fn sent_as(
    estimate: OdometryEstimate,
    publish_tf: bool,
    publish_map_to_odom: bool,
    map_frame: Seq<char>,
    p: Publication,
) -> bool {
    &&& p.message.stamp == split(estimate.timestamp_ns as int)
    &&& p.message.frame_id@ == estimate.frame_id@
    &&& p.message.child_frame_id@ == estimate.child_frame_id@
    &&& p.message.pose == estimate.pose
    &&& p.message.pose_covariance@ == estimate.pose_covariance.entries@
    &&& p.message.twist == estimate.twist
    &&& p.message.twist_covariance@ == estimate.twist_covariance.entries@
    &&& p.transforms@.map_values(|t: StampedTransform| t@) == transforms_for(
        estimate,
        publish_tf,
        publish_map_to_odom,
        map_frame,
    )
}

/// What publishing does: a fused estimate that is due goes out.
pub open spec fn node_published<N: Numerics>(
    before: DimSlam<N>,
    after: DimSlam<N>,
    r: Option<Publication>,
) -> bool {
    exists|estimate: Option<OdometryEstimate>|
        {
            &&& #[trigger] published(before.fusion, after.fusion, estimate)
            &&& after == (DimSlam { fusion: after.fusion, ..before })
            &&& match estimate {
                Some(msg) => r matches Some(p) && sent_as(
                    msg,
                    before.publish_tf,
                    before.publish_map_to_odom,
                    before.map_frame@,
                    p,
                ),
                None => r is None,
            }
        }
}

/// What an odometry message does: it is fused, and the outcome goes out if it is due.
pub open spec fn node_fused<N: Numerics>(
    before: DimSlam<N>,
    estimate: Option<OdometryEstimate>,
    after: DimSlam<N>,
    r: Option<Publication>,
) -> bool {
    if estimate is None {
        after == before && r is None
    } else {
        exists|fused: DimSlam<N>|
            {
                &&& fused_in(before.fusion, estimate, fused.fusion)
                &&& fused == (DimSlam { fusion: fused.fusion, ..before })
                &&& #[trigger] node_published(fused, after, r)
            }
    }
}

/// What an IMU sample does: it goes to the tracker if that has an inertial mode, and to the filter
/// if that uses an IMU and the sample's frame is placed; then the outcome goes out if it is due.
pub open spec fn node_sampled<N: Numerics, T: TfLookup>(
    before: DimSlam<N>,
    msg: ImuSample,
    tf: &T,
    after: DimSlam<N>,
    r: Option<Publication>,
) -> bool {
    exists|queued: DimSlam<N>|
        {
            &&& #[trigger] node_queued(before, msg, queued)
            &&& if !before.use_imu {
                after == queued && r is None
            } else {
                exists|pose: Option<Pose>|
                    {
                        &&& #[trigger] looked_up(tf, before.base_frame@, msg.frame_id@, pose)
                        &&& match pose {
                            None => after == queued && r is None,
                            Some(base_from_imu) => node_propagated(
                                queued,
                                msg,
                                base_from_imu,
                                after,
                                r,
                            ),
                        }
                    }
            }
        }
}

/// See [`node_sampled`]: the tracker's part.
pub open spec fn node_queued<N: Numerics>(
    before: DimSlam<N>,
    msg: ImuSample,
    after: DimSlam<N>,
) -> bool {
    if before.cuvslam_enable_imu {
        &&& imu_queued(before.vo, msg, after.vo)
        &&& after == (DimSlam { vo: after.vo, ..before })
    } else {
        after == before
    }
}

/// See [`node_sampled`]: the filter's part.
pub open spec fn node_propagated<N: Numerics>(
    before: DimSlam<N>,
    msg: ImuSample,
    base_from_imu: Pose,
    after: DimSlam<N>,
    r: Option<Publication>,
) -> bool {
    exists|fused: DimSlam<N>|
        {
            &&& imu_taken(before.fusion, msg, base_from_imu, fused.fusion)
            &&& fused == (DimSlam { fusion: fused.fusion, ..before })
            &&& #[trigger] node_published(fused, after, r)
        }
}

impl<N: Numerics> DimSlam<N> {
    /// Both halves are sound.
    pub open spec fn well_formed(&self) -> bool {
        self.vo.well_formed() && self.fusion.well_formed()
    }

    /// Sets the two halves up, or says what is wrong with the visual half's configuration.
    pub fn init(config: DimSlamConfig, visual_numerics: N, fusion_numerics: N) -> (r: Result<
        Self,
        String,
    >)
        requires
            config.well_formed(),
        ensures
            match r {
                Ok(node) => {
                    &&& node.well_formed()
                    &&& visual_settings(config, node.vo.config)
                    &&& fusion_settings(config, node.fusion.config)
                    &&& node.vo.numerics == visual_numerics
                    &&& node.fusion.numerics == fusion_numerics
                    &&& untouched(node.vo)
                    &&& unstarted(node.fusion)
                    &&& node.cuvslam_enable_imu == config.cuvslam_enable_imu
                    &&& node.use_imu == config.use_imu
                    &&& node.base_frame@ == config.base_frame@
                    &&& node.map_frame@ == config.map_frame@
                    &&& node.publish_map_to_odom == config.publish_map_to_odom
                    &&& node.publish_tf == config.publish_tf
                },
                Err(message) => exists|v: CuvslamOdometryConfig| #[trigger]
                    visual_settings(config, v) && config_fault(v, message@),
            },
    {
        let visual_config = CuvslamOdometryConfig {
            camera_mode: config.camera_mode,
            camera_frames: config.camera_frames,
            rectified: config.rectified,
            use_gpu: config.use_gpu,
            odom_frame_id: config.visual_odom_frame,
            output_frame_id: config.base_frame.clone(),
            rig_frame_id: config.rig_frame,
            map_frame_id: config.map_frame.clone(),
            covariance_gate_translation_std: config.covariance_gate_translation_std,
            speed_gate_max_linear: config.speed_gate_max_linear,
            speed_gate_max_angular: config.speed_gate_max_angular,
            max_skew_ms: Scalar::zero(),
            enable_imu: config.cuvslam_enable_imu,
            frame_id_to_depth_units_per_meter: config.frame_id_to_depth_units_per_meter,
            depth_cloud_min_range: config.depth_cloud_min_range,
            depth_cloud_max_range: config.depth_cloud_max_range,
            depth_cloud_decimation: config.depth_cloud_decimation,
        };
        assert(visual_settings(config, visual_config));
        let vo = match CuvslamCore::new(visual_config, visual_numerics) {
            Ok(vo) => vo,
            Err(message) => return Err(message),
        };
        let fusion_config = OdometryFusionConfig {
            odom_frame: config.odom_frame,
            base_frame: config.base_frame.clone(),
            publish_rate: config.publish_rate,
            replay_buffer_seconds: config.replay_buffer_seconds,
            mahalanobis_gate: config.mahalanobis_gate,
            max_position_m: config.max_position_m,
            use_imu: config.use_imu,
            imus: config.imus,
            gravity: config.gravity,
            imu_init_samples: config.imu_init_samples,
            imu_init_gyro_limit: config.imu_init_gyro_limit,
            initial_stds: config.initial_stds,
            sources: config.sources,
            constraint_twist_variances: config.constraint_twist_variances,
        };
        let fusion = FusionCore::new(fusion_config, fusion_numerics);
        Ok(
            DimSlam {
                vo,
                fusion,
                cuvslam_enable_imu: config.cuvslam_enable_imu,
                use_imu: config.use_imu,
                base_frame: config.base_frame,
                map_frame: config.map_frame,
                publish_map_to_odom: config.publish_map_to_odom,
                publish_tf: config.publish_tf,
            },
        )
    }

    pub fn handle_camera_info<T: TfLookup>(&mut self, info: CameraModel, tf: &T)
        requires
            old(self).well_formed(),
            old(self).vo.tracker.settled(),
        ensures
            final(self).well_formed(),
            camera_info_taken(old(self).vo, info, tf, final(self).vo),
            *final(self) == (DimSlam { vo: final(self).vo, ..*old(self) }),
    {
        self.vo.handle_camera_info(info, tf);
    }

    /// Takes an image; what is due then.
    pub fn handle_image<T: TfLookup>(&mut self, img: ImageFrame, tf: &T) -> (step: Step)
        requires
            old(self).well_formed(),
            old(self).vo.tracker.settled(),
        ensures
            final(self).well_formed(),
            image_taken(old(self).vo, img, tf, final(self).vo, step),
            *final(self) == (DimSlam { vo: final(self).vo, ..*old(self) }),
    {
        self.vo.handle_image(img, tf)
    }

    /// Takes a depth image; its cloud, to be sent, and what is due then.
    pub fn handle_depth_image<T: TfLookup>(&mut self, img: ImageFrame, tf: &T) -> (r: (
        Option<PointCloud>,
        Step,
    ))
        requires
            old(self).well_formed(),
            old(self).vo.tracker.settled(),
        ensures
            final(self).well_formed(),
            depth_taken(old(self).vo, img, tf, final(self).vo, r.0, r.1),
            *final(self) == (DimSlam { vo: final(self).vo, ..*old(self) }),
    {
        self.vo.handle_depth_image(img, tf)
    }

    pub fn handle_depth_camera_info(&mut self, info: CameraModel)
        requires
            old(self).well_formed(),
        ensures
            final(self).well_formed(),
            final(self).vo == depth_info_taken(old(self).vo, info),
            *final(self) == (DimSlam { vo: final(self).vo, ..*old(self) }),
    {
        self.vo.handle_depth_camera_info(info);
    }

    pub fn handle_imu_info<T: TfLookup>(&mut self, info: ImuNoiseModel, tf: &T)
        requires
            old(self).well_formed(),
            old(self).vo.tracker.settled(),
        ensures
            final(self).well_formed(),
            imu_info_taken(old(self).vo, info, tf, final(self).vo),
            *final(self) == (DimSlam { vo: final(self).vo, ..*old(self) }),
    {
        self.vo.handle_imu_info(info, tf);
    }

    /// The tracker that was asked for has been made.
    pub fn handle_tracker_built<T: TfLookup>(&mut self, tf: &T) -> (step: Step)
        requires
            old(self).well_formed(),
            old(self).vo.tracker is Building,
        ensures
            final(self).well_formed(),
            built(old(self).vo, tf, final(self).vo, step),
            *final(self) == (DimSlam { vo: final(self).vo, ..*old(self) }),
    {
        self.vo.handle_tracker_built(tf)
    }

    /// The tracker that was asked for could not be made from this plan.
    pub fn handle_build_failure(&mut self, plan: TrackerPlan) -> (step: Step)
        requires
            old(self).well_formed(),
            old(self).vo.tracker is Building,
        ensures
            final(self).well_formed(),
            build_failed(old(self).vo, plan, final(self).vo, step),
            *final(self) == (DimSlam { vo: final(self).vo, ..*old(self) }),
    {
        self.vo.handle_build_failure(plan)
    }

    /// Takes the tracker's reply to a frame set. Its pose enters the filter like any other source.
    pub fn handle_track_reply(&mut self, reply: TrackReply) -> (r: Option<Publication>)
        requires
            old(self).well_formed(),
            old(self).vo.tracker is Tracking,
        ensures
            final(self).well_formed(),
            exists|estimate: Option<OdometryEstimate>|
                {
                    &&& #[trigger] replied(
                        old(self).vo,
                        old(self).vo.tracker->newest_ns,
                        reply,
                        final(self).vo,
                        estimate,
                    )
                    &&& node_fused(
                        DimSlam { vo: final(self).vo, ..*old(self) },
                        estimate,
                        *final(self),
                        r,
                    )
                },
    {
        let estimate = self.vo.handle_track_reply(reply);
        self.fuse(estimate)
    }

    /// Takes an external source's estimate.
    pub fn handle_sources(&mut self, msg: OdometryEstimate) -> (r: Option<Publication>)
        requires
            old(self).well_formed(),
        ensures
            final(self).well_formed(),
            node_fused(*old(self), Some(msg), *final(self), r),
    {
        self.fuse(Some(msg))
    }

    /// Takes an IMU sample.
    pub fn handle_imu<T: TfLookup>(&mut self, msg: &ImuSample, tf: &T) -> (r: Option<Publication>)
        requires
            old(self).well_formed(),
            old(self).use_imu && !old(self).fusion.initialized && imu_known(
                old(self).fusion,
                msg.frame_id@,
            ) && placed_in(tf, old(self).base_frame@, msg.frame_id@)
                ==> old(self).fusion.config.usable(),
        ensures
            final(self).well_formed(),
            node_sampled(*old(self), *msg, tf, *final(self), r),
    {
        let ghost before = *self;
        if self.cuvslam_enable_imu {
            self.vo.handle_imu(msg);
        }
        let ghost queued = *self;
        assert(node_queued(before, *msg, queued));
        if !self.use_imu {
            return None;
        }
        let pose = look_up(tf, self.base_frame.as_str(), msg.frame_id.as_str());
        match pose {
            None => None,
            Some(base_from_imu) => {
                assert(placed_in(tf, self.base_frame@, msg.frame_id@));
                self.fusion.handle_imu(msg, &base_from_imu);
                let ghost fused = *self;
                let r = self.publish();
                assert(node_published(fused, *self, r));
                assert(node_propagated(queued, *msg, base_from_imu, *self, r));
                r
            },
        }
    }

    fn fuse(&mut self, estimate: Option<OdometryEstimate>) -> (r: Option<Publication>)
        requires
            old(self).well_formed(),
        ensures
            final(self).well_formed(),
            final(self).vo == old(self).vo,
            node_fused(*old(self), estimate, *final(self), r),
    {
        match estimate {
            None => None,
            Some(msg) => {
                self.fusion.handle_source(&msg);
                let ghost fused = *self;
                let r = self.publish();
                assert(node_published(fused, *self, r));
                r
            },
        }
    }

    /// What is to be sent, if a fused estimate is due.
    fn publish(&mut self) -> (r: Option<Publication>)
        requires
            old(self).well_formed(),
        ensures
            final(self).well_formed(),
            final(self).vo == old(self).vo,
            node_published(*old(self), *final(self), r),
    {
        let ghost before = *self;
        let estimate = self.fusion.maybe_publish();
        assert(published(before.fusion, self.fusion, estimate));
        match estimate {
            None => None,
            Some(msg) => {
                let message = to_message(&msg);
                let transforms = transforms(
                    &msg,
                    self.publish_tf,
                    self.publish_map_to_odom,
                    self.map_frame.as_str(),
                );
                let p = Publication { message, transforms };
                assert(sent_as(
                    msg,
                    before.publish_tf,
                    before.publish_map_to_odom,
                    before.map_frame@,
                    p,
                ));
                Some(p)
            },
        }
    }

    /// What the two halves have seen and done so far.
    pub fn report(&self) -> (r: (CuvslamCounters, FusionCounters))
        ensures
            r == (self.vo.counters, self.fusion.counters),
    {
        (self.vo.report(), self.fusion.report())
    }
}

} // verus!
