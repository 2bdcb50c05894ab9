//! Visual-inertial odometry: a visual front end and an error-state Kalman filter.
//!
//! [`DimSlamCore`] is the whole thing: feed it frames, IMU samples and any other odometry source,
//! then ask for the fused pose. It owns the tracker's wiring into the filter. [`DimSlam`] is the
//! same as a node that also says what to send.
//!
//! The two halves are also public on their own. [`CuvslamCore`] turns camera, depth and IMU frames
//! into a pose; [`FusionCore`] blends a pose with any other odometry source against IMU
//! propagation. Reach for them only when the wiring itself has to differ.
//!
//! All are synchronous and own no threads or transport. The tracker itself is run by the caller:
//! an input gives back the [`Step`] that is due. Floating-point arithmetic is the caller's too:
//! numbers are held by their bit patterns, and every formula is written out in the operations of
//! [`Numerics`], about which nothing is assumed. The contracts say which operation is applied to
//! which values. [`fusion_replay`], [`visual_replay`] and [`core_replay`] say that replaying a
//! recording gives the same outputs, bit for bit, if those operations, the transforms and the
//! tracker repeat. [`exact`] says what numbers, rotations and poses mean, and the laws that build
//! on it what the formulas do to space where arithmetic does not round.

pub mod camera_laws;
pub mod core_replay;
pub mod cuvslam_config;
pub mod cuvslam_laws;
pub mod cuvslam_model;
pub mod cuvslam_odometry;
pub mod depth_cloud;
pub mod depth_pixels;
pub mod depth_replay;
pub mod depth_reproject;
pub mod dim_slam_core;
pub mod eskf;
pub mod estimator;
pub mod exact;
pub mod exact_laws;
pub mod filter_laws;
pub mod formulas;
pub mod fused_depth;
pub mod fusion_config;
pub mod fusion_laws;
pub mod fusion_model;
pub mod fusion_replay;
pub mod gain_laws;
pub mod log;
pub mod motion_laws;
pub mod node;
pub mod numerics;
pub mod odometry_fusion;
pub mod ordered_map;
pub mod pipeline_laws;
pub mod repeatability;
pub mod rig;
pub mod scalar;
pub mod source_key;
pub mod stamp;
pub mod text;
pub mod track_runs;
pub mod tracker;
pub mod types;
pub mod visual_replay;
pub mod wire;

pub use crate::cuvslam_config::CuvslamOdometryConfig;
pub use crate::cuvslam_model::{CuvslamCore, Step};
pub use crate::dim_slam_core::{DimSlamCore, DimSlamCoreConfig};
pub use crate::eskf::InitialStds;
pub use crate::fusion_config::{ImuConfig, OdometryFusionConfig, SourceConfig};
pub use crate::fusion_model::FusionCore;
pub use crate::node::{DimSlam, DimSlamConfig};
pub use crate::numerics::Numerics;
pub use crate::types::{CameraModel, ImageFrame, ImuNoiseModel, ImuSample, OdometryEstimate};
pub use crate::types::{PointCloud, TfLookup, Twist};
