//! Configuration of the visual odometry.

use vstd::prelude::*;

use crate::ordered_map::OrderedMap;
use crate::scalar::Scalar;

verus! {

#[derive(Clone, Debug)]
pub struct CuvslamOdometryConfig {
    /// "stereo", "mono" or "rgbd". Mono is accurate only up to scale.
    pub camera_mode: String,
    /// One tf frame per camera in the tracker's index order; empty discovers them off camera_info.
    pub camera_frames: Vec<String>,
    pub rectified: bool,
    /// Off needs a tracker library that was built without GPU enforcement.
    pub use_gpu: bool,
    /// Frame stamped on the emitted odometry; the tracker's world, drifting freely.
    pub odom_frame_id: String,
    pub output_frame_id: String,
    /// Empty means output_frame_id.
    pub rig_frame_id: String,
    /// Parent of the loop-closure correction, carried only so that a caller's frame naming
    /// survives the trip.
    pub map_frame_id: String,
    /// Meters; over this the frame's motion is dropped and later frames rebase onto the held pose.
    /// Zero disables.
    pub covariance_gate_translation_std: Scalar,
    /// A teleport the covariance gate believes: m/s against the previous raw pose.
    pub speed_gate_max_linear: Scalar,
    /// The same in rad/s.
    pub speed_gate_max_angular: Scalar,
    /// Stamp spread one frame set may span, milliseconds; zero keeps the tracker's own limit
    /// of one.
    pub max_skew_ms: Scalar,
    /// The tracker's inertial mode: stereo plus one IMU, whose noise model `handle_imu_info`
    /// supplies.
    pub enable_imu: bool,
    /// Raw depth units per metre, keyed by the depth image's frame_id. A thousand for sixteen-bit
    /// millimetres. Depth from a frame with no entry is dropped rather than scaled by a number
    /// belonging to another camera.
    pub frame_id_to_depth_units_per_meter: OrderedMap<String, Scalar>,
    /// Range gate on the returned depth cloud, metres; zero leaves it open.
    pub depth_cloud_min_range: Scalar,
    pub depth_cloud_max_range: Scalar,
    /// One median point per k x k depth block; one or less is off.
    pub depth_cloud_decimation: i64,
}

/// A zeroed default would divide depth by nothing and silently pick mono.
impl Default for CuvslamOdometryConfig {
    fn default() -> (r: CuvslamOdometryConfig)
        ensures
            r.camera_mode@ == "stereo"@,
            r.camera_frames@.len() == 0,
            r.rectified,
            r.use_gpu,
            r.odom_frame_id@ == "odom"@,
            r.output_frame_id@ == "base_link"@,
            r.rig_frame_id@.len() == 0,
            r.map_frame_id@ == "map"@,
            r.covariance_gate_translation_std == Scalar::zero(),
            r.speed_gate_max_linear == Scalar::zero(),
            r.speed_gate_max_angular == Scalar::zero(),
            r.max_skew_ms == Scalar::zero(),
            !r.enable_imu,
            r.frame_id_to_depth_units_per_meter.entries@.len() == 0,
            r.frame_id_to_depth_units_per_meter.well_formed(),
            r.depth_cloud_min_range == Scalar::zero(),
            r.depth_cloud_max_range == Scalar::zero(),
            r.depth_cloud_decimation == 0,
    {
        CuvslamOdometryConfig {
            camera_mode: "stereo".to_owned(),
            camera_frames: Vec::new(),
            rectified: true,
            use_gpu: true,
            odom_frame_id: "odom".to_owned(),
            output_frame_id: "base_link".to_owned(),
            rig_frame_id: String::new(),
            map_frame_id: "map".to_owned(),
            covariance_gate_translation_std: Scalar::zero(),
            speed_gate_max_linear: Scalar::zero(),
            speed_gate_max_angular: Scalar::zero(),
            max_skew_ms: Scalar::zero(),
            enable_imu: false,
            frame_id_to_depth_units_per_meter: OrderedMap::new(),
            depth_cloud_min_range: Scalar::zero(),
            depth_cloud_max_range: Scalar::zero(),
            depth_cloud_decimation: 0,
        }
    }
}

impl CuvslamOdometryConfig {
    /// The frame that the tracker tracks.
    pub open spec fn rig_frame_name(&self) -> Seq<char> {
        if self.rig_frame_id@.len() == 0 {
            self.output_frame_id@
        } else {
            self.rig_frame_id@
        }
    }

    /// The frame that the tracker tracks.
    pub fn rig_frame(&self) -> (r: &str)
        ensures
            r@ == self.rig_frame_name(),
    {
        if self.rig_frame_id.as_str().is_empty() {
            self.output_frame_id.as_str()
        } else {
            self.rig_frame_id.as_str()
        }
    }
}

} // verus!
