//! Configuration of the odometry fusion.

use vstd::prelude::*;

use crate::eskf::{InitialStds, Noise};
use crate::ordered_map::OrderedMap;
use crate::scalar::Scalar;
use crate::source_key::SourceKey;
use crate::types::Six;

verus! {

/// The variance a dimension is fused with: a configured one below zero stands for the message's
/// own, and one that is not a positive finite number drops the dimension.
pub open spec fn resolved(configured: Scalar, from_message: Scalar) -> Scalar {
    let variance = if configured.negative() {
        from_message
    } else {
        configured
    };
    if variance.finite() && variance.positive() {
        variance
    } else {
        Scalar::zero()
    }
}

/// The variance a dimension is fused with. A non-finite or non-positive variance drops the
/// dimension rather than being divided by.
pub fn resolve_variance(configured: Scalar, from_message: Scalar) -> (r: Scalar)
    ensures
        r == resolved(configured, from_message),
{
    let variance: Scalar = if configured.is_negative() {
        from_message
    } else {
        configured
    };
    if variance.is_finite() && variance.is_positive() {
        variance
    } else {
        Scalar::zero()
    }
}

/// Law: whatever is configured and whatever a message says, the variance that is fused is a
/// positive finite number, or zero for a dropped dimension; it is never divided by when zero.
pub proof fn law_resolved_variance_is_usable(configured: Scalar, from_message: Scalar)
    ensures
        resolved(configured, from_message) == Scalar::zero() || {
            &&& resolved(configured, from_message).finite()
            &&& resolved(configured, from_message).positive()
        },
        !Scalar::zero().positive(),
{
}

#[derive(Clone, Copy, Debug, PartialEq, Eq, Structural)]
pub struct SourceConfig {
    /// [x y z roll pitch yaw]: below zero takes the message covariance, zero drops, above zero is
    /// fixed. A drifting source's covariance describes accumulated drift, not the delta: prefer a
    /// fixed value.
    pub pose_variances: Six,
    /// [vx vy vz wx wy wz], same convention, body frame.
    pub twist_variances: Six,
}

impl Default for SourceConfig {
    fn default() -> (r: SourceConfig)
        ensures
            r == (SourceConfig { pose_variances: Six::zeros(), twist_variances: Six::zeros() }),
    {
        SourceConfig { pose_variances: Six::zeros(), twist_variances: Six::zeros() }
    }
}

/// Noise figures belong to the physical IMU, so they are keyed by the frame_id its samples carry
/// rather than baked into the filter's own config.
#[derive(Clone, Copy, Debug, PartialEq, Eq, Structural)]
pub struct ImuConfig {
    pub gyro_noise_density: Scalar,
    pub gyro_random_walk: Scalar,
    pub accel_noise_density: Scalar,
    pub accel_random_walk: Scalar,
}

impl Default for ImuConfig {
    fn default() -> (r: ImuConfig)
        ensures
            r.spec_noise() == Noise::spec_zeros(),
    {
        ImuConfig {
            gyro_noise_density: Scalar::zero(),
            gyro_random_walk: Scalar::zero(),
            accel_noise_density: Scalar::zero(),
            accel_random_walk: Scalar::zero(),
        }
    }
}

impl ImuConfig {
    /// The figures as the filter takes them.
    pub open spec fn spec_noise(self) -> Noise {
        Noise {
            gyro_noise_density: self.gyro_noise_density,
            gyro_random_walk: self.gyro_random_walk,
            accel_noise_density: self.accel_noise_density,
            accel_random_walk: self.accel_random_walk,
        }
    }

    /// The figures as the filter takes them.
    pub fn noise(self) -> (r: Noise)
        ensures
            r == self.spec_noise(),
    {
        Noise {
            gyro_noise_density: self.gyro_noise_density,
            gyro_random_walk: self.gyro_random_walk,
            accel_noise_density: self.accel_noise_density,
            accel_random_walk: self.accel_random_walk,
        }
    }

    /// All four figures are above zero.
    pub open spec fn complete(self) -> bool {
        &&& self.gyro_noise_density.positive()
        &&& self.gyro_random_walk.positive()
        &&& self.accel_noise_density.positive()
        &&& self.accel_random_walk.positive()
    }
}

#[derive(Clone, Debug)]
pub struct OdometryFusionConfig {
    pub odom_frame: String,
    pub base_frame: String,
    /// Output cadence per second; the filter itself runs at the IMU rate.
    pub publish_rate: Scalar,
    /// How far back a late measurement can reach before it is dropped.
    pub replay_buffer_seconds: Scalar,
    /// Outlier gate in standard deviations per measurement dimension; zero disables.
    pub mahalanobis_gate: Scalar,
    /// Gate on the filter's own state, which can run away with no bad measurement; zero disables.
    pub max_position_m: Scalar,
    /// Off bypasses the Kalman machinery and seeds level from the first source message.
    pub use_imu: bool,
    /// Keyed by the frame_id an IMU's samples carry. Exactly one entry is required when use_imu
    /// is on: the filter propagates on a single IMU. Its four noise figures must all be above
    /// zero.
    pub imus: OrderedMap<String, ImuConfig>,
    pub gravity: Scalar,
    /// Samples averaged while stationary to level the filter and take the IMU biases.
    pub imu_init_samples: i64,
    /// rad/s. Bias calibration restarts above this rate, so it belongs above the gyro's own bias
    /// and below any real rotation. A noisier gyro needs it raised or it never inits.
    pub imu_init_gyro_limit: Scalar,
    pub initial_stds: InitialStds,
    /// Keyed by the transform a source's estimates carry, and in the order of the keys: the blend
    /// sums in that order and floating-point addition is not associative.
    pub sources: OrderedMap<SourceKey, SourceConfig>,
    /// Virtual zero-twist [vx vy vz wx wy wz] fused after each source update (use_imu only):
    /// above zero pins that dimension to zero with this variance, zero frees it.
    pub constraint_twist_variances: Six,
}

/// What an unusable configuration lacks.
#[derive(Clone, Copy, Debug, PartialEq, Eq, Structural)]
pub enum ConfigFault {
    /// use_imu needs exactly one configured IMU: the filter propagates on a single one.
    ImuCount,
    /// The IMU needs all four noise figures set.
    NoiseFigures,
    /// imu_init_gyro_limit must be above zero or the filter never leaves init.
    GyroLimit,
}

impl OdometryFusionConfig {
    /// The maps are in order.
    pub open spec fn well_formed(&self) -> bool {
        self.imus.well_formed() && self.sources.well_formed()
    }

    /// Nothing that an IMU needs is missing.
    pub open spec fn usable(&self) -> bool {
        self.use_imu ==> {
            &&& self.imus.entries@.len() == 1
            &&& self.imus.entries@[0].1.complete()
            &&& self.imu_init_gyro_limit.positive()
        }
    }

    /// Finds the first thing that an IMU needs and the configuration lacks.
    pub fn check_config(&self) -> (r: Result<(), ConfigFault>)
        ensures
            r is Ok <==> self.usable(),
            r == Err::<(), ConfigFault>(ConfigFault::ImuCount) <==> self.use_imu
                && self.imus.entries@.len() != 1,
            r == Err::<(), ConfigFault>(ConfigFault::NoiseFigures) <==> self.use_imu
                && self.imus.entries@.len() == 1 && !self.imus.entries@[0].1.complete(),
            r == Err::<(), ConfigFault>(ConfigFault::GyroLimit) <==> self.use_imu
                && self.imus.entries@.len() == 1 && self.imus.entries@[0].1.complete()
                && !self.imu_init_gyro_limit.positive(),
    {
        if !self.use_imu {
            return Ok(());
        }
        if self.imus.len() != 1 {
            return Err(ConfigFault::ImuCount);
        }
        let imu: ImuConfig = self.imus.entries[0].1;
        if !(imu.gyro_noise_density.is_positive() && imu.gyro_random_walk.is_positive()
            && imu.accel_noise_density.is_positive() && imu.accel_random_walk.is_positive()) {
            return Err(ConfigFault::NoiseFigures);
        }
        if !self.imu_init_gyro_limit.is_positive() {
            return Err(ConfigFault::GyroLimit);
        }
        Ok(())
    }
}

/// All zeros would be refused when an IMU is used, and gravity needs a value.
impl Default for OdometryFusionConfig {
    fn default() -> (r: OdometryFusionConfig)
        ensures
            r.odom_frame@ == "odom"@,
            r.base_frame@ == "base_link"@,
            r.publish_rate == (Scalar { bits: 0x4059_0000_0000_0000 }),
            r.replay_buffer_seconds == (Scalar { bits: 0x3fe0_0000_0000_0000 }),
            r.mahalanobis_gate == (Scalar { bits: 0x4014_0000_0000_0000 }),
            r.max_position_m == Scalar::zero(),
            !r.use_imu,
            r.imus.entries@.len() == 0,
            r.gravity == (Scalar { bits: 0x4023_9d01_3a92_a305 }),
            r.imu_init_samples == 200,
            r.imu_init_gyro_limit == (Scalar { bits: 0x3fa9_9999_9999_999a }),
            r.initial_stds == (InitialStds {
                position: Scalar { bits: 0x3fb9_9999_9999_999a },
                velocity: Scalar { bits: 0x3fb9_9999_9999_999a },
                rotation: Scalar { bits: 0x3fa9_9999_9999_999a },
                bias: Scalar { bits: 0x3f84_7ae1_47ae_147b },
            }),
            r.sources.entries@.len() == 0,
            r.constraint_twist_variances == Six::zeros(),
            r.well_formed(),
            r.usable(),
    {
        OdometryFusionConfig {
            odom_frame: "odom".to_owned(),
            base_frame: "base_link".to_owned(),
            publish_rate: Scalar { bits: 0x4059_0000_0000_0000 },  // 100
            replay_buffer_seconds: Scalar { bits: 0x3fe0_0000_0000_0000 },  // 0.5
            mahalanobis_gate: Scalar { bits: 0x4014_0000_0000_0000 },  // 5
            max_position_m: Scalar::zero(),
            use_imu: false,
            imus: OrderedMap::new(),
            gravity: Scalar { bits: 0x4023_9d01_3a92_a305 },  // 9.80665
            imu_init_samples: 200,
            imu_init_gyro_limit: Scalar { bits: 0x3fa9_9999_9999_999a },  // 0.05
            initial_stds: InitialStds {
                position: Scalar { bits: 0x3fb9_9999_9999_999a },  // 0.1
                velocity: Scalar { bits: 0x3fb9_9999_9999_999a },  // 0.1
                rotation: Scalar { bits: 0x3fa9_9999_9999_999a },  // 0.05
                bias: Scalar { bits: 0x3f84_7ae1_47ae_147b },  // 0.01
            },
            sources: OrderedMap::new(),
            constraint_twist_variances: Six::zeros(),
        }
    }
}

} // verus!
