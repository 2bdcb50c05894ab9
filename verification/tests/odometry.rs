//! The odometry with floating-point arithmetic by nalgebra underneath.

use cu_vslam_rs::ffi;
use dim_slam::cuvslam_config::CuvslamOdometryConfig;
use dim_slam::cuvslam_model::{CuvslamCore, Step, TrackReply, TrackRequest, TrackerPlan};
use dim_slam::cuvslam_model::{TrackerState, MAX_PENDING_IMU};
use dim_slam::depth_cloud::depth_cloud;
use dim_slam::depth_pixels::{is_whole, ByteOrder};
use dim_slam::depth_reproject::reproject_depth;
use dim_slam::dim_slam_core::{DimSlamCore, DimSlamCoreConfig};
use dim_slam::eskf::{accel_bias_col, gyro_bias_col, BiasEntries, Filter, ImuBias, InitialStds};
use dim_slam::eskf::{JacobianRow, Noise, Row};
use dim_slam::formulas::turn;
use dim_slam::fused_depth::{rgb_pixels, Fuser, ModelDevice, ModelPrecision};
use dim_slam::fusion_config::{ConfigFault, ImuConfig, OdometryFusionConfig, SourceConfig};
use dim_slam::fusion_model::FusionCore;
use dim_slam::node::{DimSlam, DimSlamConfig};
use dim_slam::numerics::Numerics;
use dim_slam::ordered_map::OrderedMap;
use dim_slam::scalar::{Scalar, Single};
use dim_slam::source_key::SourceKey;
use dim_slam::stamp::NS_PER_SEC;
use dim_slam::tracker::{cuv_pose_to_isometry, image_encoding, needs_left_swap, odometry_mode};
use dim_slam::tracker::{se3_adjoint, to_cuv_pose, to_distortion, CuvPose, Mode};
use dim_slam::types::{skew, CameraModel, ImageFrame, ImuNoiseModel, ImuSample, Matrix3, Matrix6};
use dim_slam::types::{OdometryEstimate, PointCloud, Pose, Quaternion, SingleVector, Six, TfLookup};
use dim_slam::types::{Twist, Vector3};
use dim_slam::wire::{compose, invert};

/// Floating-point arithmetic by nalgebra.
#[derive(Clone, Copy)]
struct Floats;

fn s(value: f64) -> Scalar {
    Scalar::from_bits(value.to_bits())
}

fn f(value: Scalar) -> f64 {
    f64::from_bits(value.bits)
}

fn single(value: f32) -> Single {
    Single { bits: value.to_bits() }
}

fn f_single(value: Single) -> f32 {
    f32::from_bits(value.bits)
}

fn vector(x: f64, y: f64, z: f64) -> Vector3 {
    Vector3 { x: s(x), y: s(y), z: s(z) }
}

fn na_vector(v: &Vector3) -> nalgebra::Vector3<f64> {
    nalgebra::Vector3::new(f(v.x), f(v.y), f(v.z))
}

fn from_na_vector(v: nalgebra::Vector3<f64>) -> Vector3 {
    vector(v.x, v.y, v.z)
}

fn na_rotation(q: &Quaternion) -> nalgebra::UnitQuaternion<f64> {
    nalgebra::UnitQuaternion::new_unchecked(nalgebra::Quaternion::new(
        f(q.w),
        f(q.x),
        f(q.y),
        f(q.z),
    ))
}

fn from_na_rotation(q: nalgebra::UnitQuaternion<f64>) -> Quaternion {
    Quaternion { x: s(q.i), y: s(q.j), z: s(q.k), w: s(q.w) }
}

fn na_pose(p: &Pose) -> nalgebra::Isometry3<f64> {
    nalgebra::Isometry3::from_parts(na_vector(&p.translation).into(), na_rotation(&p.rotation))
}

fn from_na_pose(p: nalgebra::Isometry3<f64>) -> Pose {
    Pose {
        translation: from_na_vector(p.translation.vector),
        rotation: from_na_rotation(p.rotation),
    }
}

fn na_matrix3(m: &Matrix3) -> nalgebra::Matrix3<f64> {
    nalgebra::Matrix3::from_rows(&[
        na_vector(&m.first).transpose(),
        na_vector(&m.second).transpose(),
        na_vector(&m.third).transpose(),
    ])
}

fn from_na_matrix3(m: nalgebra::Matrix3<f64>) -> Matrix3 {
    Matrix3 {
        first: vector(m[(0, 0)], m[(0, 1)], m[(0, 2)]),
        second: vector(m[(1, 0)], m[(1, 1)], m[(1, 2)]),
        third: vector(m[(2, 0)], m[(2, 1)], m[(2, 2)]),
    }
}

fn na_matrix6(m: &Matrix6) -> nalgebra::Matrix6<f64> {
    nalgebra::Matrix6::from_fn(|row, col| f(m.entries[row * 6 + col]))
}

fn from_na_matrix6(m: nalgebra::Matrix6<f64>) -> Matrix6 {
    let mut r = Matrix6::zeros();
    for row in 0..6 {
        for col in 0..6 {
            r.entries[row * 6 + col] = s(m[(row, col)]);
        }
    }
    r
}

impl Numerics for Floats {
    type Matrix = nalgebra::DMatrix<f64>;

    fn sum(&self, a: Scalar, b: Scalar) -> Scalar {
        s(f(a) + f(b))
    }

    fn difference(&self, a: Scalar, b: Scalar) -> Scalar {
        s(f(a) - f(b))
    }

    fn times(&self, a: Scalar, b: Scalar) -> Scalar {
        s(f(a) * f(b))
    }

    fn ratio(&self, a: Scalar, b: Scalar) -> Scalar {
        s(f(a) / f(b))
    }

    fn sqrt(&self, a: Scalar) -> Scalar {
        s(f(a).sqrt())
    }

    fn exp(&self, a: Scalar) -> Scalar {
        s(f(a).exp())
    }

    fn ceil(&self, a: Scalar) -> Scalar {
        s(f(a).ceil())
    }

    fn floor(&self, a: Scalar) -> Scalar {
        s(f(a).floor())
    }

    fn round(&self, a: Scalar) -> Scalar {
        s(f(a).round())
    }

    fn from_int(&self, a: i64) -> Scalar {
        s(a as f64)
    }

    fn to_i64(&self, a: Scalar) -> i64 {
        f(a) as i64
    }

    fn to_i32(&self, a: Scalar) -> i32 {
        f(a) as i32
    }

    fn to_u16(&self, a: Scalar) -> u16 {
        f(a) as u16
    }

    fn narrow(&self, a: Scalar) -> Single {
        single(f(a) as f32)
    }

    fn widen(&self, a: Single) -> Scalar {
        s(f_single(a) as f64)
    }

    fn single_from(&self, a: u16) -> Single {
        single(a as f32)
    }

    fn single_times(&self, a: Single, b: Single) -> Single {
        single(f_single(a) * f_single(b))
    }

    fn single_ratio(&self, a: Single, b: Single) -> Single {
        single(f_single(a) / f_single(b))
    }

    fn single_round(&self, a: Single) -> Single {
        single(f_single(a).round())
    }

    fn single_to_u16(&self, a: Single) -> u16 {
        f_single(a) as u16
    }

    fn plus(&self, a: &Vector3, b: &Vector3) -> Vector3 {
        from_na_vector(na_vector(a) + na_vector(b))
    }

    fn minus(&self, a: &Vector3, b: &Vector3) -> Vector3 {
        from_na_vector(na_vector(a) - na_vector(b))
    }

    fn scaled(&self, v: &Vector3, by: Scalar) -> Vector3 {
        from_na_vector(na_vector(v) * f(by))
    }

    fn divided(&self, v: &Vector3, by: Scalar) -> Vector3 {
        from_na_vector(na_vector(v) / f(by))
    }

    fn cross(&self, a: &Vector3, b: &Vector3) -> Vector3 {
        from_na_vector(na_vector(a).cross(&na_vector(b)))
    }

    fn norm(&self, v: &Vector3) -> Scalar {
        s(na_vector(v).norm())
    }

    fn normalized(&self, q: &Quaternion) -> Quaternion {
        from_na_rotation(nalgebra::UnitQuaternion::from_quaternion(nalgebra::Quaternion::new(
            f(q.w),
            f(q.x),
            f(q.y),
            f(q.z),
        )))
    }

    fn rotate(&self, rotation: &Quaternion, v: &Vector3) -> Vector3 {
        from_na_vector(na_rotation(rotation) * na_vector(v))
    }

    fn inverse_rotate(&self, rotation: &Quaternion, v: &Vector3) -> Vector3 {
        from_na_vector(na_rotation(rotation).inverse_transform_vector(&na_vector(v)))
    }

    fn turned(&self, a: &Quaternion, b: &Quaternion) -> Quaternion {
        from_na_rotation(na_rotation(a) * na_rotation(b))
    }

    fn from_scaled_axis(&self, axis: &Vector3) -> Quaternion {
        from_na_rotation(nalgebra::UnitQuaternion::from_scaled_axis(na_vector(axis)))
    }

    fn scaled_axis(&self, q: &Quaternion) -> Vector3 {
        from_na_vector(na_rotation(q).scaled_axis())
    }

    fn rotation_between(&self, from: &Vector3, to: &Vector3) -> Option<Quaternion> {
        nalgebra::UnitQuaternion::rotation_between(&na_vector(from), &na_vector(to))
            .map(from_na_rotation)
    }

    fn angle_between(&self, a: &Quaternion, b: &Quaternion) -> Scalar {
        s(na_rotation(a).angle_to(&na_rotation(b)))
    }

    fn rotation_matrix(&self, q: &Quaternion) -> Matrix3 {
        from_na_matrix3(na_rotation(q).to_rotation_matrix().into_inner())
    }

    fn compose(&self, a: &Pose, b: &Pose) -> Pose {
        from_na_pose(na_pose(a) * na_pose(b))
    }

    fn inverse(&self, pose: &Pose) -> Pose {
        from_na_pose(na_pose(pose).inverse())
    }

    fn matrix3_times(&self, a: &Matrix3, b: &Matrix3) -> Matrix3 {
        from_na_matrix3(na_matrix3(a) * na_matrix3(b))
    }

    fn matrix3_minus(&self, a: &Matrix3, b: &Matrix3) -> Matrix3 {
        from_na_matrix3(na_matrix3(a) - na_matrix3(b))
    }

    fn matrix3_scaled(&self, m: &Matrix3, by: Scalar) -> Matrix3 {
        from_na_matrix3(na_matrix3(m) * f(by))
    }

    fn matrix3_apply(&self, m: &Matrix3, v: &Vector3) -> Vector3 {
        from_na_vector(na_matrix3(m) * na_vector(v))
    }

    fn matrix6_times(&self, a: &Matrix6, b: &Matrix6) -> Matrix6 {
        from_na_matrix6(na_matrix6(a) * na_matrix6(b))
    }

    fn matrix(&self, rows: usize, cols: usize, entries: &Vec<Scalar>) -> Self::Matrix {
        nalgebra::DMatrix::from_fn(rows, cols, |row, col| f(entries[row * cols + col]))
    }

    fn entry(&self, m: &Self::Matrix, row: usize, col: usize) -> Scalar {
        s(m[(row, col)])
    }

    fn matrix_times(&self, a: &Self::Matrix, b: &Self::Matrix) -> Self::Matrix {
        a * b
    }

    fn matrix_plus(&self, a: &Self::Matrix, b: &Self::Matrix) -> Self::Matrix {
        a + b
    }

    fn matrix_minus(&self, a: &Self::Matrix, b: &Self::Matrix) -> Self::Matrix {
        a - b
    }

    fn transposed(&self, m: &Self::Matrix) -> Self::Matrix {
        m.transpose()
    }

    fn inverted(&self, m: &Self::Matrix) -> Option<Self::Matrix> {
        m.clone().try_inverse()
    }
}

fn pose_at(x: f64, y: f64, z: f64) -> Pose {
    from_na_pose(nalgebra::Isometry3::translation(x, y, z))
}

const GRAVITY: f64 = 9.80665;

fn six(values: [f64; 6]) -> Six {
    Six {
        linear: vector(values[0], values[1], values[2]),
        angular: vector(values[3], values[4], values[5]),
    }
}

fn stds(position: f64, velocity: f64, rotation: f64, bias: f64) -> InitialStds {
    InitialStds {
        position: s(position),
        velocity: s(velocity),
        rotation: s(rotation),
        bias: s(bias),
    }
}

fn some_noise() -> Noise {
    Noise {
        gyro_noise_density: s(0.01),
        gyro_random_walk: s(0.001),
        accel_noise_density: s(0.1),
        accel_random_walk: s(0.01),
    }
}

fn no_bias() -> ImuBias {
    ImuBias { gyro: Vector3::zeros(), accel: Vector3::zeros() }
}

fn level_filter() -> Filter<Floats> {
    let mut filter = Filter::new(&Floats);
    filter.noise = vec![some_noise()];
    filter.init(&Floats, Quaternion::identity(), vec![no_bias()], stds(0.1, 0.1, 0.05, 0.01));
    filter
}

fn static_accel() -> Vector3 {
    vector(0.0, 0.0, GRAVITY)
}

fn blank_jacobian() -> JacobianRow {
    JacobianRow {
        position: Vector3::zeros(),
        velocity: Vector3::zeros(),
        theta: Vector3::zeros(),
        biases: Vec::new(),
    }
}

fn bias_entries(gyro: Vector3, accel: Vector3) -> BiasEntries {
    BiasEntries { gyro, accel }
}

fn position_rows(residual: [f64; 3], variance: f64) -> Vec<Row> {
    (0..3)
        .map(|dim| Row {
            jacobian: JacobianRow {
                position: Vector3::along(dim, Scalar::one()),
                ..blank_jacobian()
            },
            residual: s(residual[dim]),
            variance: s(variance),
        })
        .collect()
}

fn gyro_bias_rows(imu: usize, residual: [f64; 3], variance: f64) -> Vec<Row> {
    (0..3)
        .map(|dim| {
            let mut biases = vec![bias_entries(Vector3::zeros(), Vector3::zeros()); imu];
            biases.push(bias_entries(
                Vector3::along(dim, Scalar::minus_one()),
                Vector3::zeros(),
            ));
            Row {
                jacobian: JacobianRow { biases, ..blank_jacobian() },
                residual: s(residual[dim]),
                variance: s(variance),
            }
        })
        .collect()
}

fn trace(m: &nalgebra::DMatrix<f64>) -> f64 {
    m.trace()
}

#[test]
fn skew_is_antisymmetric_and_reproduces_the_cross_product() {
    let a = vector(1.0, 2.0, 3.0);
    let b = nalgebra::Vector3::new(-0.5, 4.0, 0.25);
    let a_skew = na_matrix3(&skew(&a));
    assert!((a_skew + a_skew.transpose()).norm() < 1e-12);
    assert!((a_skew * b - na_vector(&a).cross(&b)).norm() < 1e-12);
}

#[test]
fn exp_and_log_of_so3_round_trip() {
    let rotation = vector(0.3, -0.2, 0.9);
    let q = turn(&Floats, &Quaternion::identity(), &rotation);
    assert!((na_vector(&Floats.scaled_axis(&q)) - na_vector(&rotation)).norm() < 1e-9);
}

#[test]
fn exp_of_a_tiny_rotation_stays_finite_and_normalized() {
    let q = turn(&Floats, &Quaternion::identity(), &vector(1e-14, 0.0, 0.0));
    let norm: f64 = na_rotation(&q).norm();
    assert!((norm - 1.0).abs() < 1e-12);
}

#[test]
fn stationary_propagation_holds_the_state() {
    let mut filter = level_filter();
    for _ in 0..100 {
        filter.propagate(&Floats, s(0.01), 0, &Vector3::zeros(), &static_accel());
    }
    assert!(na_vector(&filter.x.position).norm() < 1e-9);
    assert!(na_vector(&filter.x.velocity).norm() < 1e-9);
}

#[test]
fn propagation_integrates_constant_velocity() {
    let mut filter = level_filter();
    filter.x.velocity = vector(1.0, 0.0, 0.0);
    for _ in 0..100 {
        filter.propagate(&Floats, s(0.01), 0, &Vector3::zeros(), &static_accel());
    }
    assert!((f(filter.x.position.x) - 1.0).abs() < 1e-9);
}

#[test]
fn propagation_grows_uncertainty() {
    let mut filter = level_filter();
    let before = trace(&filter.p_cov);
    for _ in 0..100 {
        filter.propagate(&Floats, s(0.01), 0, &Vector3::zeros(), &static_accel());
    }
    assert!(trace(&filter.p_cov) > before);
}

#[test]
fn a_position_update_pulls_the_estimate() {
    let mut filter = level_filter();
    filter.propagate(&Floats, s(0.01), 0, &Vector3::zeros(), &static_accel());
    assert!(filter.update(&Floats, &position_rows([1.0, 0.0, 0.0], 1e-4), s(0.0)));
    assert!(f(filter.x.position.x) > 0.9);
    assert!(trace(&filter.p_cov) < 15.0);
}

#[test]
fn position_updates_correct_velocity_through_the_cross_covariance() {
    let mut filter = level_filter();
    filter.x.velocity = vector(1.0, 0.0, 0.0); // true velocity is zero; the filter is wrong
    for _ in 0..50 {
        filter.propagate(&Floats, s(0.01), 0, &Vector3::zeros(), &static_accel());
        // The truth stays at the origin, so the residual is minus the estimate.
        let p = na_vector(&filter.x.position);
        filter.update(&Floats, &position_rows([-p.x, -p.y, -p.z], 1e-6), s(0.0));
    }
    assert!(f(filter.x.velocity.x).abs() < 0.1);
}

#[test]
fn the_mahalanobis_gate_rejects_an_outlier_and_passes_an_inlier() {
    let mut filter = level_filter();
    filter.propagate(&Floats, s(0.01), 0, &Vector3::zeros(), &static_accel());
    assert!(!filter.update(&Floats, &position_rows([100.0, 0.0, 0.0], 1e-4), s(3.0)));
    assert!(filter.update(&Floats, &position_rows([0.01, 0.0, 0.0], 1e-4), s(3.0)));
}

#[test]
fn a_gate_of_zero_disables_rejection() {
    let mut filter = level_filter();
    assert!(filter.update(&Floats, &position_rows([100.0, 0.0, 0.0], 1e-4), s(0.0)));
}

#[test]
fn a_gyro_bias_propagates_into_a_tilt_the_accel_residual_can_expose() {
    let mut filter = level_filter();
    let true_bias = vector(0.02, 0.0, 0.0);
    // The gyro reads only its bias while the body is still: the estimate tilts.
    for _ in 0..100 {
        filter.propagate(&Floats, s(0.01), 0, &true_bias, &static_accel());
    }
    let tilt = na_rotation(&filter.x.q).scaled_axis();
    assert!((tilt.x - 0.02).abs() < 1e-3);
}

#[test]
fn an_angular_rate_update_observes_the_gyro_bias() {
    let mut filter = level_filter();
    let gyro_reading = vector(0.05, 0.0, 0.0); // still body, biased gyro
    for _ in 0..50 {
        filter.propagate(&Floats, s(0.01), 0, &gyro_reading, &static_accel());
        // A perfect rate sensor says the body is not rotating.
        let predicted = na_vector(&gyro_reading) - na_vector(&filter.x.biases[0].gyro);
        let rows = gyro_bias_rows(0, [-predicted.x, -predicted.y, -predicted.z], 1e-6);
        filter.update(&Floats, &rows, s(0.0));
    }
    assert!((f(filter.x.biases[0].gyro.x) - 0.05).abs() < 1e-3);
}

#[test]
fn init_seeds_the_covariance_from_the_stds() {
    let mut filter = Filter::new(&Floats);
    filter.noise = vec![Noise::default()];
    filter.init(
        &Floats,
        Quaternion::identity(),
        vec![ImuBias { gyro: vector(0.1, 0.0, 0.0), accel: Vector3::zeros() }],
        stds(2.0, 3.0, 0.5, 0.01),
    );
    let p_cov = &filter.p_cov;
    assert!((p_cov[(0, 0)] - 4.0).abs() < 1e-12);
    assert!((p_cov[(3, 3)] - 9.0).abs() < 1e-12);
    assert!((p_cov[(6, 6)] - 0.25).abs() < 1e-12);
    assert!((p_cov[(9, 9)] - 1e-4).abs() < 1e-12);
    assert!((f(filter.x.biases[0].gyro.x) - 0.1).abs() < 1e-12);
}

#[test]
fn two_imus_keep_separate_bias_states() {
    let mut filter = Filter::new(&Floats);
    filter.noise = vec![some_noise(), some_noise()];
    filter.init(
        &Floats,
        Quaternion::identity(),
        vec![no_bias(), no_bias()],
        stds(0.1, 0.1, 0.05, 0.01),
    );
    assert_eq!(filter.dim(), 21);
    assert_eq!(gyro_bias_col(1), 15);
    // Only the second IMU's gyro is biased; a rate update on its block finds it there.
    let gyro_reading = vector(0.05, 0.0, 0.0);
    for step in 0..100 {
        if step % 2 == 0 {
            filter.propagate(&Floats, s(0.005), 0, &Vector3::zeros(), &static_accel());
        } else {
            filter.propagate(&Floats, s(0.005), 1, &gyro_reading, &static_accel());
            let predicted = na_vector(&gyro_reading) - na_vector(&filter.x.biases[1].gyro);
            let rows = gyro_bias_rows(1, [-predicted.x, -predicted.y, -predicted.z], 1e-6);
            filter.update(&Floats, &rows, s(0.0));
        }
    }
    assert!((f(filter.x.biases[1].gyro.x) - 0.05).abs() < 2e-3);
    assert!(f(filter.x.biases[0].gyro.x).abs() < 2e-2);
}

#[test]
fn a_new_filter_has_the_identity_for_its_covariance() {
    let filter: Filter<Floats> = Filter::new(&Floats);
    assert_eq!(filter.dim(), 9);
    assert_eq!(*filter.p_cov, nalgebra::DMatrix::identity(9, 9));
    assert_eq!(f(filter.gravity), GRAVITY);
}

#[test]
fn propagation_matches_the_formula_written_out() {
    // Position, velocity and covariance after one step, against the matrices by hand.
    let mut filter = level_filter();
    filter.x.velocity = vector(1.0, -2.0, 0.5);
    filter.x.q = turn(&Floats, &Quaternion::identity(), &vector(0.1, 0.2, -0.3));
    filter.x.biases[0] = ImuBias { gyro: vector(0.01, 0.0, 0.0), accel: vector(0.0, 0.1, 0.0) };
    let gyro = vector(0.2, -0.1, 0.4);
    let accel = vector(0.5, 0.3, 9.9);
    let dt = 0.02;
    let rotation = na_rotation(&filter.x.q).to_rotation_matrix().into_inner();
    let free_gyro = na_vector(&gyro) - nalgebra::Vector3::new(0.01, 0.0, 0.0);
    let free_accel = na_vector(&accel) - nalgebra::Vector3::new(0.0, 0.1, 0.0);
    let world = rotation * free_accel + nalgebra::Vector3::new(0.0, 0.0, -GRAVITY);
    let v0 = na_vector(&filter.x.velocity);
    let position = v0 * dt + 0.5 * world * dt * dt;
    let velocity = v0 + world * dt;
    let mut transition = nalgebra::DMatrix::<f64>::identity(15, 15);
    let identity = nalgebra::Matrix3::identity();
    transition.view_mut((0, 3), (3, 3)).copy_from(&(identity * dt));
    transition
        .view_mut((3, 6), (3, 3))
        .copy_from(&(-(rotation * free_accel.cross_matrix()) * dt));
    transition.view_mut((3, 12), (3, 3)).copy_from(&(-rotation * dt));
    transition
        .view_mut((6, 6), (3, 3))
        .copy_from(&(identity - free_gyro.cross_matrix() * dt));
    transition.view_mut((6, 9), (3, 3)).copy_from(&(-identity * dt));
    let mut noise = nalgebra::DMatrix::<f64>::zeros(15, 15);
    for (at, figure) in [(3, 0.1), (6, 0.01), (9, 0.001), (12, 0.01)] {
        let block = identity * figure * figure * dt;
        noise.view_mut((at, at), (3, 3)).copy_from(&block);
    }
    let expected = &transition * &*filter.p_cov * transition.transpose() + noise;
    filter.propagate(&Floats, s(dt), 0, &gyro, &accel);
    assert_eq!(na_vector(&filter.x.position), position);
    assert_eq!(na_vector(&filter.x.velocity), velocity);
    assert_eq!(*filter.p_cov, expected);
}

#[test]
fn a_refused_update_leaves_the_filter_as_it_was() {
    let mut filter = level_filter();
    let before = (*filter.p_cov).clone();
    assert!(!filter.update(&Floats, &position_rows([f64::NAN, 0.0, 0.0], 1e-4), s(3.0)));
    assert_eq!(*filter.p_cov, before);
    assert_eq!(na_vector(&filter.x.position), nalgebra::Vector3::zeros());
}

fn source_key(parent_frame: &str) -> SourceKey {
    SourceKey { parent_frame: parent_frame.to_string(), child_frame: "base".to_string() }
}

fn one_source(parent_frame: &str) -> OrderedMap<SourceKey, SourceConfig> {
    let mut sources = OrderedMap::new();
    sources.insert(
        source_key(parent_frame),
        SourceConfig { pose_variances: six([1e-4; 6]), twist_variances: six([0.0; 6]) },
    );
    sources
}

fn one_imu() -> OrderedMap<String, ImuConfig> {
    let mut imus = OrderedMap::new();
    imus.insert(
        "imu".to_string(),
        ImuConfig {
            gyro_noise_density: s(0.01),
            gyro_random_walk: s(0.001),
            accel_noise_density: s(0.1),
            accel_random_walk: s(0.01),
        },
    );
    imus
}

fn base_config(use_imu: bool) -> OdometryFusionConfig {
    OdometryFusionConfig {
        odom_frame: "odom".to_string(),
        base_frame: "base".to_string(),
        publish_rate: s(1000.0),
        replay_buffer_seconds: s(2.0),
        mahalanobis_gate: s(3.0),
        max_position_m: s(10000.0),
        use_imu,
        imus: one_imu(),
        gravity: s(GRAVITY),
        imu_init_samples: 5,
        imu_init_gyro_limit: s(0.05),
        initial_stds: stds(0.1, 0.1, 0.05, 0.01),
        sources: one_source("odom"),
        constraint_twist_variances: six([0.0; 6]),
    }
}

fn fusion_core(config: OdometryFusionConfig) -> FusionCore<Floats> {
    FusionCore::new(config, Floats)
}

fn source_message(parent_frame: &str, ts_ns: i64, x: f64) -> OdometryEstimate {
    OdometryEstimate {
        timestamp_ns: ts_ns,
        frame_id: parent_frame.to_string(),
        child_frame_id: "base".to_string(),
        pose: pose_at(x, 0.0, 0.0),
        ..Default::default()
    }
}

fn imu_message(ts_ns: i64, gyro_z: f64, accel_x: f64) -> ImuSample {
    ImuSample {
        timestamp_ns: ts_ns,
        frame_id: "imu".to_string(),
        angular_velocity: vector(0.0, 0.0, gyro_z),
        linear_acceleration: vector(accel_x, 0.0, GRAVITY),
    }
}

fn identity_mount() -> Pose {
    Pose::identity()
}

fn published_position(core: &mut FusionCore<Floats>) -> Option<nalgebra::Vector3<f64>> {
    core.maybe_publish().map(|msg| na_vector(&msg.pose.translation))
}

#[test]
fn a_single_source_without_an_imu_drives_the_fused_pose() {
    let mut core = fusion_core(base_config(false));
    core.handle_source(&source_message("odom", 0, 0.0));
    core.handle_source(&source_message("odom", NS_PER_SEC / 10, 1.0));
    let position = published_position(&mut core).expect("a period has elapsed");
    assert!((position.x - 1.0).abs() < 1e-12);
}

#[test]
fn a_drifting_source_contributes_only_its_delta() {
    let mut config = base_config(false);
    config.sources = one_source("visual_odom");
    let mut core = fusion_core(config);
    core.handle_source(&source_message("visual_odom", 0, 10.0));
    core.handle_source(&source_message("visual_odom", NS_PER_SEC / 10, 10.5));
    let position = published_position(&mut core).expect("a period has elapsed");
    assert!((position.x - 0.5).abs() < 1e-12);
}

#[test]
fn a_source_from_an_unconfigured_frame_is_ignored() {
    let mut core = fusion_core(base_config(false));
    core.handle_source(&source_message("odom", 0, 0.0));
    core.handle_source(&source_message("odom", NS_PER_SEC / 10, 1.0));
    core.handle_source(&source_message("stray", NS_PER_SEC / 5, 99.0));
    let position = published_position(&mut core).expect("a period has elapsed");
    assert!((position.x - 1.0).abs() < 1e-12);
}

#[test]
fn a_matching_parent_with_the_wrong_child_is_ignored() {
    let mut core = fusion_core(base_config(false));
    core.handle_source(&source_message("odom", 0, 0.0));
    core.handle_source(&source_message("odom", NS_PER_SEC / 10, 1.0));
    let mut wrong_child = source_message("odom", NS_PER_SEC / 5, 99.0);
    wrong_child.child_frame_id = "some_other_link".to_string();
    core.handle_source(&wrong_child);
    let position = published_position(&mut core).expect("a period has elapsed");
    assert!((position.x - 1.0).abs() < 1e-12);
}

#[test]
fn a_source_key_round_trips_through_json_as_an_object_key() {
    let sources = one_source("visual_odom");
    let mut object = serde_json::Map::new();
    for (key, _) in &sources.entries {
        object.insert(key.to_text(), serde_json::Value::Null);
    }
    let text = serde_json::to_string(&serde_json::Value::Object(object)).expect("serializable");
    assert!(text.contains("\"visual_odom->base\""), "{text}");
    let parsed: serde_json::Value = serde_json::from_str(&text).expect("deserializable");
    let keys: Vec<(String, String)> = parsed
        .as_object()
        .expect("an object")
        .keys()
        .map(|key| SourceKey::from_str(key).expect("a key"))
        .map(|key| (key.parent_frame, key.child_frame))
        .collect();
    assert_eq!(keys, vec![("visual_odom".to_string(), "base".to_string())]);
}

#[test]
fn a_source_key_without_an_arrow_is_rejected() {
    let parsed: serde_json::Value = serde_json::from_str(r#"{"odom":{}}"#).expect("an object");
    let key = parsed.as_object().expect("an object").keys().next().expect("one key");
    let error = SourceKey::from_str(key).err().expect("no arrow");
    assert!(error.contains("parent_frame->child_frame"), "{error}");
}

#[test]
fn an_imu_from_an_unconfigured_frame_is_ignored() {
    let mut core = fusion_core(base_config(true));
    let mut stray = imu_message(0, 0.0, 0.0);
    stray.frame_id = "some_other_imu".to_string();
    for _ in 0..20 {
        core.handle_imu(&stray, &identity_mount());
    }
    assert!(!core.initialized);
}

#[test]
fn a_nan_pose_is_dropped_rather_than_wedging_the_filter() {
    let mut config = base_config(false);
    config.sources = one_source("visual_odom");
    let mut core = fusion_core(config);
    core.handle_source(&source_message("visual_odom", 0, 10.0));

    let mut nan_pose = source_message("visual_odom", NS_PER_SEC / 20, 10.25);
    nan_pose.pose.rotation =
        Floats.normalized(&Quaternion { x: s(0.0), y: s(0.0), z: s(0.0), w: s(0.0) });
    assert!(nan_pose.pose.rotation.x.is_nan());
    core.handle_source(&nan_pose);

    core.handle_source(&source_message("visual_odom", NS_PER_SEC / 10, 10.5));
    let position = published_position(&mut core).expect("a period has elapsed");
    assert!((position.x - 0.5).abs() < 1e-12);
}

#[test]
fn maybe_publish_waits_for_the_period_and_stamps_odom_to_base() {
    let mut config = base_config(false);
    config.publish_rate = s(10.0);
    let mut core = fusion_core(config);
    core.handle_source(&source_message("odom", 0, 0.0));
    assert!(core.maybe_publish().is_none());
    core.handle_source(&source_message("odom", NS_PER_SEC / 20, 0.5));
    assert!(core.maybe_publish().is_none());
    core.handle_source(&source_message("odom", NS_PER_SEC / 10, 1.0));
    let msg = core.maybe_publish().expect("a full period has elapsed");
    assert_eq!(msg.frame_id, "odom");
    assert_eq!(msg.child_frame_id, "base");
}

#[test]
fn the_mahalanobis_gate_rejects_a_wild_pose_and_accepts_a_consistent_one() {
    let mut core = fusion_core(base_config(true));
    for sample in 0..5 {
        core.handle_imu(&imu_message(sample * NS_PER_SEC / 100, 0.0, 0.0), &identity_mount());
    }
    // Two to anchor: the first delta needs a predecessor, the second adopts the filter pose.
    core.handle_source(&source_message("odom", NS_PER_SEC / 20, 0.0));
    core.handle_source(&source_message("odom", NS_PER_SEC / 10, 0.0));
    core.handle_source(&source_message("odom", 3 * NS_PER_SEC / 20, 1000.0));
    let after_outlier = published_position(&mut core).expect("a period has elapsed");
    assert!(after_outlier.x.abs() < 1e-9);
    assert_eq!(core.report().gated, 1);
    // From the outlier's own pose, so this delta is the small one.
    core.handle_source(&source_message("odom", NS_PER_SEC / 5, 1000.01));
    let after_inlier = published_position(&mut core).expect("a period has elapsed");
    assert!(after_inlier.x > 0.005);
}

#[test]
fn a_state_past_the_position_cap_is_held_back_unless_the_cap_is_zero() {
    let mut config = base_config(false);
    config.max_position_m = s(0.5);
    let mut core = fusion_core(config);
    core.handle_source(&source_message("odom", 0, 0.0));
    core.handle_source(&source_message("odom", NS_PER_SEC / 10, 1.0));
    assert!(core.maybe_publish().is_none());

    let mut config = base_config(false);
    config.max_position_m = s(0.0);
    let mut core = fusion_core(config);
    core.handle_source(&source_message("odom", 0, 0.0));
    core.handle_source(&source_message("odom", NS_PER_SEC / 10, 1.0));
    assert!(core.maybe_publish().is_some());
}

fn replayed_run() -> Vec<(f64, f64, f64, f64)> {
    let mount = identity_mount();
    let mut config = base_config(true);
    // Position only: the source reports no rotation, so it must not argue against the yaw.
    config.sources.entries[0].1.pose_variances = six([1e-4, 1e-4, 1e-4, 0.0, 0.0, 0.0]);
    let mut core = fusion_core(config);
    let mut published = Vec::new();
    for step in 0..60_i64 {
        let ts_ns = step * NS_PER_SEC / 100;
        let moving = step >= 10;
        let gyro_z = if moving { 0.3 } else { 0.0 };
        let accel_x = if moving { 0.5 } else { 0.0 };
        core.handle_imu(&imu_message(ts_ns, gyro_z, accel_x), &mount);
        if step % 10 == 0 {
            core.handle_source(&source_message("odom", ts_ns, step as f64 * 0.02));
        }
        if let Some(msg) = core.maybe_publish() {
            let position = na_vector(&msg.pose.translation);
            published.push((position.x, position.y, position.z, f(msg.pose.rotation.w)));
        }
    }
    published
}

#[test]
fn the_same_imu_and_source_sequence_replays_bit_identically() {
    let first = replayed_run();
    assert!(first.len() > 10);
    // Identical output proves nothing unless the filter actually moved and turned.
    let last = first.last().expect("published above");
    assert!(last.0.hypot(last.1) > 0.05, "the fused pose barely moved: {last:?}");
    assert!(last.3 < 0.999, "the fused pose barely turned: {last:?}");
    assert_eq!(first, replayed_run());
}

/// A core that was leveled, with sources at the given stamps in this order of arrival.
fn core_after(arrivals: &[i64]) -> FusionCore<Floats> {
    let mut config = base_config(true);
    config.mahalanobis_gate = s(0.0);
    config.sources.insert(
        source_key("other"),
        SourceConfig { pose_variances: six([0.0; 6]), twist_variances: six([1e-2; 6]) },
    );
    let mut core = fusion_core(config);
    for sample in 0..5 {
        core.handle_imu(&imu_message(sample * NS_PER_SEC / 100, 0.0, 0.0), &identity_mount());
    }
    for ts_ns in arrivals {
        if ts_ns % 20_000_000 == 0 {
            core.handle_imu(&imu_message(*ts_ns, 0.1, 0.2), &identity_mount());
        } else {
            let mut msg = source_message("other", *ts_ns, 0.0);
            msg.twist = Twist {
                linear: vector(*ts_ns as f64 * 1e-9, 0.1, 0.0),
                angular: vector(0.0, 0.0, 0.1),
            };
            core.handle_source(&msg);
        }
    }
    core
}

#[test]
fn a_late_arrival_leaves_what_it_would_have_left_in_time() {
    let in_order: [i64; 6] =
        [60_000_000, 70_000_000, 80_000_000, 90_000_000, 100_000_000, 120_000_000];
    let late: [i64; 6] =
        [60_000_000, 80_000_000, 90_000_000, 100_000_000, 120_000_000, 70_000_000];
    let mut a = core_after(&in_order);
    let mut b = core_after(&late);
    assert_eq!(a.report().replayed, 0);
    assert_eq!(b.report().replayed, 1);
    let x = a.maybe_publish().expect("a period has elapsed");
    let y = b.maybe_publish().expect("a period has elapsed");
    assert_eq!(x.timestamp_ns, 120_000_000);
    assert_eq!(x.pose, y.pose);
    assert_eq!(x.twist, y.twist);
    assert_eq!(x.pose_covariance.entries, y.pose_covariance.entries);
    assert_eq!(x.twist_covariance.entries, y.twist_covariance.entries);
    assert!(na_vector(&x.pose.translation).norm() > 0.0);
}

#[test]
fn an_arrival_older_than_the_buffer_is_only_counted() {
    let mut config = base_config(false);
    config.replay_buffer_seconds = s(0.1);
    let mut core = fusion_core(config);
    core.handle_source(&source_message("odom", NS_PER_SEC, 0.0));
    core.handle_source(&source_message("odom", 2 * NS_PER_SEC, 1.0));
    core.handle_source(&source_message("odom", 2 * NS_PER_SEC + 50_000_000, 2.0));
    // The seed has been forgotten; the first message is what an arrival within reach would be
    // replayed from.
    assert_eq!(core.events.len(), 3);
    core.handle_source(&source_message("odom", NS_PER_SEC, 77.0));
    assert_eq!(core.report().too_late, 1);
    assert_eq!(core.report().replayed, 0);
    assert_eq!(core.report().measurements, 4);
    let position = published_position(&mut core).expect("a period has elapsed");
    assert!((position.x - 2.0).abs() < 1e-12);
}

#[test]
fn two_sources_share_the_blend_by_their_inverse_variances() {
    let mut config = base_config(false);
    config.sources.insert(
        source_key("rough"),
        SourceConfig { pose_variances: six([3e-4; 6]), twist_variances: six([0.0; 6]) },
    );
    let mut core = fusion_core(config);
    core.handle_source(&source_message("odom", 0, 0.0));
    core.handle_source(&source_message("rough", 1, 0.0));
    // Shares are 3/4 and 1/4 while both are active.
    core.handle_source(&source_message("odom", NS_PER_SEC / 10, 1.0));
    core.handle_source(&source_message("rough", NS_PER_SEC / 10 + 1, 2.0));
    let position = published_position(&mut core).expect("a period has elapsed");
    assert!((position.x - (0.75 + 0.5)).abs() < 1e-9);
    // Half a second after the rough one's last word the other has the whole share.
    core.handle_source(&source_message("odom", NS_PER_SEC, 2.0));
    let position = published_position(&mut core).expect("a period has elapsed");
    assert!((position.x - (0.75 + 0.5 + 1.0)).abs() < 1e-9);
}

#[test]
fn a_moving_imu_restarts_the_calibration() {
    let mut core = fusion_core(base_config(true));
    for sample in 0..4 {
        core.handle_imu(&imu_message(sample * NS_PER_SEC / 100, 0.0, 0.0), &identity_mount());
    }
    assert_eq!(core.init_samples, 4);
    core.handle_imu(&imu_message(4 * NS_PER_SEC / 100, 0.2, 0.0), &identity_mount());
    assert_eq!(core.init_samples, 0);
    assert!(!core.initialized);
    for sample in 5..10 {
        core.handle_imu(&imu_message(sample * NS_PER_SEC / 100, 0.01, 0.0), &identity_mount());
    }
    assert!(core.initialized);
    // What the gyro read at rest is its bias.
    let bias = na_vector(&core.live.filter.x.biases[0].gyro);
    assert!((bias.z - 0.01).abs() < 1e-12);
}

#[test]
fn leveling_takes_gravity_to_the_z_axis() {
    let mut config = base_config(true);
    config.imu_init_samples = 1;
    let mut core = fusion_core(config);
    let tilted = ImuSample {
        timestamp_ns: 0,
        frame_id: "imu".to_string(),
        angular_velocity: Vector3::zeros(),
        linear_acceleration: vector(GRAVITY, 0.0, 0.0),
    };
    core.handle_imu(&tilted, &identity_mount());
    assert!(core.initialized);
    let up = na_rotation(&core.live.filter.x.q) * nalgebra::Vector3::new(1.0, 0.0, 0.0);
    assert!((up - nalgebra::Vector3::z()).norm() < 1e-9);
    assert!(na_vector(&core.live.filter.x.biases[0].accel).norm() < 1e-9);
}

#[test]
fn the_lever_arm_is_taken_out_of_the_acceleration() {
    let mut config = base_config(true);
    config.imu_init_gyro_limit = s(10.0);
    let mut core = fusion_core(config);
    let mount = pose_at(2.0, 0.0, 0.0);
    // At 3 rad/s about z a point 2 m out feels 18 m/s^2 inwards.
    core.handle_imu(&imu_message(1, 3.0, -18.0), &mount);
    let felt = na_vector(&core.init_accel_sum);
    assert!((felt - nalgebra::Vector3::new(0.0, 0.0, GRAVITY)).norm() < 1e-9);
    // A second later the rate has risen by 1 rad/s: the tangential term is nearly 2 m/s^2.
    core.handle_imu(&imu_message(NS_PER_SEC + 1, 4.0, -32.0), &mount);
    let alpha = na_vector(&core.lever_alpha);
    assert!((alpha.z - (1.0 - (-1.0f64 / 0.025).exp())).abs() < 1e-12);
    let felt = na_vector(&core.init_accel_sum);
    assert!((felt.y + 2.0 * alpha.z).abs() < 1e-9);
}

#[test]
fn an_unusable_config_is_told_apart() {
    let mut config = base_config(true);
    assert_eq!(config.check_config(), Ok(()));
    config.imu_init_gyro_limit = s(0.0);
    assert_eq!(config.check_config(), Err(ConfigFault::GyroLimit));
    config.imus.entries[0].1.accel_random_walk = s(0.0);
    assert_eq!(config.check_config(), Err(ConfigFault::NoiseFigures));
    config.imus = OrderedMap::new();
    assert_eq!(config.check_config(), Err(ConfigFault::ImuCount));
    config.use_imu = false;
    assert_eq!(config.check_config(), Ok(()));
}

#[test]
fn published_covariances_come_from_their_places_in_the_error_state() {
    let mut config = base_config(true);
    config.initial_stds = stds(2.0, 3.0, 0.5, 0.25);
    let mut core = fusion_core(config);
    for sample in 0..5 {
        core.handle_imu(&imu_message(sample, 0.0, 0.0), &identity_mount());
    }
    core.handle_imu(&imu_message(2 * NS_PER_SEC, 0.0, 0.0), &identity_mount());
    let msg = core.maybe_publish().expect("a period has elapsed");
    // A gap of over a second is not integrated, so the covariance is the seed's.
    let pose = na_matrix6(&msg.pose_covariance);
    let twist = na_matrix6(&msg.twist_covariance);
    for dim in 0..3 {
        assert_eq!(pose[(dim, dim)], 4.0);
        assert_eq!(pose[(dim + 3, dim + 3)], 0.25);
        assert!((twist[(dim, dim)] - 9.0).abs() < 1e-12);
        assert_eq!(twist[(dim + 3, dim + 3)], 0.0625);
    }
    assert_eq!(pose[(0, 4)], 0.0);
}

#[test]
fn the_whole_core_fuses_an_external_source() {
    let mut sources = OrderedMap::new();
    sources.insert(
        SourceKey {
            parent_frame: "wheel_odom".to_string(),
            child_frame: "base_link".to_string(),
        },
        SourceConfig { pose_variances: six([1e-4; 6]), twist_variances: six([0.0; 6]) },
    );
    let config = DimSlamCoreConfig {
        visual_odom_pose_variances: six([1e-4; 6]),
        odom_sources: sources,
        ..Default::default()
    };
    let mut slam = DimSlamCore::new(config, Floats, Floats).ok().expect("a usable config");
    assert_eq!(slam.fusion.config.sources.len(), 2);
    assert_eq!(slam.visual_odometry.config.odom_frame_id, "visual_odom");
    for (step, timestamp_ns) in [0, 20_000_000, 40_000_000].into_iter().enumerate() {
        slam.handle_source(&OdometryEstimate {
            timestamp_ns,
            frame_id: "wheel_odom".to_string(),
            child_frame_id: "base_link".to_string(),
            pose: pose_at(step as f64 * 0.1, 0.0, 0.0),
            ..Default::default()
        });
    }
    let estimate = slam.maybe_publish().expect("a publish period has elapsed");
    assert!((f(estimate.pose.translation.x) - 0.2).abs() < 1e-9);
    assert_eq!(slam.report().1.measurements, 3);
}

fn adjoint_at(pose: &Pose) -> nalgebra::Matrix6<f64> {
    na_matrix6(&se3_adjoint(&Floats, pose))
}

fn quarter_turn() -> nalgebra::UnitQuaternion<f64> {
    nalgebra::UnitQuaternion::from_euler_angles(0.0, 0.0, std::f64::consts::FRAC_PI_2)
}

fn check_adjoint_of_identity() {
    assert_eq!(adjoint_at(&Pose::identity()), nalgebra::Matrix6::identity());
}

fn check_adjoint_of_pure_rotation() {
    let rotation = quarter_turn();
    let pose = from_na_pose(nalgebra::Isometry3::from_parts(
        nalgebra::Translation3::identity(),
        rotation,
    ));
    let adjoint = adjoint_at(&pose);
    let rotation_matrix = rotation.to_rotation_matrix().into_inner();
    assert!((adjoint.fixed_view::<3, 3>(0, 0) - rotation_matrix).norm() < 1.0e-12);
    assert!(adjoint.fixed_view::<3, 3>(0, 3).norm() < 1.0e-12);
    assert!((adjoint.fixed_view::<3, 3>(3, 3) - rotation_matrix).norm() < 1.0e-12);
    assert!(adjoint.fixed_view::<3, 3>(3, 0).norm() < 1.0e-12);
}

fn check_adjoint_of_translation() {
    let adjoint = adjoint_at(&pose_at(2.0, 0.0, 0.0));
    assert!((adjoint[(1, 5)] + 2.0).abs() < 1.0e-12); // y <- yaw
    assert!((adjoint[(2, 4)] - 2.0).abs() < 1.0e-12); // z <- pitch
    assert_eq!(
        adjoint.fixed_view::<3, 3>(0, 0).into_owned(),
        nalgebra::Matrix3::<f64>::identity()
    );
}

fn check_adjoint_moves_covariance() {
    // A 2 m lever arm turns rig yaw variance into base y variance: var_y = arm^2 * var_yaw.
    let adjoint = adjoint_at(&pose_at(2.0, 0.0, 0.0));
    let mut rig_covariance = nalgebra::Matrix6::zeros();
    rig_covariance[(5, 5)] = 0.01; // yaw
    let base_covariance = adjoint * rig_covariance * adjoint.transpose();
    assert!((base_covariance[(1, 1)] - 0.04).abs() < 1.0e-12);
    assert!((base_covariance[(5, 5)] - 0.01).abs() < 1.0e-12);
}

fn check_left_swap() {
    let left = pose_at(0.0, 0.0, 0.0);
    let right = pose_at(0.12, 0.0, 0.0);
    assert!(!needs_left_swap(&Floats, &left, &right));
    assert!(needs_left_swap(&Floats, &right, &left));
}

#[test]
fn main_adjoint_of_identity_is_identity() {
    check_adjoint_of_identity();
}

#[test]
fn main_adjoint_pure_rotation_has_no_coupling() {
    check_adjoint_of_pure_rotation();
}

#[test]
fn main_adjoint_translation_couples_rotation_into_translation() {
    check_adjoint_of_translation();
}

#[test]
fn main_adjoint_moves_covariance_between_frames() {
    check_adjoint_moves_covariance();
}

#[test]
fn main_left_swap_when_partner_sits_at_negative_x() {
    check_left_swap();
}

#[test]
fn main_odometry_mode_selection() {
    assert_eq!(odometry_mode(Mode::Rgbd, true), ffi::CUV_ODOMETRY_RGBD);
    assert_eq!(odometry_mode(Mode::Mono, false), ffi::CUV_ODOMETRY_MONO);
    assert_eq!(odometry_mode(Mode::Stereo, false), ffi::CUV_ODOMETRY_MULTICAMERA);
    assert_eq!(odometry_mode(Mode::Stereo, true), ffi::CUV_ODOMETRY_INERTIAL);
}

#[test]
fn main_encoding_declares_color_as_rgb() {
    assert_eq!(image_encoding("mono8"), ffi::CUV_ENCODING_MONO);
    assert_eq!(image_encoding("rgb8"), ffi::CUV_ENCODING_RGB);
    assert_eq!(image_encoding("bgr8"), ffi::CUV_ENCODING_RGB);
}

#[test]
fn cuvslam_odometry_adjoint_of_identity_is_identity() {
    check_adjoint_of_identity();
}

#[test]
fn cuvslam_odometry_adjoint_pure_rotation_has_no_coupling() {
    check_adjoint_of_pure_rotation();
}

#[test]
fn cuvslam_odometry_adjoint_translation_couples_rotation_into_translation() {
    check_adjoint_of_translation();
}

#[test]
fn cuvslam_odometry_adjoint_moves_covariance_between_frames() {
    check_adjoint_moves_covariance();
}

#[test]
fn cuvslam_odometry_left_swap_when_partner_sits_at_negative_x() {
    check_left_swap();
}

#[test]
fn cuvslam_odometry_odometry_mode_selection() {
    assert_eq!(odometry_mode(Mode::Rgbd, false), ffi::CUV_ODOMETRY_RGBD);
    assert_eq!(odometry_mode(Mode::Mono, false), ffi::CUV_ODOMETRY_MONO);
    assert_eq!(odometry_mode(Mode::Stereo, false), ffi::CUV_ODOMETRY_MULTICAMERA);
    assert_eq!(odometry_mode(Mode::Stereo, true), ffi::CUV_ODOMETRY_INERTIAL);
}

#[test]
fn cuvslam_odometry_encoding_declares_color_as_rgb() {
    assert_eq!(image_encoding("mono8"), ffi::CUV_ENCODING_MONO);
    assert_eq!(image_encoding("rgb8"), ffi::CUV_ENCODING_RGB);
    assert_eq!(image_encoding("bgr8"), ffi::CUV_ENCODING_RGB);
}

fn visual_core(config: CuvslamOdometryConfig) -> Result<CuvslamCore<Floats>, String> {
    CuvslamCore::new(config, Floats)
}

fn scales(entries: Vec<(&str, f64)>) -> OrderedMap<String, Scalar> {
    let mut map = OrderedMap::new();
    for (frame, units) in entries {
        map.insert(frame.to_string(), s(units));
    }
    map
}

#[test]
fn an_unknown_camera_mode_is_refused_rather_than_becoming_mono() {
    let config = CuvslamOdometryConfig {
        camera_mode: "steREO".to_string(),
        ..Default::default()
    };
    let error = visual_core(config).err().expect("must not build");
    assert!(error.contains("camera_mode"), "{error}");
    assert_eq!(
        error,
        "config: camera_mode must be 'stereo', 'mono' or 'rgbd', got 'steREO'"
    );
}

#[test]
fn enable_imu_outside_stereo_is_refused_rather_than_dropped() {
    for camera_mode in ["mono", "rgbd"] {
        let config = CuvslamOdometryConfig {
            camera_mode: camera_mode.to_string(),
            enable_imu: true,
            frame_id_to_depth_units_per_meter: scales(vec![("depth", 1000.0)]),
            ..Default::default()
        };
        let error = visual_core(config).err().expect("must not build");
        assert!(error.contains("enable_imu"), "{camera_mode}: {error}");
        assert_eq!(
            error,
            format!(
                "config: enable_imu requires camera_mode 'stereo'; cuVSLAM has no inertial \
                 {camera_mode} mode"
            )
        );
    }
}

fn with_entries(entries: Vec<(&str, f64)>) -> CuvslamOdometryConfig {
    CuvslamOdometryConfig {
        camera_mode: "rgbd".to_string(),
        frame_id_to_depth_units_per_meter: scales(entries),
        ..Default::default()
    }
}

#[test]
fn rgbd_needs_exactly_one_depth_scale() {
    assert!(visual_core(with_entries(Vec::new())).is_err());
    assert!(visual_core(with_entries(vec![("a", 1000.0), ("b", 1.0)])).is_err());
    assert!(visual_core(with_entries(vec![("a", 1000.0)])).is_ok());
    assert_eq!(
        visual_core(with_entries(Vec::new())).err().expect("must not build"),
        "config: camera_mode 'rgbd' needs exactly one frame_id_to_depth_units_per_meter entry, \
         got 0"
    );
}

/// Mounts by parent and child.
struct Mounts(Vec<(String, String, Pose)>);

impl TfLookup for Mounts {
    fn latest(&self, parent: &str, child: &str) -> Option<Pose> {
        self.0.iter().find(|(p, c, _)| p == parent && c == child).map(|(_, _, pose)| *pose)
    }
}

fn mounts(entries: Vec<(&str, &str, Pose)>) -> Mounts {
    Mounts(
        entries
            .into_iter()
            .map(|(parent, child, pose)| (parent.to_string(), child.to_string(), pose))
            .collect(),
    )
}

fn camera_model(frame: &str, width: i32, height: i32) -> CameraModel {
    let mut info = CameraModel {
        frame_id: frame.to_string(),
        width,
        height,
        ..Default::default()
    };
    info.intrinsics[0] = s(100.0);
    info.intrinsics[4] = s(110.0);
    info.intrinsics[2] = s(width as f64 / 2.0);
    info.intrinsics[5] = s(height as f64 / 2.0);
    info
}

fn gray_image(frame: &str, timestamp_ns: i64) -> ImageFrame {
    ImageFrame {
        timestamp_ns,
        frame_id: frame.to_string(),
        width: 4,
        height: 2,
        encoding: "mono8".to_string(),
        step: 4,
        data: vec![7; 8],
    }
}

fn mono_config() -> CuvslamOdometryConfig {
    CuvslamOdometryConfig { camera_mode: "mono".to_string(), ..Default::default() }
}

fn mono_mounts() -> Mounts {
    mounts(vec![
        ("base_link", "cam", pose_at(0.0, 0.0, 0.0)),
        ("base_link", "base_link", pose_at(0.0, 0.0, 0.0)),
    ])
}

fn expect_build(step: Step) -> TrackerPlan {
    match step {
        Step::Build(plan) => plan,
        _ => panic!("a tracker is due"),
    }
}

fn expect_track(step: Step) -> TrackRequest {
    match step {
        Step::Track(request) => request,
        _ => panic!("a frame set is due"),
    }
}

fn located(timestamp_ns: i64, x: f64, variance: f64) -> TrackReply {
    let mut covariance = Matrix6::zeros();
    for dim in 0..6 {
        covariance.entries[dim * 7] = s(variance);
    }
    TrackReply::Estimate {
        timestamp_ns,
        world_from_rig: Some((to_cuv_pose(&Floats, &pose_at(x, 0.0, 0.0)), covariance)),
    }
}

/// A mono core with its tracker made and the first frame set sent.
fn tracking_core(config: CuvslamOdometryConfig) -> (CuvslamCore<Floats>, Mounts) {
    let tf = mono_mounts();
    let mut core = visual_core(config).ok().expect("a usable config");
    core.handle_camera_info(camera_model("cam", 4, 2), &tf);
    expect_build(core.handle_image(gray_image("cam", 1000), &tf));
    expect_track(core.handle_tracker_built(&tf));
    (core, tf)
}

fn next_frame(
    core: &mut CuvslamCore<Floats>,
    tf: &Mounts,
    timestamp_ns: i64,
    reply: TrackReply,
) -> Option<OdometryEstimate> {
    expect_track(core.handle_image(gray_image("cam", timestamp_ns), tf));
    core.handle_track_reply(reply)
}

#[test]
fn the_plan_follows_the_rig_and_the_config() {
    let tf = mounts(vec![
        ("base_link", "right", pose_at(0.12, 0.0, 0.0)),
        ("base_link", "left", pose_at(0.0, 0.0, 0.0)),
        ("base_link", "base_link", pose_at(0.0, 0.0, 0.0)),
        ("base_link", "imu", pose_at(0.0, 0.0, 0.5)),
    ]);
    let config = CuvslamOdometryConfig { enable_imu: true, ..Default::default() };
    let mut core = visual_core(config).ok().expect("a usable config");
    // Discovered by name the right one would come second anyway; a name that sorts before "left"
    // has to be swapped behind it.
    core.handle_camera_info(camera_model("left", 4, 2), &tf);
    assert_eq!(core.cameras.len(), 0);
    core.handle_camera_info(camera_model("right", 4, 2), &tf);
    assert_eq!(core.cameras.len(), 2);
    assert_eq!(core.cameras[0].frame, "left");
    assert!(matches!(core.handle_image(gray_image("left", 1000), &tf), Step::Idle));
    // The IMU's noise model has not arrived yet.
    assert!(matches!(core.handle_image(gray_image("right", 1000), &tf), Step::Idle));
    core.handle_imu_info(
        ImuNoiseModel {
            frame_id: "imu".to_string(),
            gyro_noise_density: s(0.5),
            gyro_random_walk: s(0.25),
            accel_noise_density: s(0.125),
            accel_random_walk: s(2.0),
            frequency: s(200.0),
        },
        &tf,
    );
    let plan = expect_build(core.handle_image(gray_image("right", 1001), &tf));
    assert_eq!(plan.cameras.len(), 2);
    assert_eq!(f_single(plan.cameras[1].rig_from_camera.translation.x), 0.12);
    assert_eq!(f_single(plan.cameras[0].focal.0), 100.0);
    assert_eq!(f_single(plan.cameras[0].focal.1), 110.0);
    assert_eq!(f_single(plan.cameras[0].principal.0), 2.0);
    assert_eq!(f_single(plan.cameras[0].principal.1), 1.0);
    assert_eq!(plan.cameras[0].distortion_model, ffi::CUV_DISTORTION_PINHOLE);
    let imu = plan.imu.expect("inertial");
    assert_eq!(f_single(imu.gyroscope_noise_density), 0.5);
    assert_eq!(f_single(imu.gyroscope_random_walk), 0.25);
    assert_eq!(f_single(imu.accelerometer_noise_density), 0.125);
    assert_eq!(f_single(imu.accelerometer_random_walk), 2.0);
    assert_eq!(f_single(imu.frequency), 200.0);
    assert_eq!(f_single(imu.rig_from_imu.translation.z), 0.5);
    assert_eq!(plan.config.odometry_mode, ffi::CUV_ODOMETRY_INERTIAL);
    assert!(plan.config.use_gpu);
    assert!(plan.config.rectified_stereo_camera);
    assert_eq!(f_single(plan.config.rgbd_depth_scale_factor), 1.0);
    assert_eq!(plan.config.rgbd_depth_camera_id, -1);
}

#[test]
fn discovered_cameras_are_swapped_so_that_the_left_one_is_first() {
    let tf = mounts(vec![
        ("base_link", "a", pose_at(0.12, 0.0, 0.0)),
        ("base_link", "b", pose_at(0.0, 0.0, 0.0)),
    ]);
    let mut core = visual_core(CuvslamOdometryConfig::default()).ok().expect("usable");
    core.handle_camera_info(camera_model("a", 4, 2), &tf);
    core.handle_camera_info(camera_model("b", 4, 2), &tf);
    assert_eq!(core.cameras[0].frame, "b");
    assert_eq!(core.cameras[1].frame, "a");
    // Configured ones stay as they are.
    let config = CuvslamOdometryConfig {
        camera_frames: vec!["a".to_string(), "b".to_string()],
        ..Default::default()
    };
    let mut core = visual_core(config).ok().expect("usable");
    core.handle_camera_info(camera_model("b", 4, 2), &tf);
    assert_eq!(core.cameras.len(), 0);
    core.handle_camera_info(camera_model("a", 4, 2), &tf);
    assert_eq!(core.cameras[0].frame, "a");
}

#[test]
fn no_camera_is_placed_until_every_camera_is() {
    let tf = mounts(vec![("base_link", "a", pose_at(0.0, 0.0, 0.0))]);
    let mut core = visual_core(CuvslamOdometryConfig::default()).ok().expect("usable");
    core.handle_camera_info(camera_model("a", 4, 2), &tf);
    core.handle_camera_info(camera_model("b", 4, 2), &tf);
    assert_eq!(core.cameras.len(), 0);
    assert!(matches!(core.handle_image(gray_image("a", 1), &tf), Step::Idle));
    assert_eq!(core.report().unplaced_images, 1);
}

#[test]
fn each_backend_is_tried_once() {
    let tf = mono_mounts();
    let mut core = visual_core(mono_config()).ok().expect("usable");
    core.handle_camera_info(camera_model("cam", 4, 2), &tf);
    let plan = expect_build(core.handle_image(gray_image("cam", 1000), &tf));
    assert!(plan.config.use_gpu);
    assert_eq!(plan.config.odometry_mode, ffi::CUV_ODOMETRY_MONO);
    assert!(!plan.config.rectified_stereo_camera);
    let retry = expect_build(core.handle_build_failure(plan));
    assert!(!retry.config.use_gpu);
    assert_eq!(retry.cameras.len(), 1);
    assert!(matches!(core.handle_build_failure(retry), Step::Idle));
    assert_eq!(core.tracker, TrackerState::Unbuildable);
    assert!(matches!(core.handle_image(gray_image("cam", 2000), &tf), Step::Idle));
}

#[test]
fn a_frame_set_goes_out_under_its_newest_stamp() {
    let tf = mounts(vec![
        ("base_link", "left", pose_at(0.0, 0.0, 0.0)),
        ("base_link", "right", pose_at(0.12, 0.0, 0.0)),
        ("base_link", "base_link", pose_at(0.0, 0.0, 0.0)),
    ]);
    let mut core = visual_core(CuvslamOdometryConfig::default()).ok().expect("usable");
    core.handle_camera_info(camera_model("left", 4, 2), &tf);
    core.handle_camera_info(camera_model("right", 4, 2), &tf);
    let _ = core.handle_image(gray_image("left", 5_000_000), &tf);
    // More than a millisecond apart.
    expect_build(core.handle_image(gray_image("right", 6_000_001), &tf));
    assert!(matches!(core.handle_tracker_built(&tf), Step::Idle));
    assert_eq!(core.report().skew_rejects, 1);
    let mut colour = gray_image("left", 6_500_000);
    colour.encoding = "rgb8".to_string();
    let request = expect_track(core.handle_image(colour, &tf));
    assert_eq!(request.images.len(), 2);
    assert_eq!(request.images[0].timestamp_ns, 6_500_000);
    assert_eq!(request.images[1].timestamp_ns, 6_500_000);
    assert_eq!(request.images[0].encoding, ffi::CUV_ENCODING_RGB);
    assert_eq!(request.images[1].encoding, ffi::CUV_ENCODING_MONO);
    assert_eq!(request.images[1].camera_index, 1);
    assert_eq!(request.images[0].data_type, ffi::CUV_DATA_UINT8);
    assert_eq!(request.images[0].frame.data, vec![7; 8]);
    assert_eq!(request.depths.len(), 0);
    assert!(core.handle_track_reply(TrackReply::Failed).is_none());
    assert_eq!(core.report().frames, 1);
    // A frame set that is not newer is dropped.
    let _ = core.handle_image(gray_image("left", 6_500_000), &tf);
    assert!(matches!(core.handle_image(gray_image("right", 6_500_000), &tf), Step::Idle));
    assert!(core.cameras[0].image.is_none());
}

#[test]
fn imu_readings_go_out_with_the_frame_set_they_precede() {
    let (mut core, tf) = tracking_core(mono_config());
    assert_eq!(core.report().imu_dropped, 0);
    let sample = |timestamp_ns: i64| ImuSample {
        timestamp_ns,
        frame_id: "imu".to_string(),
        angular_velocity: vector(1.0, 2.0, 3.0),
        linear_acceleration: vector(4.0, 5.0, 6.0),
    };
    let _ = core.handle_track_reply(TrackReply::Failed);
    // The third one is late: it stays behind the newer one before it.
    for timestamp_ns in [1500, 2500, 1800] {
        core.handle_imu(&sample(timestamp_ns));
    }
    let request = expect_track(core.handle_image(gray_image("cam", 2000), &tf));
    assert_eq!(request.imu.len(), 1);
    assert_eq!(request.imu[0].timestamp_ns, 1500);
    assert_eq!(f_single(request.imu[0].angular_velocities.y), 2.0);
    assert_eq!(f_single(request.imu[0].linear_accelerations.z), 6.0);
    assert_eq!(core.pending_imu.len(), 2);
    for timestamp_ns in 0..3000 {
        core.handle_imu(&sample(10_000 + timestamp_ns));
    }
    assert_eq!(core.pending_imu.len(), MAX_PENDING_IMU);
    assert_eq!(core.pending_imu[0].timestamp_ns, 10_000 + 3000 - 2048);
    assert_eq!(core.report().imu_samples, 3003);
}

#[test]
fn a_sample_from_before_the_tracker_is_counted_and_dropped() {
    let mut core = visual_core(mono_config()).ok().expect("usable");
    core.handle_imu(&imu_message(1, 0.0, 0.0));
    assert_eq!(core.report().imu_dropped, 1);
    assert_eq!(core.pending_imu.len(), 0);
}

#[test]
fn a_tracked_pose_is_seen_through_the_mount() {
    // The rig sits a metre ahead of the body and looks to its left.
    let mount = from_na_pose(nalgebra::Isometry3::from_parts(
        nalgebra::Translation3::new(1.0, 0.0, 0.0),
        quarter_turn(),
    ));
    let tf = mounts(vec![
        ("rig", "cam", pose_at(0.0, 0.0, 0.0)),
        ("base_link", "rig", mount),
    ]);
    let config = CuvslamOdometryConfig { rig_frame_id: "rig".to_string(), ..mono_config() };
    let mut core = visual_core(config).ok().expect("usable");
    core.handle_camera_info(camera_model("cam", 4, 2), &tf);
    expect_build(core.handle_image(gray_image("cam", 1000), &tf));
    expect_track(core.handle_tracker_built(&tf));
    let mut covariance = Matrix6::zeros();
    covariance.entries[5 * 7] = s(0.01);
    let reply = TrackReply::Estimate {
        timestamp_ns: 1000,
        world_from_rig: Some((to_cuv_pose(&Floats, &pose_at(2.0, 0.0, 0.0)), covariance)),
    };
    let out = core.handle_track_reply(reply).expect("a pose");
    assert_eq!(out.frame_id, "odom");
    assert_eq!(out.child_frame_id, "base_link");
    assert_eq!(out.timestamp_ns, 1000);
    // Two metres along the rig's x are two along the body's y.
    let position = na_vector(&out.pose.translation);
    assert!((position - nalgebra::Vector3::new(0.0, 2.0, 0.0)).norm() < 1e-6);
    // Yaw at a metre's arm is lateral.
    let moved = na_matrix6(&out.pose_covariance);
    assert!((moved[(1, 1)] - 0.01).abs() < 1e-9);
    assert!((moved[(5, 5)] - 0.01).abs() < 1e-9);
}

#[test]
fn an_unsure_frame_is_held_and_later_ones_rebase_onto_it() {
    let config = CuvslamOdometryConfig {
        covariance_gate_translation_std: s(0.5),
        ..mono_config()
    };
    let (mut core, tf) = tracking_core(config);
    // The first frame is never doubted.
    let first = core.handle_track_reply(located(1000, 1.0, 4.0)).expect("a pose");
    assert!((f(first.pose.translation.x) - 1.0).abs() < 1e-6);
    let held = next_frame(&mut core, &tf, 2000, located(2000, 9.0, 4.0)).expect("a pose");
    assert!((f(held.pose.translation.x) - 1.0).abs() < 1e-6);
    assert_eq!(core.report().covariance_gated, 1);
    let after = next_frame(&mut core, &tf, 3000, located(3000, 9.5, 0.01)).expect("a pose");
    assert!((f(after.pose.translation.x) - 1.5).abs() < 1e-6);
    // What is not a number is unconstrained.
    let nan = next_frame(&mut core, &tf, 4000, located(4000, 20.0, f64::NAN)).expect("a pose");
    assert!((f(nan.pose.translation.x) - 1.5).abs() < 1e-6);
    assert_eq!(core.report().covariance_gated, 2);
    assert_eq!(core.report().tracked_frames, 4);
}

#[test]
fn a_teleport_is_held_by_the_speed_gate() {
    let config = CuvslamOdometryConfig { speed_gate_max_linear: s(10.0), ..mono_config() };
    let (mut core, tf) = tracking_core(config);
    let _ = core.handle_track_reply(located(0, 0.0, 0.0));
    let jump = next_frame(&mut core, &tf, NS_PER_SEC, located(NS_PER_SEC, 100.0, 0.0))
        .expect("a pose");
    assert_eq!(f(jump.pose.translation.x), 0.0);
    assert_eq!(core.report().speed_gated, 1);
    // Only the jump itself is held: speed is measured from the far side.
    let near = next_frame(&mut core, &tf, 2 * NS_PER_SEC, located(2 * NS_PER_SEC, 101.0, 0.0))
        .expect("a pose");
    assert!((f(near.pose.translation.x) - 1.0).abs() < 1e-4);
    assert_eq!(core.report().speed_gated, 1);
}

#[test]
fn a_spin_is_held_by_the_angular_gate() {
    let config = CuvslamOdometryConfig { speed_gate_max_angular: s(1.0), ..mono_config() };
    let (mut core, tf) = tracking_core(config);
    let turned = |timestamp_ns: i64, angle: f64| TrackReply::Estimate {
        timestamp_ns,
        world_from_rig: Some((
            to_cuv_pose(
                &Floats,
                &from_na_pose(nalgebra::Isometry3::rotation(nalgebra::Vector3::new(
                    0.0, 0.0, angle,
                ))),
            ),
            Matrix6::zeros(),
        )),
    };
    let _ = core.handle_track_reply(turned(0, 0.0));
    let slow = next_frame(&mut core, &tf, NS_PER_SEC, turned(NS_PER_SEC, 0.5)).expect("a pose");
    assert!((f(slow.pose.rotation.w) - 0.25f64.cos()).abs() < 1e-6);
    let fast = next_frame(&mut core, &tf, 2 * NS_PER_SEC, turned(2 * NS_PER_SEC, 2.0))
        .expect("a pose");
    assert!((f(fast.pose.rotation.w) - 0.25f64.cos()).abs() < 1e-6);
    assert_eq!(core.report().speed_gated, 1);
}

#[test]
fn nothing_is_given_out_while_lost_and_the_next_frame_is_not_too_fast() {
    let config = CuvslamOdometryConfig { speed_gate_max_linear: s(10.0), ..mono_config() };
    let (mut core, tf) = tracking_core(config);
    let _ = core.handle_track_reply(located(0, 0.0, 0.0));
    let lost = |timestamp_ns: i64| TrackReply::Estimate { timestamp_ns, world_from_rig: None };
    assert!(next_frame(&mut core, &tf, 2000, lost(2000)).is_none());
    assert!(next_frame(&mut core, &tf, 3000, lost(3000)).is_none());
    assert_eq!(core.report().segment_id, 1);
    assert!(core.previous_raw.is_none());
    let back = next_frame(&mut core, &tf, 4000, located(4000, 50.0, 0.0)).expect("a pose");
    assert_eq!(f(back.pose.translation.x), 50.0);
    assert_eq!(core.report().speed_gated, 0);
}

fn depth_image(frame: &str, timestamp_ns: i64, width: i32, height: i32, raw: u16) -> ImageFrame {
    let mut data = Vec::new();
    for _ in 0..width * height {
        data.extend_from_slice(&raw.to_ne_bytes());
    }
    ImageFrame {
        timestamp_ns,
        frame_id: frame.to_string(),
        width,
        height,
        encoding: "16UC1".to_string(),
        step: width * 2,
        data,
    }
}

#[test]
fn depth_in_the_cameras_own_frame_goes_out_as_it_is() {
    let tf = mono_mounts();
    let mut core = visual_core(with_entries(vec![("cam", 1000.0)])).ok().expect("usable");
    core.handle_camera_info(camera_model("cam", 4, 2), &tf);
    let _ = core.handle_image(gray_image("cam", 1000), &tf);
    let depth = depth_image("cam", 1000, 4, 2, 1500);
    let bytes = depth.data.clone();
    let (cloud, step) = core.handle_depth_image(depth, &tf);
    assert_eq!(cloud.expect("the camera is known").points.len(), 8);
    let plan = expect_build(step);
    assert_eq!(f_single(plan.config.rgbd_depth_scale_factor), 1000.0);
    assert_eq!(plan.config.rgbd_depth_camera_id, 0);
    assert_eq!(plan.config.odometry_mode, ffi::CUV_ODOMETRY_RGBD);
    let request = expect_track(core.handle_tracker_built(&tf));
    assert_eq!(request.depths.len(), 1);
    assert_eq!(request.depths[0].frame.data, bytes);
    assert_eq!(request.depths[0].data_type, ffi::CUV_DATA_UINT16);
    assert_eq!(request.depths[0].encoding, ffi::CUV_ENCODING_MONO);
    assert_eq!(request.depths[0].camera_index, 0);
    assert_eq!(core.report().depth_reprojected, 0);
}

#[test]
fn depth_in_another_frame_waits_for_its_camera_and_is_reprojected() {
    let mut tf = mono_mounts();
    let mut core = visual_core(with_entries(vec![("depth", 1000.0)])).ok().expect("usable");
    core.handle_camera_info(camera_model("cam", 4, 2), &tf);
    let _ = core.handle_image(gray_image("cam", 1000), &tf);
    let (cloud, step) = core.handle_depth_image(depth_image("depth", 1000, 4, 2, 1500), &tf);
    assert!(cloud.is_none());
    expect_build(step);
    assert!(matches!(core.handle_tracker_built(&tf), Step::Idle));
    core.handle_depth_camera_info(camera_model("depth", 4, 2));
    // A second word on the depth camera does not count.
    core.handle_depth_camera_info(camera_model("other", 1, 1));
    assert_eq!(core.depth_info.as_ref().expect("known").frame_id, "depth");
    assert!(matches!(core.handle_image(gray_image("cam", 1001), &tf), Step::Idle));
    tf.0.push(("cam".to_string(), "depth".to_string(), Pose::identity()));
    let request = expect_track(core.handle_image(gray_image("cam", 1002), &tf));
    assert_eq!(core.report().depth_reprojected, 1);
    assert_eq!(request.depths[0].frame.frame_id, "cam");
    assert_eq!(request.depths[0].frame.data, depth_image("cam", 0, 4, 2, 1500).data);
    assert_eq!(request.depths[0].timestamp_ns, 1002);
}

#[test]
fn a_depth_image_smaller_than_its_header_claims_is_dropped() {
    let tf = mono_mounts();
    let mut core = visual_core(with_entries(vec![("cam", 1000.0)])).ok().expect("usable");
    let mut short = depth_image("cam", 0, 4, 2, 1);
    short.data.pop();
    assert!(!is_whole(&short));
    let (cloud, step) = core.handle_depth_image(short, &tf);
    assert!(cloud.is_none());
    assert!(matches!(step, Step::Idle));
    assert!(core.depth.is_none());
    let mut narrow = depth_image("cam", 0, 4, 2, 1);
    narrow.step = 6;
    assert!(!is_whole(&narrow));
    let whole = depth_image("cam", 0, 4, 2, 1);
    assert!(is_whole(&whole));
}

#[test]
fn the_whole_core_fuses_what_is_tracked() {
    let tf = mono_mounts();
    let config = DimSlamCoreConfig {
        camera_mode: "mono".to_string(),
        visual_odom_pose_variances: six([1e-4; 6]),
        ..Default::default()
    };
    let mut slam = DimSlamCore::new(config, Floats, Floats).ok().expect("usable");
    slam.handle_camera_info(camera_model("cam", 4, 2), &tf);
    expect_build(slam.handle_image(gray_image("cam", 0), &tf));
    expect_track(slam.handle_tracker_built(&tf));
    slam.handle_track_reply(located(0, 5.0, 0.0));
    expect_track(slam.handle_image(gray_image("cam", NS_PER_SEC / 10), &tf));
    slam.handle_track_reply(located(NS_PER_SEC / 10, 5.5, 0.0));
    let out = slam.maybe_publish().expect("a period has elapsed");
    assert!((f(out.pose.translation.x) - 0.5).abs() < 1e-6);
    assert_eq!(slam.report().0.tracked_frames, 2);
    // No IMU is configured, so a sample does nothing.
    slam.handle_imu(&imu_message(NS_PER_SEC, 0.0, 0.0), &tf);
    assert_eq!(slam.report().1.imu_samples, 0);
}

fn make_info(width: i32, height: i32, focal: f64) -> CameraModel {
    let mut info = CameraModel { width, height, ..Default::default() };
    info.intrinsics[0] = s(focal);
    info.intrinsics[4] = s(focal);
    info.intrinsics[2] = s(width as f64 / 2.0);
    info.intrinsics[5] = s(height as f64 / 2.0);
    info
}

fn make_depth(width: i32, height: i32, millimeters: u16) -> ImageFrame {
    depth_image("", 0, width, height, millimeters)
}

fn set_pixel(image: &mut ImageFrame, u: i32, v: i32, millimeters: u16) {
    let start = (v * image.step + u * 2) as usize;
    image.data[start..start + 2].copy_from_slice(&millimeters.to_ne_bytes());
}

fn get_pixel(image: &ImageFrame, u: i32, v: i32) -> u16 {
    let start = (v * image.step + u * 2) as usize;
    u16::from_ne_bytes([image.data[start], image.data[start + 1]])
}

fn cut(depth: &ImageFrame, max_range: f64, decimation: u32) -> PointCloud {
    let mut cloud = PointCloud::default();
    depth_cloud(
        &Floats,
        ByteOrder::native(),
        depth,
        &make_info(depth.width, depth.height, 100.0),
        s(1000.0),
        s(0.0),
        s(max_range),
        decimation,
        &mut cloud,
    );
    cloud
}

fn cloud_z_values(cloud: &PointCloud) -> Vec<f32> {
    cloud.points.iter().map(|point| f_single(point.z)).collect()
}

#[test]
fn decimation_takes_the_block_median_not_the_mean() {
    let mut depth = make_depth(4, 4, 2000);
    set_pixel(&mut depth, 0, 0, 9000);
    set_pixel(&mut depth, 2, 2, 9000);
    let cloud = cut(&depth, 0.0, 2);
    assert_eq!(cloud.points.len(), 4);
    assert!(cloud_z_values(&cloud).iter().all(|&z| z == 2.0));
}

#[test]
fn a_block_with_mostly_invalid_pixels_is_dropped() {
    let mut depth = make_depth(2, 2, 0);
    set_pixel(&mut depth, 0, 0, 2000);
    let cloud = cut(&depth, 0.0, 2);
    assert!(cloud.points.is_empty());
}

#[test]
fn decimation_off_emits_every_valid_pixel() {
    let depth = make_depth(4, 4, 2000);
    let cloud = cut(&depth, 0.0, 1);
    assert_eq!(cloud.points.len(), 16);
}

/// A strip of three blocks in a row, each uniform at the given depth.
fn three_block_strip(left: u16, middle: u16, right: u16) -> PointCloud {
    let mut depth = make_depth(6, 2, left);
    for v in 0..2 {
        for u in 2..4 {
            set_pixel(&mut depth, u, v, middle);
        }
        for u in 4..6 {
            set_pixel(&mut depth, u, v, right);
        }
    }
    cut(&depth, 0.0, 2)
}

#[test]
fn a_block_hanging_mid_gap_between_its_neighbours_is_dropped() {
    // A fringe strip interpolating a wall-to-wall discontinuity: mid-air, no surface.
    let cloud = three_block_strip(1000, 3000, 5000);
    assert_eq!(cloud_z_values(&cloud), vec![1.0, 5.0]);
}

#[test]
fn a_thin_object_in_front_of_the_background_is_kept() {
    // A chair leg: nearer than both neighbours, not between them.
    let cloud = three_block_strip(5000, 1000, 5000);
    assert_eq!(cloud_z_values(&cloud), vec![5.0, 1.0, 5.0]);
}

#[test]
fn a_sloped_surface_within_the_margin_is_kept() {
    // A grazing floor or corridor wall: between its neighbours but inside the margin.
    let cloud = three_block_strip(2000, 2240, 2480);
    assert_eq!(cloud_z_values(&cloud), vec![2.0, 2.24, 2.48]);
}

#[test]
fn range_gate_applies_inside_blocks() {
    let mut depth = make_depth(2, 2, 2000);
    // Two pixels beyond the far gate leave only half the block valid: still kept.
    set_pixel(&mut depth, 0, 0, 7000);
    set_pixel(&mut depth, 1, 0, 7000);
    let cloud = cut(&depth, 5.0, 2);
    assert_eq!(cloud.points.len(), 1);
    assert_eq!(cloud_z_values(&cloud), vec![2.0]);
}

#[test]
fn a_pixel_becomes_the_point_a_pinhole_camera_sees() {
    let mut depth = make_depth(4, 2, 0);
    set_pixel(&mut depth, 3, 1, 500);
    let cloud = cut(&depth, 0.0, 0);
    assert_eq!(cloud.points.len(), 1);
    // (3 - 2) / 100 * 0.5 and (1 - 1) / 100 * 0.5.
    assert_eq!(
        cloud.points[0],
        SingleVector { x: single(0.005), y: single(0.0), z: single(0.5) }
    );
    // A block's point sits in its middle, half a pixel off.
    let cloud = cut(&make_depth(2, 2, 500), 0.0, 2);
    assert_eq!(
        cloud.points[0],
        SingleVector {
            x: single(((0.5 - 1.0) / 100.0 * 0.5) as f32),
            y: single(((0.5 - 1.0) / 100.0 * 0.5) as f32),
            z: single(0.5),
        }
    );
}

fn reproject(
    depth: &ImageFrame,
    depth_info: &CameraModel,
    camera_info: &CameraModel,
    camera_from_depth: &Pose,
) -> ImageFrame {
    let mut out = ImageFrame::default();
    reproject_depth(
        &Floats,
        ByteOrder::native(),
        depth,
        depth_info,
        camera_info,
        camera_from_depth,
        s(1000.0),
        &mut out,
    );
    out
}

#[test]
fn identity_transform_is_passthrough() {
    let info = make_info(8, 6, 100.0);
    let mut depth = make_depth(8, 6, 0);
    set_pixel(&mut depth, 3, 2, 1500);
    let out = reproject(&depth, &info, &info, &Pose::identity());
    assert_eq!(get_pixel(&out, 3, 2), 1500);
    let total: u64 = (0..6)
        .flat_map(|v| (0..8).map(move |u| (u, v)))
        .map(|(u, v)| get_pixel(&out, u, v) as u64)
        .sum();
    assert_eq!(total, 1500);
}

#[test]
fn translation_shifts_projection() {
    // Moving the target camera +x by 0.1 m at 1 m depth with f=100 shifts u by -10 px.
    let info = make_info(32, 32, 100.0);
    let mut depth = make_depth(32, 32, 0);
    set_pixel(&mut depth, 16, 16, 1000);
    let out = reproject(&depth, &info, &info, &pose_at(-0.1, 0.0, 0.0));
    assert_eq!(get_pixel(&out, 6, 16), 1000);
}

#[test]
fn nearest_surface_wins_on_collision() {
    // Two depth pixels, one behind the other, forced onto one target pixel by a
    // low-resolution target camera.
    let depth_info = make_info(4, 4, 1000.0);
    // Principal point at the corner so every ray lands on pixel (0, 0).
    let mut target_info = make_info(1, 1, 0.001);
    target_info.intrinsics[2] = s(0.0);
    target_info.intrinsics[5] = s(0.0);
    let mut depth = make_depth(4, 4, 0);
    set_pixel(&mut depth, 1, 1, 3000);
    set_pixel(&mut depth, 2, 2, 1200);
    let out = reproject(&depth, &depth_info, &target_info, &Pose::identity());
    assert_eq!(get_pixel(&out, 0, 0), 1200);
}

#[test]
fn behind_camera_is_dropped() {
    let info = make_info(8, 8, 100.0);
    let mut depth = make_depth(8, 8, 0);
    set_pixel(&mut depth, 4, 4, 500);
    // Push the point 1 m behind the target camera.
    let out = reproject(&depth, &info, &info, &pose_at(0.0, 0.0, -1.0));
    assert!(out.data.iter().all(|byte| *byte == 0));
}

#[test]
fn distortion_all_zero_is_pinhole() {
    let info = CameraModel { distortion: vec![s(0.0); 5], ..Default::default() };
    assert_eq!(to_distortion(&Floats, &info), (ffi::CUV_DISTORTION_PINHOLE, Vec::new()));
}

#[test]
fn distortion_empty_is_pinhole() {
    let info = CameraModel::default();
    assert_eq!(to_distortion(&Floats, &info), (ffi::CUV_DISTORTION_PINHOLE, Vec::new()));
}

#[test]
fn distortion_plumb_bob_reorders_to_brown() {
    let info = CameraModel {
        distortion: vec![s(0.1), s(0.2), s(0.3), s(0.4), s(0.5)], // k1 k2 p1 p2 k3
        ..Default::default()
    };
    let (model, parameters) = to_distortion(&Floats, &info);
    assert_eq!(model, ffi::CUV_DISTORTION_BROWN);
    let parameters: Vec<f32> = parameters.into_iter().map(f_single).collect();
    assert_eq!(parameters, vec![0.1, 0.2, 0.5, 0.3, 0.4]); // k1 k2 k3 p1 p2
}

#[test]
fn pose_round_trip() {
    let iso = nalgebra::Isometry3::from_parts(
        nalgebra::Translation3::new(1.0, -2.0, 3.0),
        nalgebra::UnitQuaternion::from_euler_angles(0.1, 0.2, 0.3),
    );
    let cuv: CuvPose = to_cuv_pose(&Floats, &from_na_pose(iso));
    let back = na_pose(&cuv_pose_to_isometry(&Floats, &cuv));
    assert!((back.translation.vector - iso.translation.vector).norm() < 1.0e-6);
    assert!(back.rotation.angle_to(&iso.rotation) < 1.0e-6);
}

#[test]
fn transforms_given_by_parts_are_made_units_first() {
    let a = Pose {
        translation: vector(1.0, 0.0, 0.0),
        rotation: Quaternion { x: s(0.0), y: s(0.0), z: s(2.0), w: s(2.0) },
    };
    let b = pose_at(1.0, 0.0, 0.0);
    let there = compose(&Floats, &a, &b);
    assert!((na_vector(&there.translation) - nalgebra::Vector3::new(1.0, 1.0, 0.0)).norm() < 1e-12);
    let back = compose(&Floats, &invert(&Floats, &a), &a);
    assert!(na_vector(&back.translation).norm() < 1e-12);
    assert!((f(back.rotation.w) - 1.0).abs() < 1e-12);
}

fn color_image(encoding: &str) -> ImageFrame {
    ImageFrame {
        timestamp_ns: 0,
        frame_id: "cam".to_string(),
        width: 2,
        height: 2,
        encoding: encoding.to_string(),
        step: 7,
        data: (0..14).collect(),
    }
}

#[test]
fn colour_is_packed_as_rgb_whatever_its_step() {
    let rgb = rgb_pixels(&color_image("rgb8"), 2, 2).expect("usable");
    assert_eq!(rgb, vec![0, 1, 2, 3, 4, 5, 7, 8, 9, 10, 11, 12]);
    let bgr = rgb_pixels(&color_image("bgr8"), 2, 2).expect("usable");
    assert_eq!(bgr, vec![2, 1, 0, 5, 4, 3, 9, 8, 7, 12, 11, 10]);
    assert!(rgb_pixels(&color_image("mono8"), 2, 2).is_none());
    assert!(rgb_pixels(&color_image("rgb8"), 2, 3).is_none());
    assert!(rgb_pixels(&color_image("rgb8"), 1, 2).is_none());
}

#[test]
fn the_model_is_given_metres_and_its_answer_becomes_raw_depth() {
    let fuser = Fuser::new("a", "b", false, false).expect("configured");
    let depth = depth_image("depth", 9, 2, 2, 1500);
    let order = ByteOrder::native();
    let input = fuser.fuse(&Floats, order, &color_image("rgb8"), &depth, s(1000.0)).expect("fits");
    assert_eq!(input.meters, vec![single(1.5); 4]);
    assert_eq!((input.height, input.width), (2, 2));
    assert!(fuser.fuse(&Floats, order, &color_image("mono8"), &depth, s(1000.0)).is_none());
    let fused = vec![single(0.25), single(100.0), single(-1.0), single(f32::NAN)];
    let out = fuser.fused(&Floats, order, &depth, &fused, s(1000.0));
    assert_eq!(out.timestamp_ns, 9);
    assert_eq!(get_pixel(&out, 0, 0), 250);
    assert_eq!(get_pixel(&out, 1, 0), u16::MAX);
    assert_eq!(get_pixel(&out, 0, 1), 0);
    assert_eq!(get_pixel(&out, 1, 1), 0);
}

#[test]
fn a_model_runs_on_a_gpu_where_there_is_one() {
    assert!(Fuser::new("", "b", true, true).is_none());
    assert!(Fuser::new("a", "", true, true).is_none());
    let cuda = Fuser::new("a", "b", true, true).expect("configured");
    assert_eq!((cuda.device, cuda.precision), (ModelDevice::Cuda, ModelPrecision::Half));
    let metal = Fuser::new("a", "b", false, true).expect("configured");
    assert_eq!((metal.device, metal.precision), (ModelDevice::Metal, ModelPrecision::Half));
    let cpu = Fuser::new("a", "b", false, false).expect("configured");
    assert_eq!((cpu.device, cpu.precision), (ModelDevice::Cpu, ModelPrecision::Single));
}

fn node_config() -> DimSlamConfig {
    let mut sources = one_source("visual");
    sources.insert(
        source_key("wheel"),
        SourceConfig { pose_variances: six([1e-4; 6]), twist_variances: six([0.0; 6]) },
    );
    DimSlamConfig {
        camera_mode: "mono".to_string(),
        camera_frames: Vec::new(),
        rectified: true,
        use_gpu: false,
        visual_odom_frame: "visual".to_string(),
        rig_frame: String::new(),
        covariance_gate_translation_std: s(0.0),
        speed_gate_max_linear: s(0.0),
        speed_gate_max_angular: s(0.0),
        cuvslam_enable_imu: false,
        frame_id_to_depth_units_per_meter: OrderedMap::new(),
        depth_cloud_min_range: s(0.0),
        depth_cloud_max_range: s(0.0),
        depth_cloud_decimation: 0,
        odom_frame: "odom".to_string(),
        base_frame: "base".to_string(),
        map_frame: "map".to_string(),
        publish_map_to_odom: true,
        publish_tf: true,
        publish_rate: s(100.0),
        replay_buffer_seconds: s(0.5),
        mahalanobis_gate: s(5.0),
        max_position_m: s(0.0),
        use_imu: false,
        imus: OrderedMap::new(),
        gravity: s(GRAVITY),
        imu_init_samples: 1,
        imu_init_gyro_limit: s(0.05),
        initial_stds: stds(0.1, 0.1, 0.05, 0.01),
        sources,
        constraint_twist_variances: six([0.0; 6]),
    }
}

#[test]
fn a_node_sends_what_is_tracked_with_its_transforms() {
    let tf = mounts(vec![
        ("base", "cam", pose_at(0.0, 0.0, 0.0)),
        ("base", "base", pose_at(0.0, 0.0, 0.0)),
    ]);
    let mut node = DimSlam::init(node_config(), Floats, Floats).ok().expect("usable");
    node.handle_camera_info(camera_model("cam", 4, 2), &tf);
    let plan = expect_build(node.handle_image(gray_image("cam", 0), &tf));
    assert!(!plan.config.use_gpu);
    let retry = expect_build(node.handle_build_failure(plan));
    assert!(retry.config.use_gpu);
    expect_track(node.handle_tracker_built(&tf));
    assert!(node.handle_track_reply(located(0, 3.0, 0.0)).is_none());
    expect_track(node.handle_image(gray_image("cam", NS_PER_SEC / 10), &tf));
    let sent = node.handle_track_reply(located(NS_PER_SEC / 10, 3.25, 0.0)).expect("due");
    assert_eq!(sent.message.frame_id, "odom");
    assert_eq!(sent.message.child_frame_id, "base");
    assert_eq!(sent.message.stamp.nsec, 100_000_000);
    assert!((f(sent.message.pose.translation.x) - 0.25).abs() < 1e-6);
    assert_eq!(sent.transforms.len(), 2);
    assert_eq!(sent.transforms[0].child, "base");
    assert_eq!(sent.transforms[0].pose, sent.message.pose);
    assert_eq!(sent.transforms[1].parent, "map");
    assert_eq!(sent.transforms[1].child, "odom");
    assert_eq!(sent.transforms[1].pose, Pose::identity());
    let mut wheel = source_message("wheel", NS_PER_SEC / 10, 0.0);
    assert!(node.handle_sources(wheel.clone()).is_none());
    wheel.timestamp_ns = NS_PER_SEC / 5;
    assert!(node.handle_sources(wheel).is_some());
    assert_eq!(node.report().1.measurements, 4);
    // Neither half uses an IMU.
    assert!(node.handle_imu(&imu_message(NS_PER_SEC, 0.0, 0.0), &tf).is_none());
    assert_eq!(node.report().0.imu_dropped, 0);
}

#[test]
fn a_node_feeds_an_imu_to_both_halves() {
    let mut tf = mounts(vec![]);
    let config = DimSlamConfig {
        camera_mode: "stereo".to_string(),
        cuvslam_enable_imu: true,
        use_imu: true,
        imus: one_imu(),
        publish_tf: false,
        ..node_config()
    };
    let mut node = DimSlam::init(config, Floats, Floats).ok().expect("usable");
    assert!(node.handle_imu(&imu_message(1, 0.0, 0.0), &tf).is_none());
    assert_eq!(node.report().0.imu_dropped, 1);
    // The sample's frame is not placed, so the filter has not seen it.
    assert!(!node.fusion.initialized);
    tf.0.push(("base".to_string(), "imu".to_string(), Pose::identity()));
    assert!(node.handle_imu(&imu_message(2, 0.0, 0.0), &tf).is_none());
    assert!(node.fusion.initialized);
    let sent = node.handle_imu(&imu_message(20_000_002, 0.0, 0.0), &tf).expect("due");
    assert!(sent.transforms.is_empty());
    assert_eq!(node.report().1.imu_samples, 1);
    let refused = DimSlamConfig { cuvslam_enable_imu: true, ..node_config() };
    assert!(DimSlam::init(refused, Floats, Floats).is_err());
}

#[test]
fn sources_wait_until_the_imu_has_leveled_the_filter() {
    let mut core = fusion_core(base_config(true));
    core.handle_source(&source_message("odom", 0, 0.0));
    assert!(!core.initialized);
    assert_eq!(core.report().measurements, 0);
    assert!(core.maybe_publish().is_none());
}

#[test]
fn the_rig_is_fixed_once_there_is_a_tracker() {
    let (mut core, tf) = tracking_core(mono_config());
    let _ = core.handle_track_reply(TrackReply::Failed);
    core.handle_camera_info(camera_model("another", 8, 8), &tf);
    assert_eq!(core.camera_info_by_frame.len(), 1);
    core.handle_imu_info(ImuNoiseModel::default(), &tf);
    assert!(core.imu_model.is_none());
}

#[test]
fn depth_of_an_unlisted_frame_gives_no_cloud() {
    let tf = mono_mounts();
    let mut core = visual_core(with_entries(vec![("listed", 1000.0)])).ok().expect("usable");
    core.handle_depth_camera_info(camera_model("unlisted", 4, 2));
    let (cloud, _) = core.handle_depth_image(depth_image("unlisted", 0, 4, 2, 1000), &tf);
    assert!(cloud.is_none());
    let (cloud, _) = core.handle_depth_image(depth_image("listed", 0, 4, 2, 1000), &tf);
    assert_eq!(cloud.expect("listed").points.len(), 8);
}

#[test]
fn the_same_replies_give_the_same_estimates() {
    let run = || {
        let config = CuvslamOdometryConfig {
            covariance_gate_translation_std: s(0.5),
            speed_gate_max_linear: s(1e9),
            ..mono_config()
        };
        let (mut core, tf) = tracking_core(config);
        let mut out = vec![core.handle_track_reply(located(1000, 0.1, 0.01))];
        for (stamp, x, variance) in [(2000, 0.2, 9.0), (3000, 0.7, 0.01), (4000, 0.8, 0.02)] {
            out.push(next_frame(&mut core, &tf, stamp, located(stamp, x, variance)));
        }
        out
    };
    let first = run();
    assert!(first.iter().all(|estimate| estimate.is_some()));
    assert_eq!(first, run());
}

#[test]
fn an_update_matches_the_formula_written_out() {
    let mut filter = level_filter();
    filter.x.velocity = vector(1.0, -2.0, 0.5);
    for _ in 0..3 {
        filter.propagate(&Floats, s(0.02), 0, &vector(0.1, 0.2, 0.3), &vector(0.5, 0.1, 9.8));
    }
    let rows = vec![
        Row {
            jacobian: JacobianRow { position: vector(1.0, 0.0, 0.0), ..blank_jacobian() },
            residual: s(0.05),
            variance: s(1e-3),
        },
        Row {
            jacobian: JacobianRow {
                velocity: vector(0.1, 0.9, 0.2),
                theta: vector(0.3, -0.2, 0.1),
                biases: vec![bias_entries(vector(0.0, -1.0, 0.0), vector(0.0, 0.0, 0.5))],
                ..blank_jacobian()
            },
            residual: s(-0.02),
            variance: s(2e-3),
        },
    ];
    let mut jacobian = nalgebra::DMatrix::<f64>::zeros(2, 15);
    jacobian[(0, 0)] = 1.0;
    for (col, value) in [(3, 0.1), (4, 0.9), (5, 0.2), (6, 0.3), (7, -0.2), (8, 0.1)] {
        jacobian[(1, col)] = value;
    }
    jacobian[(1, 10)] = -1.0;
    jacobian[(1, 14)] = 0.5;
    let residual = nalgebra::DVector::from_vec(vec![0.05, -0.02]);
    let noise = nalgebra::DMatrix::from_diagonal(&nalgebra::DVector::from_vec(vec![1e-3, 2e-3]));
    let before = (*filter.p_cov).clone();
    let innovation = &jacobian * &before * jacobian.transpose() + &noise;
    let inverse = innovation.try_inverse().expect("regular");
    let distance = (residual.transpose() * &inverse * &residual)[(0, 0)];
    let gain = &before * jacobian.transpose() * &inverse;
    let dx = &gain * &residual;
    let left = nalgebra::DMatrix::identity(15, 15) - &gain * &jacobian;
    let after = &left * &before * left.transpose() + &gain * noise * gain.transpose();
    let position = na_vector(&filter.x.position) + dx.fixed_rows::<3>(0);
    let velocity = na_vector(&filter.x.velocity) + dx.fixed_rows::<3>(3);
    let rotation = na_rotation(&filter.x.q)
        * nalgebra::UnitQuaternion::from_scaled_axis(dx.fixed_rows::<3>(6).into_owned());
    let gyro = na_vector(&filter.x.biases[0].gyro) + dx.fixed_rows::<3>(9);
    let accel = na_vector(&filter.x.biases[0].accel) + dx.fixed_rows::<3>(12);
    // Just within the threshold, and just beyond it.
    let gate = (distance / 2.0).sqrt();
    assert!(!filter.update(&Floats, &rows, s(gate * 0.999)));
    assert!(filter.update(&Floats, &rows, s(gate * 1.001)));
    assert!((&*filter.p_cov - after).norm() < 1e-15);
    assert!((na_vector(&filter.x.position) - position).norm() < 1e-15);
    assert!((na_vector(&filter.x.velocity) - velocity).norm() < 1e-15);
    assert!(na_rotation(&filter.x.q).angle_to(&rotation) < 1e-7);
    assert!((na_vector(&filter.x.biases[0].gyro) - gyro).norm() < 1e-15);
    assert!((na_vector(&filter.x.biases[0].accel) - accel).norm() < 1e-15);
}

/// A leveled core whose one source reports twist alone.
fn twist_core(constraint: [f64; 6]) -> FusionCore<Floats> {
    let mut config = base_config(true);
    config.mahalanobis_gate = s(0.0);
    config.sources.entries[0].1 =
        SourceConfig { pose_variances: six([0.0; 6]), twist_variances: six([1e-8; 6]) };
    config.constraint_twist_variances = six(constraint);
    let mut core = fusion_core(config);
    for sample in 0..5 {
        core.handle_imu(&imu_message(sample, 0.0, 0.0), &identity_mount());
    }
    core
}

fn twist_message(ts_ns: i64, linear: [f64; 3], angular: [f64; 3]) -> OdometryEstimate {
    let mut msg = source_message("odom", ts_ns, 0.0);
    msg.twist = Twist {
        linear: vector(linear[0], linear[1], linear[2]),
        angular: vector(angular[0], angular[1], angular[2]),
    };
    msg
}

#[test]
fn a_twist_pulls_the_velocity_and_finds_the_gyro_bias() {
    let mut core = twist_core([0.0; 6]);
    core.handle_source(&twist_message(NS_PER_SEC, [1.0, -0.5, 0.25], [0.0, 0.0, -0.02]));
    let out = core.maybe_publish().expect("a period has elapsed");
    let linear = na_vector(&out.twist.linear);
    assert!((linear - nalgebra::Vector3::new(1.0, -0.5, 0.25)).norm() < 1e-4);
    let angular = na_vector(&out.twist.angular);
    assert!((angular - nalgebra::Vector3::new(0.0, 0.0, -0.02)).norm() < 1e-4);
    let bias = na_vector(&core.live.filter.x.biases[0].gyro);
    assert!((bias.z - 0.02).abs() < 1e-4);
}

#[test]
fn the_virtual_zero_twist_pins_its_dimensions() {
    let mut core = twist_core([0.0, 1e-12, 0.0, 0.0, 0.0, 0.0]);
    core.handle_source(&twist_message(NS_PER_SEC, [1.0, -0.5, 0.25], [0.0, 0.0, 0.0]));
    let out = core.maybe_publish().expect("a period has elapsed");
    let linear = na_vector(&out.twist.linear);
    // Unpinned it would be -0.5; one linearised update brings it most of the way.
    assert!(linear.y.abs() < 0.15, "{linear:?}");
    assert!(linear.x > 0.9);
}

#[test]
fn a_stray_first_message_starts_nothing() {
    let mut core = fusion_core(base_config(false));
    core.handle_source(&source_message("stray", 5 * NS_PER_SEC, 99.0));
    assert!(!core.initialized);
    assert!(core.maybe_publish().is_none());
    // An older message of a source that is configured is not too late for a start that the stray
    // one never made.
    core.handle_source(&source_message("odom", 0, 0.0));
    core.handle_source(&source_message("odom", NS_PER_SEC / 10, 1.0));
    assert_eq!(core.report().too_late, 0);
    assert_eq!(core.report().measurements, 2);
    let out = core.maybe_publish().expect("a period has elapsed");
    assert_eq!(out.timestamp_ns, NS_PER_SEC / 10);
    assert!((f(out.pose.translation.x) - 1.0).abs() < 1e-12);
}

#[test]
fn a_late_arrival_within_the_reach_is_replayed() {
    let mut config = base_config(false);
    config.max_position_m = s(0.0);
    config.sources = OrderedMap::new();
    config.sources.insert(
        source_key("odom"),
        SourceConfig { pose_variances: six([1e-4; 6]), twist_variances: six([0.0; 6]) },
    );
    let mut core = fusion_core(config);
    core.handle_source(&source_message("odom", 0, 0.0));
    core.handle_source(&source_message("odom", 10 * NS_PER_SEC, 1.0));
    // A second late, with a buffer of two: nothing else stands within the reach before it.
    core.handle_source(&source_message("odom", 9 * NS_PER_SEC, 2.0));
    assert_eq!(core.report().replayed, 1);
    assert_eq!(core.report().too_late, 0);
    let out = core.maybe_publish().expect("a period has elapsed");
    assert_eq!(out.timestamp_ns, 10_000_000_000);
    assert!((f(out.pose.translation.x) - 2.0).abs() < 1e-12);
    // The horizon itself is within the reach, and what is older is not.
    core.handle_source(&source_message("odom", 8 * NS_PER_SEC, 2.0));
    assert_eq!(core.report().replayed, 2);
    core.handle_source(&source_message("odom", 8 * NS_PER_SEC - 1, 2.0));
    assert_eq!(core.report().too_late, 1);
}

#[test]
fn an_arrival_older_than_the_seed_is_too_late() {
    let mut core = fusion_core(base_config(false));
    core.handle_source(&source_message("odom", NS_PER_SEC, 0.0));
    core.handle_source(&source_message("odom", NS_PER_SEC + 1, 1.0));
    core.handle_source(&source_message("odom", NS_PER_SEC - 1, 5.0));
    assert_eq!(core.report().too_late, 1);
    assert_eq!(core.report().replayed, 0);
}

#[test]
fn any_order_of_arrival_leaves_the_same_estimate() {
    let samples = [
        imu_message(50_000_000, 0.3, 0.5),
        imu_message(60_000_000, -0.2, 0.1),
        imu_message(70_000_000, 0.1, -0.4),
        imu_message(80_000_000, 0.4, 0.2),
    ];
    let run = |order: [usize; 4]| {
        let mut core = fusion_core(base_config(true));
        for k in 0..5 {
            core.handle_imu(&imu_message(k * 10_000_000, 0.0, 0.0), &identity_mount());
        }
        core.handle_source(&source_message("odom", 45_000_000, 0.0));
        for index in order {
            core.handle_imu(&samples[index], &identity_mount());
        }
        assert_eq!(core.report().too_late, 0);
        (core.live.filter.x.position, core.live.filter.x.q, (*core.live.filter.p_cov).clone())
    };
    let in_time = run([0, 1, 2, 3]);
    assert_eq!(in_time, run([3, 2, 1, 0]));
    assert_eq!(in_time, run([1, 3, 0, 2]));
}

#[test]
fn depth_of_an_unlisted_frame_never_reaches_the_tracker() {
    let mut tf = mono_mounts();
    tf.0.push(("cam".to_string(), "other".to_string(), Pose::identity()));
    let mut core = visual_core(with_entries(vec![("depth", 1000.0)])).ok().expect("usable");
    core.handle_camera_info(camera_model("cam", 4, 2), &tf);
    core.handle_depth_camera_info(camera_model("other", 4, 2));
    let _ = core.handle_image(gray_image("cam", 1000), &tf);
    // In the rig camera's own frame.
    let (cloud, step) = core.handle_depth_image(depth_image("cam", 1000, 4, 2, 1500), &tf);
    assert!(cloud.is_none());
    expect_build(step);
    assert!(matches!(core.handle_tracker_built(&tf), Step::Idle));
    assert!(matches!(core.handle_image(gray_image("cam", 2000), &tf), Step::Idle));
    // In another frame that is placed against it.
    let (cloud, step) = core.handle_depth_image(depth_image("other", 2000, 4, 2, 1500), &tf);
    assert!(cloud.is_none());
    assert!(matches!(step, Step::Idle));
    assert!(core.camera_from_depth.is_none());
    assert_eq!(core.report().depth_reprojected, 0);
}

#[test]
fn a_rig_image_that_cannot_be_made_is_not_aligned() {
    let mut tf = mono_mounts();
    tf.0.push(("cam".to_string(), "depth".to_string(), Pose::identity()));
    let mut core = visual_core(with_entries(vec![("depth", 1000.0)])).ok().expect("usable");
    core.handle_camera_info(camera_model("cam", i32::MAX, i32::MAX), &tf);
    core.handle_depth_camera_info(camera_model("depth", 4, 2));
    let _ = core.handle_image(gray_image("cam", 1000), &tf);
    let (cloud, step) = core.handle_depth_image(depth_image("depth", 1000, 4, 2, 1500), &tf);
    assert_eq!(cloud.expect("the depth camera is known").points.len(), 8);
    expect_build(step);
    assert!(matches!(core.handle_tracker_built(&tf), Step::Idle));
    assert_eq!(core.report().depth_reprojected, 0);
}

#[test]
fn stamps_a_millisecond_apart_are_one_frame_set() {
    let tf = mounts(vec![
        ("base_link", "left", pose_at(0.0, 0.0, 0.0)),
        ("base_link", "right", pose_at(0.12, 0.0, 0.0)),
        ("base_link", "base_link", pose_at(0.0, 0.0, 0.0)),
    ]);
    let mut core = visual_core(CuvslamOdometryConfig::default()).ok().expect("usable");
    core.handle_camera_info(camera_model("left", 4, 2), &tf);
    core.handle_camera_info(camera_model("right", 4, 2), &tf);
    let _ = core.handle_image(gray_image("left", 5_000_000), &tf);
    expect_build(core.handle_image(gray_image("right", 6_000_000), &tf));
    let request = expect_track(core.handle_tracker_built(&tf));
    assert_eq!(request.images[0].timestamp_ns, 6_000_000);
    let _ = core.handle_track_reply(TrackReply::Failed);
    // Kept until a fresher image closes the gap.
    let _ = core.handle_image(gray_image("left", 7_000_000), &tf);
    assert!(matches!(core.handle_image(gray_image("right", 9_000_000), &tf), Step::Idle));
    assert_eq!(core.report().skew_rejects, 1);
    assert_eq!(core.cameras[1].image.as_ref().expect("kept").timestamp_ns, 9_000_000);
    let request = expect_track(core.handle_image(gray_image("left", 8_500_000), &tf));
    assert_eq!(request.images[0].timestamp_ns, 9_000_000);
}

#[test]
fn a_run_of_held_frames_keeps_the_pose() {
    let config = CuvslamOdometryConfig {
        covariance_gate_translation_std: s(0.5),
        ..mono_config()
    };
    let (mut core, tf) = tracking_core(config);
    let _ = core.handle_track_reply(located(1000, 1.0, 0.01));
    for (stamp, x) in [(2000, 9.0), (3000, -4.0), (4000, 30.0)] {
        let held = next_frame(&mut core, &tf, stamp, located(stamp, x, 4.0)).expect("a pose");
        assert!((f(held.pose.translation.x) - 1.0).abs() < 1e-6);
    }
    assert_eq!(core.report().covariance_gated, 3);
    let after = next_frame(&mut core, &tf, 5000, located(5000, 30.25, 0.01)).expect("a pose");
    assert!((f(after.pose.translation.x) - 1.25).abs() < 1e-6);
}

#[test]
fn no_tracker_is_asked_for_after_both_backends_failed() {
    let tf = mono_mounts();
    let mut core = visual_core(with_entries(vec![("cam", 1000.0)])).ok().expect("usable");
    core.handle_camera_info(camera_model("cam", 4, 2), &tf);
    let _ = core.handle_image(gray_image("cam", 1000), &tf);
    let (_, step) = core.handle_depth_image(depth_image("cam", 1000, 4, 2, 1500), &tf);
    let plan = expect_build(step);
    let retry = expect_build(core.handle_build_failure(plan));
    assert!(matches!(core.handle_build_failure(retry), Step::Idle));
    core.handle_camera_info(camera_model("cam", 8, 4), &tf);
    core.handle_imu_info(ImuNoiseModel::default(), &tf);
    assert!(matches!(core.handle_image(gray_image("cam", 2000), &tf), Step::Idle));
    let (_, step) = core.handle_depth_image(depth_image("cam", 2000, 4, 2, 1500), &tf);
    assert!(matches!(step, Step::Idle));
    assert_eq!(core.tracker, TrackerState::Unbuildable);
}

#[test]
fn the_same_images_give_the_same_clouds_and_requests() {
    let run = || {
        let mut tf = mono_mounts();
        tf.0.push(("cam".to_string(), "depth".to_string(), pose_at(0.01, 0.0, 0.0)));
        let config = CuvslamOdometryConfig {
            depth_cloud_decimation: 2,
            ..with_entries(vec![("depth", 1000.0)])
        };
        let mut core = visual_core(config).ok().expect("usable");
        core.handle_camera_info(camera_model("cam", 8, 6), &tf);
        core.handle_depth_camera_info(camera_model("depth", 8, 6));
        let _ = core.handle_image(gray_image("cam", 1000), &tf);
        let mut depth = depth_image("depth", 1000, 8, 6, 1500);
        set_pixel(&mut depth, 3, 2, 700);
        let (cloud, step) = core.handle_depth_image(depth, &tf);
        expect_build(step);
        let request = expect_track(core.handle_tracker_built(&tf));
        (cloud.expect("a cloud").points, request.depths[0].frame.data.clone())
    };
    let (points, depth) = run();
    assert_eq!(points.len(), 12);
    assert_eq!((points, depth), run());
}

#[test]
fn a_row_may_read_the_biases_of_several_imus() {
    let mut filter = Filter::new(&Floats);
    filter.noise = vec![some_noise(), some_noise()];
    filter.init(
        &Floats,
        Quaternion::identity(),
        vec![no_bias(), no_bias()],
        stds(0.1, 0.1, 0.05, 0.01),
    );
    filter.propagate(&Floats, s(0.02), 0, &vector(0.1, 0.2, 0.3), &vector(0.5, 0.1, 9.8));
    filter.propagate(&Floats, s(0.02), 1, &vector(0.2, 0.1, 0.3), &vector(0.4, 0.2, 9.7));
    // The difference between the two gyros, and a little of the second accelerometer.
    let rows = vec![Row {
        jacobian: JacobianRow {
            biases: vec![
                bias_entries(vector(1.0, 0.0, 0.0), Vector3::zeros()),
                bias_entries(vector(-1.0, 0.0, 0.0), vector(0.0, 0.0, 0.25)),
            ],
            ..blank_jacobian()
        },
        residual: s(0.03),
        variance: s(1e-4),
    }];
    let mut jacobian = nalgebra::DMatrix::<f64>::zeros(1, 21);
    jacobian[(0, gyro_bias_col(0))] = 1.0;
    jacobian[(0, gyro_bias_col(1))] = -1.0;
    jacobian[(0, accel_bias_col(1) + 2)] = 0.25;
    let before = (*filter.p_cov).clone();
    let innovation = (&jacobian * &before * jacobian.transpose())[(0, 0)] + 1e-4;
    let gain = &before * jacobian.transpose() / innovation;
    let dx = &gain * 0.03;
    let left = nalgebra::DMatrix::identity(21, 21) - &gain * &jacobian;
    let after = &left * &before * left.transpose() + &gain * 1e-4 * gain.transpose();
    assert!(filter.update(&Floats, &rows, s(0.0)));
    assert!((&*filter.p_cov - after).norm() < 1e-15);
    assert!((f(filter.x.biases[0].gyro.x) - dx[(9, 0)]).abs() < 1e-15);
    assert!((f(filter.x.biases[1].gyro.x) - dx[(15, 0)]).abs() < 1e-15);
    assert!((f(filter.x.biases[1].accel.z) - dx[(20, 0)]).abs() < 1e-15);
    assert!(f(filter.x.biases[0].gyro.x) > 0.0 && f(filter.x.biases[1].gyro.x) < 0.0);
}

#[test]
fn the_spread_of_a_frame_set_can_be_configured() {
    let tf = mounts(vec![
        ("base_link", "left", pose_at(0.0, 0.0, 0.0)),
        ("base_link", "right", pose_at(0.12, 0.0, 0.0)),
        ("base_link", "base_link", pose_at(0.0, 0.0, 0.0)),
    ]);
    let config = DimSlamCoreConfig { max_skew_ms: s(2.5), ..Default::default() };
    let mut slam = DimSlamCore::new(config, Floats, Floats).ok().expect("usable");
    assert_eq!(slam.visual_odometry.max_skew_ns, 2_500_000);
    slam.handle_camera_info(camera_model("left", 4, 2), &tf);
    slam.handle_camera_info(camera_model("right", 4, 2), &tf);
    let _ = slam.handle_image(gray_image("left", 5_000_000), &tf);
    expect_build(slam.handle_image(gray_image("right", 7_500_000), &tf));
    expect_track(slam.handle_tracker_built(&tf));
    slam.handle_track_reply(TrackReply::Failed);
    let _ = slam.handle_image(gray_image("left", 10_000_000), &tf);
    assert!(matches!(slam.handle_image(gray_image("right", 12_500_001), &tf), Step::Idle));
    assert_eq!(slam.report().0.skew_rejects, 1);
    // What is not above zero keeps a millisecond.
    for max_skew_ms in [0.0, -3.0, f64::NAN] {
        let config = CuvslamOdometryConfig { max_skew_ms: s(max_skew_ms), ..Default::default() };
        assert_eq!(visual_core(config).ok().expect("usable").max_skew_ns, 1_000_000);
    }
}

#[test]
fn a_tracker_can_be_asked_for_before_a_frame_set_is_there() {
    let tf = mono_mounts();
    let mut core = visual_core(mono_config()).ok().expect("usable");
    core.handle_camera_info(camera_model("cam", 4, 2), &tf);
    assert!(matches!(core.ensure_tracker(&mounts(Vec::new())), Step::Idle));
    let plan = expect_build(core.ensure_tracker(&tf));
    assert!(plan.config.use_gpu);
    assert!(matches!(core.handle_tracker_built(&tf), Step::Idle));
    assert_eq!(core.tracker, TrackerState::Ready);
    assert!(matches!(core.ensure_tracker(&tf), Step::Idle));
    expect_track(core.handle_image(gray_image("cam", 1000), &tf));
}

#[test]
fn an_unplaced_sample_is_dropped_whatever_the_configuration() {
    let mut imus = OrderedMap::new();
    imus.insert("imu".to_string(), ImuConfig::default());
    let config = DimSlamCoreConfig { imus, ..Default::default() };
    let mut slam = DimSlamCore::new(config, Floats, Floats).ok().expect("usable");
    assert!(slam.fusion.config.check_config().is_err());
    slam.handle_imu(&imu_message(0, 0.0, 0.0), &mounts(Vec::new()));
    assert_eq!(slam.report().1.imu_samples, 0);
    let mut imus = OrderedMap::new();
    imus.insert("imu".to_string(), ImuConfig::default());
    let config = DimSlamConfig { use_imu: true, imus, ..node_config() };
    let mut node = DimSlam::init(config, Floats, Floats).ok().expect("usable");
    assert!(node.handle_imu(&imu_message(0, 0.0, 0.0), &mounts(Vec::new())).is_none());
    assert_eq!(node.report().1.imu_samples, 0);
}

#[test]
fn nothing_comes_of_anything_after_both_backends_failed() {
    let tf = mono_mounts();
    let mut core = visual_core(mono_config()).ok().expect("usable");
    core.handle_camera_info(camera_model("cam", 4, 2), &tf);
    let plan = expect_build(core.ensure_tracker(&tf));
    let (mode, cameras) = (plan.config.odometry_mode, plan.cameras.len());
    let retry = expect_build(core.handle_build_failure(plan));
    assert!(!retry.config.use_gpu);
    assert_eq!((retry.config.odometry_mode, retry.cameras.len()), (mode, cameras));
    assert!(matches!(core.handle_build_failure(retry), Step::Idle));
    for stamp in [1000, 2000, 3000] {
        core.handle_imu(&imu_message(stamp, 0.0, 0.0));
        assert!(matches!(core.handle_image(gray_image("cam", stamp), &tf), Step::Idle));
        assert!(matches!(core.ensure_tracker(&tf), Step::Idle));
    }
    assert_eq!(core.tracker, TrackerState::Unbuildable);
    assert_eq!(core.report().imu_dropped, 3);
}
