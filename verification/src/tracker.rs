//! What the visual tracker is given: its camera modes, image encodings, poses and distortion.

use cu_vslam_rs::ffi;
use vstd::prelude::*;
use vstd::string::*;

use crate::numerics::Numerics;
use crate::scalar::{Scalar, Single};
use crate::text::same;
use crate::types::{skew, spec_skew, CameraModel, Matrix3, Matrix6, Pose, Quaternion};
use crate::types::{SingleVector, Vector3};

verus! {

pub const DISTORTION_PINHOLE: u8 = 0;

pub const DISTORTION_BROWN: u8 = 2;

pub const ODOMETRY_MULTICAMERA: u8 = 0;

pub const ODOMETRY_INERTIAL: u8 = 1;

pub const ODOMETRY_RGBD: u8 = 2;

pub const ODOMETRY_MONO: u8 = 3;

pub const ENCODING_MONO: u8 = 0;

pub const ENCODING_RGB: u8 = 1;

pub const DATA_UINT8: u8 = 0;

pub const DATA_UINT16: u8 = 1;

/// The value of `cu_vslam_rs::ffi::CUV_DISTORTION_PINHOLE`.
#[verifier::external_body]
fn distortion_pinhole() -> (code: u8)
    ensures
        code == DISTORTION_PINHOLE,
{
    ffi::CUV_DISTORTION_PINHOLE
}

/// The value of `cu_vslam_rs::ffi::CUV_DISTORTION_BROWN`.
#[verifier::external_body]
fn distortion_brown() -> (code: u8)
    ensures
        code == DISTORTION_BROWN,
{
    ffi::CUV_DISTORTION_BROWN
}

/// The value of `cu_vslam_rs::ffi::CUV_ODOMETRY_MULTICAMERA`.
#[verifier::external_body]
fn odometry_multicamera() -> (code: u8)
    ensures
        code == ODOMETRY_MULTICAMERA,
{
    ffi::CUV_ODOMETRY_MULTICAMERA
}

/// The value of `cu_vslam_rs::ffi::CUV_ODOMETRY_INERTIAL`.
#[verifier::external_body]
fn odometry_inertial() -> (code: u8)
    ensures
        code == ODOMETRY_INERTIAL,
{
    ffi::CUV_ODOMETRY_INERTIAL
}

/// The value of `cu_vslam_rs::ffi::CUV_ODOMETRY_RGBD`.
#[verifier::external_body]
fn odometry_rgbd() -> (code: u8)
    ensures
        code == ODOMETRY_RGBD,
{
    ffi::CUV_ODOMETRY_RGBD
}

/// The value of `cu_vslam_rs::ffi::CUV_ODOMETRY_MONO`.
#[verifier::external_body]
fn odometry_mono() -> (code: u8)
    ensures
        code == ODOMETRY_MONO,
{
    ffi::CUV_ODOMETRY_MONO
}

/// The value of `cu_vslam_rs::ffi::CUV_ENCODING_MONO`.
#[verifier::external_body]
pub(crate) fn encoding_mono() -> (code: u8)
    ensures
        code == ENCODING_MONO,
{
    ffi::CUV_ENCODING_MONO
}

/// The value of `cu_vslam_rs::ffi::CUV_ENCODING_RGB`.
#[verifier::external_body]
fn encoding_rgb() -> (code: u8)
    ensures
        code == ENCODING_RGB,
{
    ffi::CUV_ENCODING_RGB
}

/// The value of `cu_vslam_rs::ffi::CUV_DATA_UINT8`.
#[verifier::external_body]
pub(crate) fn data_uint8() -> (code: u8)
    ensures
        code == DATA_UINT8,
{
    ffi::CUV_DATA_UINT8
}

/// The value of `cu_vslam_rs::ffi::CUV_DATA_UINT16`.
#[verifier::external_body]
pub(crate) fn data_uint16() -> (code: u8)
    ensures
        code == DATA_UINT16,
{
    ffi::CUV_DATA_UINT16
}

#[derive(Clone, Copy, Debug, PartialEq, Eq, Structural)]
pub enum Mode {
    Stereo,
    Mono,
    Rgbd,
}

impl Mode {
    /// The mode's name.
    pub open spec fn name(self) -> Seq<char> {
        match self {
            Mode::Stereo => "stereo"@,
            Mode::Mono => "mono"@,
            Mode::Rgbd => "rgbd"@,
        }
    }

    /// The message for a name that is no mode's.
    pub open spec fn unknown(name: Seq<char>) -> Seq<char> {
        "config: camera_mode must be 'stereo', 'mono' or 'rgbd', got '"@ + name + "'"@
    }

    /// The mode of this name.
    pub fn from_str(name: &str) -> (r: Result<Mode, String>)
        ensures
            match r {
                Ok(mode) => name@ == mode.name(),
                Err(message) => (forall|mode: Mode| name@ != #[trigger] mode.name()) && message@
                    == Mode::unknown(name@),
            },
    {
        if same(name, "stereo") {
            return Ok(Mode::Stereo);
        }
        if same(name, "mono") {
            return Ok(Mode::Mono);
        }
        if same(name, "rgbd") {
            return Ok(Mode::Rgbd);
        }
        let mut message: String =
            "config: camera_mode must be 'stereo', 'mono' or 'rgbd', got '".to_owned();
        message.append(name);
        message.append("'");
        Err(message)
    }
}

/// The tracker's code for a camera mode. There is no inertial mono or rgbd.
pub open spec fn spec_odometry_mode(mode: Mode, enable_imu: bool) -> u8 {
    match mode {
        Mode::Rgbd => ODOMETRY_RGBD,
        Mode::Mono => ODOMETRY_MONO,
        Mode::Stereo => if enable_imu {
            ODOMETRY_INERTIAL
        } else {
            ODOMETRY_MULTICAMERA
        },
    }
}

/// The tracker's code for a camera mode.
pub fn odometry_mode(mode: Mode, enable_imu: bool) -> (code: u8)
    ensures
        code == spec_odometry_mode(mode, enable_imu),
{
    match mode {
        Mode::Rgbd => odometry_rgbd(),
        Mode::Mono => odometry_mono(),
        // There is no inertial mono or rgbd.
        Mode::Stereo => {
            if enable_imu {
                odometry_inertial()
            } else {
                odometry_multicamera()
            }
        },
    }
}

/// The tracker's code for an image encoding: anything but `mono8` is colour.
pub open spec fn spec_image_encoding(encoding: Seq<char>) -> u8 {
    if encoding == "mono8"@ {
        ENCODING_MONO
    } else {
        ENCODING_RGB
    }
}

/// The tracker's code for an image encoding. Fed as MONO, a three-channel image makes the tracker
/// read a third of each row and track nothing.
pub fn image_encoding(encoding: &str) -> (code: u8)
    ensures
        code == spec_image_encoding(encoding@),
{
    if same(encoding, "mono8") {
        encoding_mono()
    } else {
        encoding_rgb()
    }
}

/// `s` is `v` in single precision.
pub open spec fn narrowed<N: Numerics>(n: &N, v: Vector3, s: SingleVector) -> bool {
    &&& call_ensures(N::narrow, (n, v.x), s.x)
    &&& call_ensures(N::narrow, (n, v.y), s.y)
    &&& call_ensures(N::narrow, (n, v.z), s.z)
}

pub fn narrow_vector<N: Numerics>(n: &N, v: &Vector3) -> (s: SingleVector)
    ensures
        narrowed(n, *v, s),
{
    SingleVector { x: n.narrow(v.x), y: n.narrow(v.y), z: n.narrow(v.z) }
}

/// A pose as the tracker has it, in single precision.
#[derive(Clone, Copy, Debug, PartialEq, Eq, Structural)]
pub struct CuvPose {
    pub rotation_x: Single,
    pub rotation_y: Single,
    pub rotation_z: Single,
    pub rotation_w: Single,
    pub translation: SingleVector,
}

/// `cuv` is `pose` as the tracker has it.
pub open spec fn cuv_pose_of<N: Numerics>(n: &N, pose: Pose, cuv: CuvPose) -> bool {
    &&& call_ensures(N::narrow, (n, pose.rotation.x), cuv.rotation_x)
    &&& call_ensures(N::narrow, (n, pose.rotation.y), cuv.rotation_y)
    &&& call_ensures(N::narrow, (n, pose.rotation.z), cuv.rotation_z)
    &&& call_ensures(N::narrow, (n, pose.rotation.w), cuv.rotation_w)
    &&& narrowed(n, pose.translation, cuv.translation)
}

/// A pose as the tracker has it.
pub fn to_cuv_pose<N: Numerics>(n: &N, pose: &Pose) -> (cuv: CuvPose)
    ensures
        cuv_pose_of(n, *pose, cuv),
{
    CuvPose {
        rotation_x: n.narrow(pose.rotation.x),
        rotation_y: n.narrow(pose.rotation.y),
        rotation_z: n.narrow(pose.rotation.z),
        rotation_w: n.narrow(pose.rotation.w),
        translation: narrow_vector(n, &pose.translation),
    }
}

/// `wide` is the rotation of `cuv` in double precision.
pub open spec fn rotation_widened<N: Numerics>(n: &N, cuv: CuvPose, wide: Quaternion) -> bool {
    &&& call_ensures(N::widen, (n, cuv.rotation_x), wide.x)
    &&& call_ensures(N::widen, (n, cuv.rotation_y), wide.y)
    &&& call_ensures(N::widen, (n, cuv.rotation_z), wide.z)
    &&& call_ensures(N::widen, (n, cuv.rotation_w), wide.w)
}

/// `rotation` is the rotation of `cuv` in double precision, made a unit again.
pub open spec fn rotation_of_cuv<N: Numerics>(n: &N, cuv: CuvPose, rotation: Quaternion) -> bool {
    exists|wide: Quaternion|
        {
            &&& rotation_widened(n, cuv, wide)
            &&& #[trigger] call_ensures(N::normalized, (n, &wide), rotation)
        }
}

/// `pose` is the tracker's pose in double precision, its rotation made a unit again.
pub open spec fn pose_of_cuv<N: Numerics>(n: &N, cuv: CuvPose, pose: Pose) -> bool {
    &&& call_ensures(N::widen, (n, cuv.translation.x), pose.translation.x)
    &&& call_ensures(N::widen, (n, cuv.translation.y), pose.translation.y)
    &&& call_ensures(N::widen, (n, cuv.translation.z), pose.translation.z)
    &&& rotation_of_cuv(n, cuv, pose.rotation)
}

/// The tracker's pose in double precision.
pub fn cuv_pose_to_isometry<N: Numerics>(n: &N, cuv: &CuvPose) -> (pose: Pose)
    ensures
        pose_of_cuv(n, *cuv, pose),
{
    let wide = Quaternion {
        x: n.widen(cuv.rotation_x),
        y: n.widen(cuv.rotation_y),
        z: n.widen(cuv.rotation_z),
        w: n.widen(cuv.rotation_w),
    };
    let rotation = n.normalized(&wide);
    assert(rotation_widened(n, *cuv, wide));
    assert(rotation_of_cuv(n, *cuv, rotation));
    Pose {
        translation: Vector3 {
            x: n.widen(cuv.translation.x),
            y: n.widen(cuv.translation.y),
            z: n.widen(cuv.translation.z),
        },
        rotation,
    }
}

/// The coefficients are five or more, and one of the whole list is not zero.
pub open spec fn distorted(d: Seq<Scalar>) -> bool {
    d.len() >= 5 && exists|i: int| 0 <= i < d.len() && (#[trigger] d[i]).magnitude() != 0
}

/// The place among plumb_bob's coefficients (k1, k2, p1, p2, k3) of each of Brown's
/// (k1, k2, k3, p1, p2).
pub open spec fn brown_source(i: int) -> int {
    if i < 2 {
        i
    } else if i == 2 {
        4
    } else {
        i - 1
    }
}

/// A rectified camera is a pinhole, and one with real coefficients Brown.
pub open spec fn distortion_of<N: Numerics>(
    n: &N,
    d: Seq<Scalar>,
    model: u8,
    parameters: Seq<Single>,
) -> bool {
    if distorted(d) {
        &&& model == DISTORTION_BROWN
        &&& parameters.len() == 5
        &&& forall|i: int|
            0 <= i < 5 ==> call_ensures(
                N::narrow,
                (n, d[brown_source(i)]),
                #[trigger] parameters[i],
            )
    } else {
        model == DISTORTION_PINHOLE && parameters.len() == 0
    }
}

/// Pinhole for a rectified camera, Brown for one whose camera model carries real plumb_bob
/// coefficients.
pub fn to_distortion<N: Numerics>(n: &N, info: &CameraModel) -> (r: (u8, Vec<Single>))
    ensures
        distortion_of(n, info.distortion@, r.0, r.1@),
{
    let d = &info.distortion;
    let mut nonzero: bool = false;
    let mut i: usize = 0;
    while i < d.len()
        invariant
            i <= d@.len(),
            nonzero == exists|k: int| 0 <= k < i && (#[trigger] d@[k]).magnitude() != 0,
        decreases d@.len() - i,
    {
        let zero: bool = d[i].is_zero();
        if !zero {
            assert(d@[i as int].magnitude() != 0);
            nonzero = true;
        }
        i += 1;
    }
    let mut parameters: Vec<Single> = Vec::new();
    if d.len() < 5 || !nonzero {
        return (distortion_pinhole(), parameters);
    }
    parameters.push(n.narrow(d[0]));
    parameters.push(n.narrow(d[1]));
    parameters.push(n.narrow(d[4]));
    parameters.push(n.narrow(d[2]));
    parameters.push(n.narrow(d[3]));
    (distortion_brown(), parameters)
}

/// The entries of an adjoint: the rotation twice on the diagonal, what the translation couples in
/// above, and nothing below.
pub open spec fn adjoint_entries(rotation: Matrix3, coupling: Matrix3, adjoint: Matrix6) -> bool {
    forall|row: int, col: int|
        0 <= row < 6 && 0 <= col < 6 ==> #[trigger] adjoint.at(row, col) == if row < 3 && col < 3 {
            rotation.row(row).axis(col)
        } else if row < 3 {
            coupling.row(row).axis(col - 3)
        } else if col < 3 {
            Scalar::zero()
        } else {
            rotation.row(row - 3).axis(col - 3)
        }
}

/// `adjoint` moves a covariance from child to parent.
pub open spec fn adjoint_of<N: Numerics>(n: &N, parent_from_child: Pose, adjoint: Matrix6) -> bool {
    exists|rotation: Matrix3, coupling: Matrix3|
        {
            &&& call_ensures(N::rotation_matrix, (n, &parent_from_child.rotation), rotation)
            &&& call_ensures(
                N::matrix3_times,
                (n, &spec_skew(parent_from_child.translation), &rotation),
                coupling,
            )
            &&& #[trigger] adjoint_entries(rotation, coupling, adjoint)
        }
}

/// The adjoint of a transform. Exact for rotation vectors; a fixed-axis rpy block matches only to
/// first order.
pub fn se3_adjoint<N: Numerics>(n: &N, parent_from_child: &Pose) -> (adjoint: Matrix6)
    ensures
        adjoint_of(n, *parent_from_child, adjoint),
{
    let rotation = n.rotation_matrix(&parent_from_child.rotation);
    let translation_skew = skew(&parent_from_child.translation);
    let coupling = n.matrix3_times(&translation_skew, &rotation);
    let mut adjoint = Matrix6::zeros();
    let mut k: usize = 0;
    while k < 36
        invariant
            k <= 36,
            forall|i: int|
                0 <= i < k ==> #[trigger] adjoint.entries[i] == if i / 6 < 3 && i % 6 < 3 {
                    rotation.row(i / 6).axis(i % 6)
                } else if i / 6 < 3 {
                    coupling.row(i / 6).axis(i % 6 - 3)
                } else if i % 6 < 3 {
                    Scalar::zero()
                } else {
                    rotation.row(i / 6 - 3).axis(i % 6 - 3)
                },
        decreases 36 - k,
    {
        let row: usize = k / 6;
        let col: usize = k % 6;
        let value: Scalar = if row < 3 && col < 3 {
            rotation.row_at(row).component(col)
        } else if row < 3 {
            coupling.row_at(row).component(col - 3)
        } else if col < 3 {
            Scalar::zero()
        } else {
            rotation.row_at(row - 3).component(col - 3)
        };
        adjoint.entries[k] = value;
        k += 1;
    }
    assert(adjoint_entries(rotation, coupling, adjoint)) by {
        assert forall|row: int, col: int| 0 <= row < 6 && 0 <= col < 6 implies #[trigger] adjoint.at(
            row,
            col,
        ) == if row < 3 && col < 3 {
            rotation.row(row).axis(col)
        } else if row < 3 {
            coupling.row(row).axis(col - 3)
        } else if col < 3 {
            Scalar::zero()
        } else {
            rotation.row(row - 3).axis(col - 3)
        } by {
            let i = row * 6 + col;
            assert(i / 6 == row && i % 6 == col);
            assert(adjoint.entries[i] == adjoint.at(row, col));
        }
    }
    adjoint
}

/// `between` is the second camera's pose in the first one's axes.
pub open spec fn pose_between<N: Numerics>(
    n: &N,
    first: Pose,
    second: Pose,
    between: Pose,
) -> bool {
    exists|undone: Pose|
        {
            &&& call_ensures(N::inverse, (n, &first), undone)
            &&& #[trigger] call_ensures(N::compose, (n, &undone, &second), between)
        }
}

/// The second camera sits at the first one's left.
pub open spec fn swap_wanted<N: Numerics>(n: &N, first: Pose, second: Pose, swap: bool) -> bool {
    exists|between: Pose| #[trigger]
        pose_between(n, first, second, between) && swap == between.translation.x.negative()
}

/// The tracker wants camera 0 to be the left one: its partner sits at +x (optical x is right).
pub fn needs_left_swap<N: Numerics>(
    n: &N,
    first_rig_from_camera: &Pose,
    second_rig_from_camera: &Pose,
) -> (swap: bool)
    ensures
        swap_wanted(n, *first_rig_from_camera, *second_rig_from_camera, swap),
{
    let undone = n.inverse(first_rig_from_camera);
    let between = n.compose(&undone, second_rig_from_camera);
    assert(pose_between(n, *first_rig_from_camera, *second_rig_from_camera, between));
    between.translation.x.is_negative()
}

} // verus!
