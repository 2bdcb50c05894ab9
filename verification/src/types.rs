//! The data the odometry takes in and gives back.

use vstd::prelude::*;

use crate::scalar::{Scalar, Single};

verus! {

#[derive(Clone, Copy, Debug, PartialEq, Eq, Structural)]
pub struct Vector3 {
    pub x: Scalar,
    pub y: Scalar,
    pub z: Scalar,
}

impl Vector3 {
    pub open spec fn spec_zeros() -> Vector3 {
        Vector3 { x: Scalar::zero(), y: Scalar::zero(), z: Scalar::zero() }
    }

    #[verifier::when_used_as_spec(spec_zeros)]
    pub fn zeros() -> (v: Vector3)
        ensures
            v == Vector3::spec_zeros(),
    {
        Vector3 { x: Scalar::zero(), y: Scalar::zero(), z: Scalar::zero() }
    }

    /// `value` along axis 0, 1 or 2, and zero along the others.
    pub open spec fn spec_along(dim: int, value: Scalar) -> Vector3 {
        Vector3 {
            x: if dim == 0 { value } else { Scalar::zero() },
            y: if dim == 1 { value } else { Scalar::zero() },
            z: if dim == 2 { value } else { Scalar::zero() },
        }
    }

    /// `value` along axis 0, 1 or 2, and zero along the others.
    pub fn along(dim: usize, value: Scalar) -> (v: Vector3)
        requires
            dim < 3,
        ensures
            v == Vector3::spec_along(dim as int, value),
    {
        Vector3 {
            x: if dim == 0 { value } else { Scalar::zero() },
            y: if dim == 1 { value } else { Scalar::zero() },
            z: if dim == 2 { value } else { Scalar::zero() },
        }
    }

    /// The component along axis 0, 1 or 2.
    pub open spec fn axis(self, dim: int) -> Scalar {
        if dim == 0 {
            self.x
        } else if dim == 1 {
            self.y
        } else {
            self.z
        }
    }

    /// The component along axis 0, 1 or 2.
    pub fn component(self, dim: usize) -> (s: Scalar)
        requires
            dim < 3,
        ensures
            s == self.axis(dim as int),
    {
        if dim == 0 {
            self.x
        } else if dim == 1 {
            self.y
        } else {
            self.z
        }
    }

    /// Every component with the other sign.
    pub open spec fn opposite(self) -> Vector3 {
        Vector3 { x: self.x.opposite(), y: self.y.opposite(), z: self.z.opposite() }
    }

    /// Every component with the other sign.
    pub fn negated(self) -> (v: Vector3)
        ensures
            v == self.opposite(),
    {
        Vector3 { x: self.x.negated(), y: self.y.negated(), z: self.z.negated() }
    }

    /// Every component is a finite number.
    pub open spec fn finite(self) -> bool {
        self.x.finite() && self.y.finite() && self.z.finite()
    }

    /// Whether every component is a finite number.
    pub fn is_finite(self) -> (r: bool)
        ensures
            r == self.finite(),
    {
        self.x.is_finite() && self.y.is_finite() && self.z.is_finite()
    }
}

/// Six numbers: xyz, then the three rotations about them.
#[derive(Clone, Copy, Debug, PartialEq, Eq, Structural)]
pub struct Six {
    pub linear: Vector3,
    pub angular: Vector3,
}

impl Six {
    pub open spec fn spec_zeros() -> Six {
        Six { linear: Vector3::zeros(), angular: Vector3::zeros() }
    }

    #[verifier::when_used_as_spec(spec_zeros)]
    pub fn zeros() -> (v: Six)
        ensures
            v == Six::spec_zeros(),
    {
        Six { linear: Vector3::zeros(), angular: Vector3::zeros() }
    }

    /// Dimension 0 to 5.
    pub open spec fn at(self, dim: int) -> Scalar {
        if dim < 3 {
            self.linear.axis(dim)
        } else {
            self.angular.axis(dim - 3)
        }
    }

    /// Dimension 0 to 5.
    pub fn get(self, dim: usize) -> (s: Scalar)
        requires
            dim < 6,
        ensures
            s == self.at(dim as int),
    {
        if dim < 3 {
            self.linear.component(dim)
        } else {
            self.angular.component(dim - 3)
        }
    }
}

/// Three single-precision numbers.
#[derive(Clone, Copy, Debug, PartialEq, Eq, Structural)]
pub struct SingleVector {
    pub x: Single,
    pub y: Single,
    pub z: Single,
}

/// A rotation, as a unit quaternion.
#[derive(Clone, Copy, Debug, PartialEq, Eq, Structural)]
pub struct Quaternion {
    pub x: Scalar,
    pub y: Scalar,
    pub z: Scalar,
    pub w: Scalar,
}

impl Quaternion {
    pub open spec fn spec_identity() -> Quaternion {
        Quaternion { x: Scalar::zero(), y: Scalar::zero(), z: Scalar::zero(), w: Scalar::one() }
    }

    #[verifier::when_used_as_spec(spec_identity)]
    pub fn identity() -> (q: Quaternion)
        ensures
            q == Quaternion::spec_identity(),
    {
        Quaternion { x: Scalar::zero(), y: Scalar::zero(), z: Scalar::zero(), w: Scalar::one() }
    }

    /// The rotation back.
    pub open spec fn back(self) -> Quaternion {
        Quaternion {
            x: self.x.opposite(),
            y: self.y.opposite(),
            z: self.z.opposite(),
            w: self.w,
        }
    }

    /// The rotation back.
    pub fn conjugate(self) -> (q: Quaternion)
        ensures
            q == self.back(),
    {
        Quaternion {
            x: self.x.negated(),
            y: self.y.negated(),
            z: self.z.negated(),
            w: self.w,
        }
    }

    /// Every coordinate is a finite number.
    pub open spec fn finite(self) -> bool {
        self.x.finite() && self.y.finite() && self.z.finite() && self.w.finite()
    }

    /// Whether every coordinate is a finite number.
    pub fn is_finite(self) -> (r: bool)
        ensures
            r == self.finite(),
    {
        self.x.is_finite() && self.y.is_finite() && self.z.is_finite() && self.w.is_finite()
    }
}

/// A 3x3 matrix by its rows.
#[derive(Clone, Copy, Debug, PartialEq, Eq, Structural)]
pub struct Matrix3 {
    pub first: Vector3,
    pub second: Vector3,
    pub third: Vector3,
}

impl Matrix3 {
    pub open spec fn spec_identity() -> Matrix3 {
        Matrix3 {
            first: Vector3::spec_along(0, Scalar::one()),
            second: Vector3::spec_along(1, Scalar::one()),
            third: Vector3::spec_along(2, Scalar::one()),
        }
    }

    #[verifier::when_used_as_spec(spec_identity)]
    pub fn identity() -> (m: Matrix3)
        ensures
            m == Matrix3::spec_identity(),
    {
        Matrix3 {
            first: Vector3::along(0, Scalar::one()),
            second: Vector3::along(1, Scalar::one()),
            third: Vector3::along(2, Scalar::one()),
        }
    }

    /// Every entry with the other sign.
    pub open spec fn opposite(self) -> Matrix3 {
        Matrix3 {
            first: self.first.opposite(),
            second: self.second.opposite(),
            third: self.third.opposite(),
        }
    }

    /// Every entry with the other sign.
    pub fn negated(self) -> (m: Matrix3)
        ensures
            m == self.opposite(),
    {
        Matrix3 {
            first: self.first.negated(),
            second: self.second.negated(),
            third: self.third.negated(),
        }
    }

    /// Rows and columns exchanged.
    pub open spec fn flipped(self) -> Matrix3 {
        Matrix3 {
            first: Vector3 { x: self.first.x, y: self.second.x, z: self.third.x },
            second: Vector3 { x: self.first.y, y: self.second.y, z: self.third.y },
            third: Vector3 { x: self.first.z, y: self.second.z, z: self.third.z },
        }
    }

    /// Rows and columns exchanged.
    pub fn transpose(self) -> (m: Matrix3)
        ensures
            m == self.flipped(),
    {
        Matrix3 {
            first: Vector3 { x: self.first.x, y: self.second.x, z: self.third.x },
            second: Vector3 { x: self.first.y, y: self.second.y, z: self.third.y },
            third: Vector3 { x: self.first.z, y: self.second.z, z: self.third.z },
        }
    }

    /// Row 0, 1 or 2.
    pub open spec fn row(self, index: int) -> Vector3 {
        if index == 0 {
            self.first
        } else if index == 1 {
            self.second
        } else {
            self.third
        }
    }

    /// Row 0, 1 or 2.
    pub fn row_at(self, index: usize) -> (r: Vector3)
        requires
            index < 3,
        ensures
            r == self.row(index as int),
    {
        if index == 0 {
            self.first
        } else if index == 1 {
            self.second
        } else {
            self.third
        }
    }
}

/// The matrix that takes a vector to its cross product with `v`.
pub open spec fn spec_skew(v: Vector3) -> Matrix3 {
    let zero = Scalar::zero();
    Matrix3 {
        first: Vector3 { x: zero, y: v.z.opposite(), z: v.y },
        second: Vector3 { x: v.z, y: zero, z: v.x.opposite() },
        third: Vector3 { x: v.y.opposite(), y: v.x, z: zero },
    }
}

/// The matrix that takes a vector to its cross product with `v`.
pub fn skew(v: &Vector3) -> (m: Matrix3)
    ensures
        m == spec_skew(*v),
{
    let zero = Scalar::zero();
    Matrix3 {
        first: Vector3 { x: zero, y: v.z.negated(), z: v.y },
        second: Vector3 { x: v.z, y: zero, z: v.x.negated() },
        third: Vector3 { x: v.y.negated(), y: v.x, z: zero },
    }
}

/// A rigid transform: rotate, then translate.
#[derive(Clone, Copy, Debug, PartialEq, Eq, Structural)]
pub struct Pose {
    pub translation: Vector3,
    pub rotation: Quaternion,
}

impl Pose {
    pub open spec fn spec_identity() -> Pose {
        Pose { translation: Vector3::zeros(), rotation: Quaternion::identity() }
    }

    #[verifier::when_used_as_spec(spec_identity)]
    pub fn identity() -> (p: Pose)
        ensures
            p == Pose::spec_identity(),
    {
        Pose { translation: Vector3::zeros(), rotation: Quaternion::identity() }
    }

    /// Every number of the pose is finite.
    pub open spec fn finite(self) -> bool {
        self.translation.finite() && self.rotation.finite()
    }

    /// Whether every number of the pose is finite.
    pub fn is_finite(self) -> (r: bool)
        ensures
            r == self.finite(),
    {
        self.translation.is_finite() && self.rotation.is_finite()
    }
}

/// A 6x6 matrix, row-major. A covariance has xyz first, then rpy.
#[derive(Clone, Copy, Debug, PartialEq, Eq)]
pub struct Matrix6 {
    pub entries: [Scalar; 36],
}

impl Matrix6 {
    /// The entry in row `row` and column `col`.
    pub open spec fn at(self, row: int, col: int) -> Scalar {
        self.entries[row * 6 + col]
    }

    /// Rows and columns exchanged.
    pub open spec fn flips_to(self, m: Matrix6) -> bool {
        forall|row: int, col: int|
            0 <= row < 6 && 0 <= col < 6 ==> #[trigger] m.at(row, col) == self.at(col, row)
    }

    /// Rows and columns exchanged.
    pub fn transpose(&self) -> (m: Matrix6)
        ensures
            self.flips_to(m),
    {
        let mut m = Matrix6::zeros();
        let mut k: usize = 0;
        while k < 36
            invariant
                k <= 36,
                forall|i: int|
                    0 <= i < k ==> #[trigger] m.entries[i] == self.entries[(i % 6) * 6 + i / 6],
            decreases 36 - k,
        {
            m.entries[k] = self.entries[(k % 6) * 6 + k / 6];
            k += 1;
        }
        assert forall|row: int, col: int| 0 <= row < 6 && 0 <= col < 6 implies #[trigger] m.at(
            row,
            col,
        ) == self.at(col, row) by {
            let i = row * 6 + col;
            assert(i / 6 == row && i % 6 == col);
            assert(m.entries[i] == m.at(row, col));
        }
        m
    }

    /// All entries are zero.
    pub open spec fn blank(self) -> bool {
        forall|i: int| 0 <= i < 36 ==> self.entries[i] == Scalar::zero()
    }

    pub fn zeros() -> (c: Matrix6)
        ensures
            c.blank(),
    {
        Matrix6 { entries: [Scalar::zero(); 36] }
    }

    /// The entry in row `row` and column `col`.
    pub fn entry(&self, row: usize, col: usize) -> (s: Scalar)
        requires
            row < 6,
            col < 6,
        ensures
            s == self.at(row as int, col as int),
    {
        self.entries[row * 6 + col]
    }
}

/// The list's entries, one by one, in a new list.
pub(crate) fn copied<T: Copy>(list: &Vec<T>) -> (r: Vec<T>)
    ensures
        r@ == list@,
{
    let mut r: Vec<T> = Vec::new();
    let mut i: usize = 0;
    while i < list.len()
        invariant
            i <= list@.len(),
            r@ == list@.take(i as int),
        decreases list@.len() - i,
    {
        r.push(list[i]);
        i += 1;
        assert(r@ =~= list@.take(i as int));
    }
    assert(list@.take(list@.len() as int) =~= list@);
    r
}

/// A camera or depth image.
#[derive(Clone, Debug, PartialEq, Eq)]
pub struct ImageFrame {
    pub timestamp_ns: i64,
    pub frame_id: String,
    pub width: i32,
    pub height: i32,
    /// ROS names. Anything but `mono8` is fed to the tracker as three-channel colour.
    pub encoding: String,
    /// Bytes per row, which may exceed `width` times the pixel size.
    pub step: i32,
    pub data: Vec<u8>,
}

impl Default for ImageFrame {
    fn default() -> (r: ImageFrame)
        ensures
            r.timestamp_ns == 0,
            r.frame_id@.len() == 0,
            r.width == 0,
            r.height == 0,
            r.encoding@.len() == 0,
            r.step == 0,
            r.data@.len() == 0,
    {
        ImageFrame {
            timestamp_ns: 0,
            frame_id: String::new(),
            width: 0,
            height: 0,
            encoding: String::new(),
            step: 0,
            data: Vec::new(),
        }
    }
}

/// Pinhole intrinsics plus distortion.
#[derive(Clone, Debug, PartialEq, Eq)]
pub struct CameraModel {
    pub timestamp_ns: i64,
    pub frame_id: String,
    pub width: i32,
    pub height: i32,
    /// `plumb_bob` ordering is assumed: k1, k2, p1, p2, k3.
    pub distortion: Vec<Scalar>,
    /// Row-major 3x3 intrinsics: fx, 0, cx, 0, fy, cy, 0, 0, 1.
    pub intrinsics: [Scalar; 9],
}

/// What a [`CameraModel`] holds.
pub struct CameraView {
    pub timestamp_ns: i64,
    pub frame_id: Seq<char>,
    pub width: i32,
    pub height: i32,
    pub distortion: Seq<Scalar>,
    pub intrinsics: [Scalar; 9],
}

impl View for CameraModel {
    type V = CameraView;

    open spec fn view(&self) -> CameraView {
        CameraView {
            timestamp_ns: self.timestamp_ns,
            frame_id: self.frame_id@,
            width: self.width,
            height: self.height,
            distortion: self.distortion@,
            intrinsics: self.intrinsics,
        }
    }
}

impl CameraModel {
    /// The same model again.
    pub fn copy(&self) -> (r: CameraModel)
        ensures
            r@ == self@,
    {
        CameraModel {
            timestamp_ns: self.timestamp_ns,
            frame_id: self.frame_id.clone(),
            width: self.width,
            height: self.height,
            distortion: copied(&self.distortion),
            intrinsics: self.intrinsics,
        }
    }
}

impl Default for CameraModel {
    fn default() -> (r: CameraModel)
        ensures
            r.timestamp_ns == 0,
            r.frame_id@.len() == 0,
            r.width == 0,
            r.height == 0,
            r.distortion@.len() == 0,
            forall|i: int| 0 <= i < 9 ==> r.intrinsics[i] == Scalar::zero(),
    {
        CameraModel {
            timestamp_ns: 0,
            frame_id: String::new(),
            width: 0,
            height: 0,
            distortion: Vec::new(),
            intrinsics: [Scalar::zero(); 9],
        }
    }
}

#[derive(Clone, Debug, PartialEq, Eq)]
pub struct ImuSample {
    pub timestamp_ns: i64,
    pub frame_id: String,
    pub angular_velocity: Vector3,
    pub linear_acceleration: Vector3,
}

impl Default for ImuSample {
    fn default() -> (r: ImuSample)
        ensures
            r.timestamp_ns == 0,
            r.frame_id@.len() == 0,
            r.angular_velocity == Vector3::zeros(),
            r.linear_acceleration == Vector3::zeros(),
    {
        ImuSample {
            timestamp_ns: 0,
            frame_id: String::new(),
            angular_velocity: Vector3::zeros(),
            linear_acceleration: Vector3::zeros(),
        }
    }
}

/// The tracker's inertial mode needs the sensor's noise model up front; it cannot learn it.
#[derive(Clone, Debug, PartialEq, Eq)]
pub struct ImuNoiseModel {
    pub frame_id: String,
    pub gyro_noise_density: Scalar,
    pub gyro_random_walk: Scalar,
    pub accel_noise_density: Scalar,
    pub accel_random_walk: Scalar,
    pub frequency: Scalar,
}

impl Default for ImuNoiseModel {
    fn default() -> (r: ImuNoiseModel)
        ensures
            r.frame_id@.len() == 0,
            r.gyro_noise_density == Scalar::zero(),
            r.gyro_random_walk == Scalar::zero(),
            r.accel_noise_density == Scalar::zero(),
            r.accel_random_walk == Scalar::zero(),
            r.frequency == Scalar::zero(),
    {
        ImuNoiseModel {
            frame_id: String::new(),
            gyro_noise_density: Scalar::zero(),
            gyro_random_walk: Scalar::zero(),
            accel_noise_density: Scalar::zero(),
            accel_random_walk: Scalar::zero(),
            frequency: Scalar::zero(),
        }
    }
}

#[derive(Clone, Copy, Debug, PartialEq, Eq, Structural)]
pub struct Twist {
    pub linear: Vector3,
    pub angular: Vector3,
}

impl Default for Twist {
    fn default() -> (r: Twist)
        ensures
            r == (Twist { linear: Vector3::zeros(), angular: Vector3::zeros() }),
    {
        Twist { linear: Vector3::zeros(), angular: Vector3::zeros() }
    }
}

/// A pose of `child_frame_id` in `frame_id`, with the twist expressed in `child_frame_id`.
#[derive(Clone, Debug, PartialEq, Eq)]
pub struct OdometryEstimate {
    pub timestamp_ns: i64,
    pub frame_id: String,
    pub child_frame_id: String,
    pub pose: Pose,
    pub pose_covariance: Matrix6,
    pub twist: Twist,
    pub twist_covariance: Matrix6,
}

impl Default for OdometryEstimate {
    fn default() -> (r: OdometryEstimate)
        ensures
            r.timestamp_ns == 0,
            r.frame_id@.len() == 0,
            r.child_frame_id@.len() == 0,
            r.pose == Pose::identity(),
            r.pose_covariance.blank(),
            r.twist == (Twist { linear: Vector3::zeros(), angular: Vector3::zeros() }),
            r.twist_covariance.blank(),
    {
        OdometryEstimate {
            timestamp_ns: 0,
            frame_id: String::new(),
            child_frame_id: String::new(),
            pose: Pose::identity(),
            pose_covariance: Matrix6::zeros(),
            twist: Twist { linear: Vector3::zeros(), angular: Vector3::zeros() },
            twist_covariance: Matrix6::zeros(),
        }
    }
}

/// Range-gated depth points in the depth sensor's own frame.
#[derive(Clone, Debug, PartialEq, Eq)]
pub struct PointCloud {
    pub timestamp_ns: i64,
    pub frame_id: String,
    pub points: Vec<SingleVector>,
}

impl Default for PointCloud {
    fn default() -> (r: PointCloud)
        ensures
            r.timestamp_ns == 0,
            r.frame_id@.len() == 0,
            r.points@.len() == 0,
    {
        PointCloud { timestamp_ns: 0, frame_id: String::new(), points: Vec::new() }
    }
}

/// Rigid mounts: a single latest-value query is enough, as the callers re-query until it answers
/// and keep the result.
pub trait TfLookup {
    /// The transform taking a point in `child` to one in `parent`, or `None` if unconnected.
    fn latest(&self, parent: &str, child: &str) -> Option<Pose>;
}

/// `r` is an answer to where `child` is in `parent`.
pub open spec fn looked_up<T: TfLookup>(
    tf: &T,
    parent: Seq<char>,
    child: Seq<char>,
    r: Option<Pose>,
) -> bool {
    exists|p: &str, c: &str|
        p@ == parent && c@ == child && #[trigger] call_ensures(T::latest, (tf, p, c), r)
}

/// There is an answer that places `child` in `parent`.
pub open spec fn placed_in<T: TfLookup>(tf: &T, parent: Seq<char>, child: Seq<char>) -> bool {
    exists|pose: Pose| #[trigger] looked_up(tf, parent, child, Some(pose))
}

/// Where `child` is in `parent`.
pub(crate) fn look_up<T: TfLookup>(tf: &T, parent: &str, child: &str) -> (r: Option<Pose>)
    ensures
        looked_up(tf, parent@, child@, r),
{
    tf.latest(parent, child)
}

} // verus!
