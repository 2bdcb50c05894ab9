//! Transforms, covariances and estimates as they cross the library's edge.

use vstd::prelude::*;
use vstd::string::*;

use crate::numerics::Numerics;
use crate::scalar::Scalar;
use crate::stamp::{split, to_stamp, Time};
use crate::text::{decimal, decimal_text};
use crate::types::{Matrix6, OdometryEstimate, Pose, Quaternion, Twist, Vector3};

verus! {

/// `pose` is a transform given by its translation and a rotation that need not be a unit.
pub open spec fn pose_from<N: Numerics>(
    n: &N,
    translation: Vector3,
    rotation_xyzw: Quaternion,
    pose: Pose,
) -> bool {
    &&& pose.translation == translation
    &&& call_ensures(N::normalized, (n, &rotation_xyzw), pose.rotation)
}

/// A transform from its translation and its rotation.
pub fn iso_from_parts<N: Numerics>(
    n: &N,
    translation: Vector3,
    rotation_xyzw: Quaternion,
) -> (pose: Pose)
    ensures
        pose_from(n, translation, rotation_xyzw, pose),
{
    Pose { translation, rotation: n.normalized(&rotation_xyzw) }
}

/// `r` is one transform after the other, each given by its parts.
pub open spec fn composed_of<N: Numerics>(n: &N, a: Pose, b: Pose, r: Pose) -> bool {
    exists|x: Pose, y: Pose|
        {
            &&& #[trigger] pose_from(n, a.translation, a.rotation, x)
            &&& #[trigger] pose_from(n, b.translation, b.rotation, y)
            &&& call_ensures(N::compose, (n, &x, &y), r)
        }
}

/// One transform after the other, each given by its parts.
pub fn compose<N: Numerics>(n: &N, a: &Pose, b: &Pose) -> (r: Pose)
    ensures
        composed_of(n, *a, *b, r),
{
    let x = iso_from_parts(n, a.translation, a.rotation);
    let y = iso_from_parts(n, b.translation, b.rotation);
    n.compose(&x, &y)
}

/// `r` is the transform that undoes one given by its parts.
pub open spec fn inverted_of<N: Numerics>(n: &N, t: Pose, r: Pose) -> bool {
    exists|x: Pose|
        {
            &&& #[trigger] pose_from(n, t.translation, t.rotation, x)
            &&& call_ensures(N::inverse, (n, &x), r)
        }
}

/// The transform that undoes one given by its parts.
pub fn invert<N: Numerics>(n: &N, t: &Pose) -> (r: Pose)
    ensures
        inverted_of(n, *t, r),
{
    let x = iso_from_parts(n, t.translation, t.rotation);
    n.inverse(&x)
}

/// The message for a covariance of the wrong length.
pub open spec fn wrong_length(len: nat) -> Seq<char> {
    "covariance needs 36 row-major values, got "@ + decimal(len)
}

/// A covariance from its entries, row by row. None given is all zeros.
pub fn matrix_from_row_major(values: Option<Vec<Scalar>>) -> (r: Result<Matrix6, String>)
    ensures
        match values {
            None => r matches Ok(m) && m.blank(),
            Some(v) => if v@.len() == 36 {
                r matches Ok(m) && m.entries@ == v@
            } else {
                r matches Err(message) && message@ == wrong_length(v@.len())
            },
        },
{
    match values {
        None => Ok(Matrix6::zeros()),
        Some(v) => {
            if v.len() != 36 {
                let mut message: String = "covariance needs 36 row-major values, got ".to_owned();
                message.append(decimal_text(v.len()).as_str());
                return Err(message);
            }
            let mut entries = [Scalar::zero();36];
            let mut i: usize = 0;
            while i < 36
                invariant
                    i <= 36,
                    v@.len() == 36,
                    forall|k: int| 0 <= k < i ==> entries[k] == v[k],
                decreases 36 - i,
            {
                entries[i] = v[i];
                i += 1;
            }
            assert(entries@ =~= v@);
            Ok(Matrix6 { entries })
        },
    }
}

/// A covariance's entries, row by row.
pub fn matrix_to_row_major(m: &Matrix6) -> (r: Vec<Scalar>)
    ensures
        r@ == m.entries@,
{
    let mut r: Vec<Scalar> = Vec::new();
    let mut i: usize = 0;
    while i < 36
        invariant
            i <= 36,
            r@ == m.entries@.take(i as int),
        decreases 36 - i,
    {
        r.push(m.entries[i]);
        i += 1;
        assert(r@ =~= m.entries@.take(i as int));
    }
    assert(r@ =~= m.entries@);
    r
}

/// An estimate as it is sent, its stamp in two parts.
pub struct OdometryMessage {
    pub stamp: Time,
    pub frame_id: String,
    pub child_frame_id: String,
    pub pose: Pose,
    /// Row by row.
    pub pose_covariance: Vec<Scalar>,
    pub twist: Twist,
    /// Row by row.
    pub twist_covariance: Vec<Scalar>,
}

/// An estimate as it is sent.
pub fn to_message(estimate: &OdometryEstimate) -> (r: OdometryMessage)
    ensures
        r.stamp == split(estimate.timestamp_ns as int),
        r.frame_id@ == estimate.frame_id@,
        r.child_frame_id@ == estimate.child_frame_id@,
        r.pose == estimate.pose,
        r.pose_covariance@ == estimate.pose_covariance.entries@,
        r.twist == estimate.twist,
        r.twist_covariance@ == estimate.twist_covariance.entries@,
{
    OdometryMessage {
        stamp: to_stamp(estimate.timestamp_ns),
        frame_id: estimate.frame_id.clone(),
        child_frame_id: estimate.child_frame_id.clone(),
        pose: estimate.pose,
        pose_covariance: matrix_to_row_major(&estimate.pose_covariance),
        twist: estimate.twist,
        twist_covariance: matrix_to_row_major(&estimate.twist_covariance),
    }
}

/// A transform between two frames at a time.
pub struct StampedTransform {
    pub parent: String,
    pub child: String,
    pub timestamp_ns: i64,
    pub pose: Pose,
}

/// What a [`StampedTransform`] holds.
pub struct TransformView {
    pub parent: Seq<char>,
    pub child: Seq<char>,
    pub timestamp_ns: i64,
    pub pose: Pose,
}

impl View for StampedTransform {
    type V = TransformView;

    open spec fn view(&self) -> TransformView {
        TransformView {
            parent: self.parent@,
            child: self.child@,
            timestamp_ns: self.timestamp_ns,
            pose: self.pose,
        }
    }
}

/// The transforms that go with an estimate: its own, and with it the map's, which stays the
/// identity until a map correction exists.
pub open spec fn transforms_for(
    estimate: OdometryEstimate,
    publish_tf: bool,
    publish_map_to_odom: bool,
    map_frame: Seq<char>,
) -> Seq<TransformView> {
    let own = TransformView {
        parent: estimate.frame_id@,
        child: estimate.child_frame_id@,
        timestamp_ns: estimate.timestamp_ns,
        pose: estimate.pose,
    };
    let map = TransformView {
        parent: map_frame,
        child: estimate.frame_id@,
        timestamp_ns: estimate.timestamp_ns,
        pose: Pose::identity(),
    };
    if !publish_tf {
        Seq::empty()
    } else if publish_map_to_odom {
        seq![own, map]
    } else {
        seq![own]
    }
}

/// The transforms to be sent with an estimate.
pub fn transforms(
    estimate: &OdometryEstimate,
    publish_tf: bool,
    publish_map_to_odom: bool,
    map_frame: &str,
) -> (r: Vec<StampedTransform>)
    ensures
        r@.map_values(|t: StampedTransform| t@) == transforms_for(
            *estimate,
            publish_tf,
            publish_map_to_odom,
            map_frame@,
        ),
{
    let mut r: Vec<StampedTransform> = Vec::new();
    if publish_tf {
        r.push(
            StampedTransform {
                parent: estimate.frame_id.clone(),
                child: estimate.child_frame_id.clone(),
                timestamp_ns: estimate.timestamp_ns,
                pose: estimate.pose,
            },
        );
        if publish_map_to_odom {
            r.push(
                StampedTransform {
                    parent: map_frame.to_owned(),
                    child: estimate.frame_id.clone(),
                    timestamp_ns: estimate.timestamp_ns,
                    pose: Pose::identity(),
                },
            );
        }
    }
    assert(r@.map_values(|t: StampedTransform| t@) =~= transforms_for(
        *estimate,
        publish_tf,
        publish_map_to_odom,
        map_frame@,
    ));
    r
}

/// The pose of a transform.
pub fn transform_to_isometry(transform: &StampedTransform) -> (pose: Pose)
    ensures
        pose == transform@.pose,
{
    transform.pose
}

} // verus!
