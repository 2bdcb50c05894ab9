//! The floating-point arithmetic the library is parameterised by.
//!
//! Nothing is taken for granted about what these methods return: the contracts elsewhere say
//! which of them is called on which values, and what becomes of what came back. They do so with
//! `call_ensures`, the relation between a call's arguments and its result.

use vstd::prelude::*;

use crate::scalar::{Scalar, Single};
use crate::types::{Matrix3, Matrix6, Pose, Quaternion, Vector3};

verus! {

/// Floating-point arithmetic on numbers, vectors, rotations, transforms and matrices.
pub trait Numerics {
    /// A matrix of any size.
    type Matrix;

    fn sum(&self, a: Scalar, b: Scalar) -> Scalar;

    fn difference(&self, a: Scalar, b: Scalar) -> Scalar;

    fn times(&self, a: Scalar, b: Scalar) -> Scalar;

    fn ratio(&self, a: Scalar, b: Scalar) -> Scalar;

    fn sqrt(&self, a: Scalar) -> Scalar;

    fn exp(&self, a: Scalar) -> Scalar;

    fn ceil(&self, a: Scalar) -> Scalar;

    fn floor(&self, a: Scalar) -> Scalar;

    /// The nearest whole number, away from zero where two are as near.
    fn round(&self, a: Scalar) -> Scalar;

    fn from_int(&self, a: i64) -> Scalar;

    /// The whole part, held within the range; zero for what is not a number.
    fn to_i64(&self, a: Scalar) -> i64;

    /// The whole part, held within the range; zero for what is not a number.
    fn to_i32(&self, a: Scalar) -> i32;

    /// The whole part, held within the range; zero for what is not a number.
    fn to_u16(&self, a: Scalar) -> u16;

    /// The nearest single-precision number.
    fn narrow(&self, a: Scalar) -> Single;

    fn widen(&self, a: Single) -> Scalar;

    fn single_from(&self, a: u16) -> Single;

    fn single_times(&self, a: Single, b: Single) -> Single;

    fn single_ratio(&self, a: Single, b: Single) -> Single;

    /// The nearest whole number, away from zero where two are as near.
    fn single_round(&self, a: Single) -> Single;

    /// The whole part, held within the range; zero for what is not a number.
    fn single_to_u16(&self, a: Single) -> u16;

    fn plus(&self, a: &Vector3, b: &Vector3) -> Vector3;

    fn minus(&self, a: &Vector3, b: &Vector3) -> Vector3;

    fn scaled(&self, v: &Vector3, by: Scalar) -> Vector3;

    fn divided(&self, v: &Vector3, by: Scalar) -> Vector3;

    fn cross(&self, a: &Vector3, b: &Vector3) -> Vector3;

    fn norm(&self, v: &Vector3) -> Scalar;

    /// The unit quaternion of this direction.
    fn normalized(&self, q: &Quaternion) -> Quaternion;

    /// `v` turned by `rotation`.
    fn rotate(&self, rotation: &Quaternion, v: &Vector3) -> Vector3;

    /// `v` turned back by `rotation`.
    fn inverse_rotate(&self, rotation: &Quaternion, v: &Vector3) -> Vector3;

    /// The rotation `a` after `b`.
    fn turned(&self, a: &Quaternion, b: &Quaternion) -> Quaternion;

    /// The rotation about `axis` by its length.
    fn from_scaled_axis(&self, axis: &Vector3) -> Quaternion;

    /// The axis of a rotation, its length the angle.
    fn scaled_axis(&self, q: &Quaternion) -> Vector3;

    /// The smallest rotation that takes one direction to the other; none is smallest between
    /// opposite ones.
    fn rotation_between(&self, from: &Vector3, to: &Vector3) -> Option<Quaternion>;

    /// The angle of the rotation from one attitude to the other.
    fn angle_between(&self, a: &Quaternion, b: &Quaternion) -> Scalar;

    fn rotation_matrix(&self, q: &Quaternion) -> Matrix3;

    /// The transform `a` after `b`.
    fn compose(&self, a: &Pose, b: &Pose) -> Pose;

    /// The transform that undoes `pose`.
    fn inverse(&self, pose: &Pose) -> Pose;

    fn matrix3_times(&self, a: &Matrix3, b: &Matrix3) -> Matrix3;

    fn matrix3_minus(&self, a: &Matrix3, b: &Matrix3) -> Matrix3;

    fn matrix3_scaled(&self, m: &Matrix3, by: Scalar) -> Matrix3;

    fn matrix3_apply(&self, m: &Matrix3, v: &Vector3) -> Vector3;

    fn matrix6_times(&self, a: &Matrix6, b: &Matrix6) -> Matrix6;

    /// The matrix with these entries, row by row.
    fn matrix(&self, rows: usize, cols: usize, entries: &Vec<Scalar>) -> Self::Matrix;

    /// The entry in a row and a column.
    fn entry(&self, m: &Self::Matrix, row: usize, col: usize) -> Scalar;

    fn matrix_times(&self, a: &Self::Matrix, b: &Self::Matrix) -> Self::Matrix;

    fn matrix_plus(&self, a: &Self::Matrix, b: &Self::Matrix) -> Self::Matrix;

    fn matrix_minus(&self, a: &Self::Matrix, b: &Self::Matrix) -> Self::Matrix;

    fn transposed(&self, m: &Self::Matrix) -> Self::Matrix;

    /// The inverse of a square matrix, if it has one.
    fn inverted(&self, m: &Self::Matrix) -> Option<Self::Matrix>;
}

} // verus!
