//! What numbers, vectors, rotations and transforms mean, and arithmetic that does not round.
//!
//! The formulas call for operations of [`Numerics`], about which nothing is assumed. What the
//! formulas are for shows where those operations are exact: numbers stand for reals, a rotation
//! turns vectors, a pose moves points. The laws of [`exact_laws`](crate::exact_laws) and of its
//! siblings say what then holds of the results.

use vstd::prelude::*;

use crate::numerics::Numerics;
use crate::scalar::{Scalar, Single};
use crate::types::{Matrix3, Matrix6, Pose, Quaternion, Vector3};

verus! {

/// A vector of space.
pub struct Vec3 {
    pub x: real,
    pub y: real,
    pub z: real,
}

impl Vec3 {
    pub open spec fn zero() -> Vec3 {
        Vec3 { x: 0real, y: 0real, z: 0real }
    }

    pub open spec fn plus(self, other: Vec3) -> Vec3 {
        Vec3 { x: self.x + other.x, y: self.y + other.y, z: self.z + other.z }
    }

    pub open spec fn minus(self, other: Vec3) -> Vec3 {
        Vec3 { x: self.x - other.x, y: self.y - other.y, z: self.z - other.z }
    }

    pub open spec fn scaled(self, by: real) -> Vec3 {
        Vec3 { x: self.x * by, y: self.y * by, z: self.z * by }
    }

    pub open spec fn dot(self, other: Vec3) -> real {
        self.x * other.x + self.y * other.y + self.z * other.z
    }

    pub open spec fn cross(self, other: Vec3) -> Vec3 {
        Vec3 {
            x: self.y * other.z - self.z * other.y,
            y: self.z * other.x - self.x * other.z,
            z: self.x * other.y - self.y * other.x,
        }
    }
}

/// What the library's values mean.
pub struct Meaning {
    /// The real that a number stands for.
    pub value: spec_fn(Scalar) -> real,
    /// The same for single precision.
    pub single: spec_fn(Single) -> real,
    /// Where a rotation turns a vector to.
    pub turns: spec_fn(Quaternion, Vec3) -> Vec3,
    /// Where the rotation about an axis, by its length, turns a vector to.
    pub swings: spec_fn(Vec3, Vec3) -> Vec3,
    /// The exponential function.
    pub exponential: spec_fn(real) -> real,
}

impl Meaning {
    pub open spec fn num(self, s: Scalar) -> real {
        (self.value)(s)
    }

    pub open spec fn vec(self, v: Vector3) -> Vec3 {
        Vec3 { x: self.num(v.x), y: self.num(v.y), z: self.num(v.z) }
    }

    pub open spec fn turn(self, q: Quaternion, v: Vec3) -> Vec3 {
        (self.turns)(q, v)
    }

    pub open spec fn swing(self, axis: Vec3, v: Vec3) -> Vec3 {
        (self.swings)(axis, v)
    }

    /// The two rotations turn every vector alike.
    pub open spec fn same_turn(self, a: Quaternion, b: Quaternion) -> bool {
        forall|v: Vec3| #[trigger] self.turn(a, v) == self.turn(b, v)
    }

    /// Where a pose takes a point: turned, then shifted.
    pub open spec fn moves(self, p: Pose, v: Vec3) -> Vec3 {
        self.turn(p.rotation, v).plus(self.vec(p.translation))
    }

    /// The two poses are the same motion.
    pub open spec fn same_motion(self, a: Pose, b: Pose) -> bool {
        forall|v: Vec3| #[trigger] self.moves(a, v) == self.moves(b, v)
    }

    /// `r` is the motion `a` after `b`.
    pub open spec fn is_after(self, r: Pose, a: Pose, b: Pose) -> bool {
        forall|v: Vec3| #[trigger] self.moves(r, v) == self.moves(a, self.moves(b, v))
    }

    /// Where a matrix takes a vector.
    pub open spec fn on(self, m: Matrix3, v: Vec3) -> Vec3 {
        Vec3 {
            x: self.vec(m.first).dot(v),
            y: self.vec(m.second).dot(v),
            z: self.vec(m.third).dot(v),
        }
    }
}

/// The named patterns stand for the numbers that they are named after.
pub open spec fn constants_exact(m: Meaning) -> bool {
    &&& m.num(Scalar { bits: 0 }) == 0real
    &&& m.num(Scalar { bits: 0x3ff0_0000_0000_0000 }) == 1real
    &&& m.num(Scalar { bits: 0xbff0_0000_0000_0000 }) == 0real - 1real
    &&& m.num(Scalar { bits: 0x3fe0_0000_0000_0000 }) == 1real / 2real
    &&& m.num(Scalar { bits: 0x4000_0000_0000_0000 }) == 2real
    &&& m.num(Scalar { bits: 0x412e_8480_0000_0000 }) == 1000000real
    &&& m.num(Scalar { bits: 0x41cd_cd65_0000_0000 }) == 1000000000real
    &&& m.num(Scalar { bits: 0x40ef_ffe0_0000_0000 }) == 65535real
    &&& m.num(Scalar { bits: 0x3fd3_3333_3333_3333 }) == 3real / 10real
    &&& m.num(Scalar { bits: 0x3fb9_9999_9999_999a }) == 1real / 10real
    &&& m.num(Scalar { bits: 0x3f99_9999_9999_999a }) == 25real / 1000real
    &&& forall|a: Scalar| #[trigger] m.num(a.opposite()) == 0real - m.num(a)
    &&& forall|a: Scalar| #[trigger] a.positive() ==> m.num(a) > 0real
    &&& forall|a: Scalar| #[trigger] a.negative() ==> m.num(a) < 0real
    &&& forall|a: Scalar| !a.nan() && !(#[trigger] a.positive()) ==> m.num(a) <= 0real
    &&& forall|a: Scalar| !a.nan() && !(#[trigger] a.negative()) ==> m.num(a) >= 0real
    &&& forall|a: Scalar, b: Scalar| #[trigger] a.below(b) ==> m.num(a) < m.num(b)
    &&& forall|a: Scalar, b: Scalar| #[trigger] a.at_most(b) ==> m.num(a) <= m.num(b)
    &&& forall|a: Scalar, b: Scalar|
        !a.nan() && !b.nan() && !(#[trigger] a.below(b)) ==> m.num(a) >= m.num(b)
}

/// The whole part of a real, towards zero.
pub open spec fn whole_part(a: real) -> int {
    if a >= 0real {
        a.floor()
    } else {
        0 - (0real - a).floor()
    }
}

/// The nearest whole number, away from zero where two are as near.
pub open spec fn nearest(a: real) -> int {
    if a >= 0real {
        (a + 1real / 2real).floor()
    } else {
        0 - (1real / 2real - a).floor()
    }
}

/// `a` held within a range.
pub open spec fn held_within(a: int, least: int, most: int) -> int {
    if a < least {
        least
    } else if a > most {
        most
    } else {
        a
    }
}

/// Arithmetic on numbers does not round.
pub open spec fn numbers_exact<N: Numerics>(n: &N, m: Meaning) -> bool {
    &&& forall|a: Scalar, b: Scalar, r: Scalar| #[trigger]
        call_ensures(N::sum, (n, a, b), r) ==> !r.nan() && m.num(r) == m.num(a) + m.num(b)
    &&& forall|a: Scalar, b: Scalar, r: Scalar| #[trigger]
        call_ensures(N::difference, (n, a, b), r) ==> !r.nan() && m.num(r) == m.num(a) - m.num(b)
    &&& forall|a: Scalar, b: Scalar, r: Scalar| #[trigger]
        call_ensures(N::times, (n, a, b), r) ==> !r.nan() && m.num(r) == m.num(a) * m.num(b)
    &&& forall|a: Scalar, b: Scalar, r: Scalar| #[trigger]
        call_ensures(N::ratio, (n, a, b), r) ==> m.num(b) != 0real ==> !r.nan() && m.num(r)
            * m.num(b) == m.num(a)
    &&& forall|a: Scalar, r: Scalar| #[trigger]
        call_ensures(N::sqrt, (n, a), r) ==> m.num(a) >= 0real ==> m.num(r) >= 0real && m.num(r)
            * m.num(r) == m.num(a)
    &&& forall|a: Scalar, r: Scalar| #[trigger]
        call_ensures(N::exp, (n, a), r) ==> m.num(r) == (m.exponential)(m.num(a))
    &&& forall|a: i64, r: Scalar| #[trigger]
        call_ensures(N::from_int, (n, a), r) ==> m.num(r) == a as real
    &&& forall|a: Scalar, r: i64| #[trigger]
        call_ensures(N::to_i64, (n, a), r) ==> r == held_within(
            whole_part(m.num(a)),
            i64::MIN as int,
            i64::MAX as int,
        )
    &&& forall|a: Scalar, r: i32| #[trigger]
        call_ensures(N::to_i32, (n, a), r) ==> r == held_within(
            whole_part(m.num(a)),
            i32::MIN as int,
            i32::MAX as int,
        )
    &&& forall|a: Scalar, r: u16| #[trigger]
        call_ensures(N::to_u16, (n, a), r) ==> r == held_within(whole_part(m.num(a)), 0, 65535)
    &&& forall|a: Scalar, r: Scalar| #[trigger]
        call_ensures(N::floor, (n, a), r) ==> !r.nan() && m.num(r) == m.num(a).floor() as real
    &&& forall|a: Scalar, r: Scalar| #[trigger]
        call_ensures(N::ceil, (n, a), r) ==> !r.nan() && m.num(r) == (0 - (0real - m.num(
            a,
        )).floor()) as real
    &&& forall|a: Scalar, r: Scalar| #[trigger]
        call_ensures(N::round, (n, a), r) ==> !r.nan() && m.num(r) == nearest(m.num(a)) as real
}

/// Arithmetic in single precision does not round either.
pub open spec fn singles_exact<N: Numerics>(n: &N, m: Meaning) -> bool {
    &&& forall|a: Scalar, r: Single| #[trigger]
        call_ensures(N::narrow, (n, a), r) ==> (m.single)(r) == m.num(a)
    &&& forall|a: Single, r: Scalar| #[trigger]
        call_ensures(N::widen, (n, a), r) ==> m.num(r) == (m.single)(a)
    &&& forall|a: u16, r: Single| #[trigger]
        call_ensures(N::single_from, (n, a), r) ==> (m.single)(r) == a as real
    &&& forall|a: Single, b: Single, r: Single| #[trigger]
        call_ensures(N::single_times, (n, a, b), r) ==> (m.single)(r) == (m.single)(a) * (
        m.single)(b)
    &&& forall|a: Single, b: Single, r: Single| #[trigger]
        call_ensures(N::single_ratio, (n, a, b), r) ==> (m.single)(b) != 0real ==> (m.single)(r)
            * (m.single)(b) == (m.single)(a)
    &&& forall|a: Single, r: Single| #[trigger]
        call_ensures(N::single_round, (n, a), r) ==> (m.single)(r) == nearest((m.single)(a)) as real
    &&& forall|a: Single, r: u16| #[trigger]
        call_ensures(N::single_to_u16, (n, a), r) ==> r == held_within(
            whole_part((m.single)(a)),
            0,
            65535,
        )
}

/// Arithmetic on vectors is that of space.
pub open spec fn vectors_exact<N: Numerics>(n: &N, m: Meaning) -> bool {
    &&& forall|a: Vector3, b: Vector3, r: Vector3| #[trigger]
        call_ensures(N::plus, (n, &a, &b), r) ==> m.vec(r) == m.vec(a).plus(m.vec(b))
    &&& forall|a: Vector3, b: Vector3, r: Vector3| #[trigger]
        call_ensures(N::minus, (n, &a, &b), r) ==> m.vec(r) == m.vec(a).minus(m.vec(b))
    &&& forall|v: Vector3, k: Scalar, r: Vector3| #[trigger]
        call_ensures(N::scaled, (n, &v, k), r) ==> m.vec(r) == m.vec(v).scaled(m.num(k))
    &&& forall|v: Vector3, k: Scalar, r: Vector3| #[trigger]
        call_ensures(N::divided, (n, &v, k), r) ==> m.num(k) != 0real ==> m.vec(r).scaled(
            m.num(k),
        ) == m.vec(v)
    &&& forall|a: Vector3, b: Vector3, r: Vector3| #[trigger]
        call_ensures(N::cross, (n, &a, &b), r) ==> m.vec(r) == m.vec(a).cross(m.vec(b))
    &&& forall|v: Vector3, r: Scalar| #[trigger]
        call_ensures(N::norm, (n, &v), r) ==> m.num(r) >= 0real && m.num(r) * m.num(r) == m.vec(
            v,
        ).dot(m.vec(v))
}

/// Rotations turn space: they are linear, keep lengths and angles, and can be undone.
pub open spec fn turns_lawful(m: Meaning) -> bool {
    &&& forall|v: Vec3| #[trigger] m.turn(Quaternion::identity(), v) == v
    &&& forall|q: Quaternion, v: Vec3| #[trigger] m.turn(q.back(), m.turn(q, v)) == v
    &&& forall|q: Quaternion, v: Vec3| #[trigger] m.turn(q, m.turn(q.back(), v)) == v
    &&& forall|q: Quaternion, a: Vec3, b: Vec3| #[trigger] m.turns_sums(q, a, b)
    &&& forall|q: Quaternion, a: Vec3, b: Vec3| #[trigger] m.turns_differences(q, a, b)
    &&& forall|q: Quaternion, a: Vec3, k: real| #[trigger] m.turns_multiples(q, a, k)
    &&& forall|q: Quaternion, a: Vec3, b: Vec3| #[trigger] m.turns_keeping_angles(q, a, b)
    &&& forall|q: Quaternion, a: Vec3, b: Vec3| #[trigger] m.turns_crosswise(q, a, b)
    &&& forall|v: Vec3| #[trigger] m.swing(Vec3::zero(), v) == v
    &&& forall|p: Quaternion, q: Quaternion, v: Vec3|
        #![trigger m.same_coordinates(p, q), m.turn(p, v)]
        m.same_coordinates(p, q) ==> m.turn(p, v) == m.turn(q, v)
}

/// The axis is shorter than half a turn, so that no other one gives the same rotation.
pub open spec fn small(axis: Vec3) -> bool {
    axis.dot(axis) < 9real
}

/// Arithmetic on rotations is that of turning.
pub open spec fn rotations_exact<N: Numerics>(n: &N, m: Meaning) -> bool {
    &&& forall|q: Quaternion, r: Quaternion, v: Vec3|
        #![trigger call_ensures(N::normalized, (n, &q), r), m.turn(r, v)]
        call_ensures(N::normalized, (n, &q), r) ==> m.turn(r, v) == m.turn(q, v)
    &&& forall|q: Quaternion, v: Vector3, r: Vector3| #[trigger]
        call_ensures(N::rotate, (n, &q, &v), r) ==> m.vec(r) == m.turn(q, m.vec(v))
    &&& forall|q: Quaternion, v: Vector3, r: Vector3| #[trigger]
        call_ensures(N::inverse_rotate, (n, &q, &v), r) ==> m.vec(r) == m.turn(q.back(), m.vec(v))
    &&& forall|a: Quaternion, b: Quaternion, r: Quaternion, v: Vec3|
        #![trigger call_ensures(N::turned, (n, &a, &b), r), m.turn(r, v)]
        call_ensures(N::turned, (n, &a, &b), r) ==> m.turn(r, v) == m.turn(a, m.turn(b, v))
    &&& forall|axis: Vector3, r: Quaternion, v: Vec3|
        #![trigger call_ensures(N::from_scaled_axis, (n, &axis), r), m.turn(r, v)]
        call_ensures(N::from_scaled_axis, (n, &axis), r) ==> m.turn(r, v) == m.swing(
            m.vec(axis),
            v,
        )
    &&& forall|q: Quaternion, r: Vector3, v: Vec3|
        #![trigger call_ensures(N::scaled_axis, (n, &q), r), m.swing(m.vec(r), v)]
        call_ensures(N::scaled_axis, (n, &q), r) ==> m.swing(m.vec(r), v) == m.turn(q, v)
    &&& forall|q: Quaternion, r: Vector3, axis: Vec3| #[trigger]
        call_ensures(N::scaled_axis, (n, &q), r) && #[trigger] m.turns_by(q, axis) && small(axis)
            ==> m.vec(r) == axis
    &&& forall|q: Quaternion, r: Matrix3, v: Vec3|
        #![trigger call_ensures(N::rotation_matrix, (n, &q), r), m.on(r, v)]
        call_ensures(N::rotation_matrix, (n, &q), r) ==> m.on(r, v) == m.turn(q, v)
    &&& forall|from: Vector3, to: Vector3, q: Quaternion| #[trigger]
        call_ensures(N::rotation_between, (n, &from, &to), Some(q)) ==> m.aligned(
            m.turn(q, m.vec(from)),
            m.vec(to),
        )
    &&& forall|a: Quaternion, b: Quaternion, r: Scalar, axis: Vec3| #[trigger]
        call_ensures(N::angle_between, (n, &a, &b), r) && #[trigger] m.turns_from(a, b, axis)
            && small(axis) ==> m.num(r) >= 0real && m.num(r) * m.num(r) == axis.dot(axis)
}

impl Meaning {
    /// A sum is turned term by term.
    pub open spec fn turns_sums(self, q: Quaternion, a: Vec3, b: Vec3) -> bool {
        self.turn(q, a.plus(b)) == self.turn(q, a).plus(self.turn(q, b))
    }

    /// A difference is turned term by term.
    pub open spec fn turns_differences(self, q: Quaternion, a: Vec3, b: Vec3) -> bool {
        self.turn(q, a.minus(b)) == self.turn(q, a).minus(self.turn(q, b))
    }

    /// A multiple is turned with its vector.
    pub open spec fn turns_multiples(self, q: Quaternion, a: Vec3, k: real) -> bool {
        self.turn(q, a.scaled(k)) == self.turn(q, a).scaled(k)
    }

    /// Lengths and angles stay.
    pub open spec fn turns_keeping_angles(self, q: Quaternion, a: Vec3, b: Vec3) -> bool {
        self.turn(q, a).dot(self.turn(q, b)) == a.dot(b)
    }

    /// What is across two vectors stays across them.
    pub open spec fn turns_crosswise(self, q: Quaternion, a: Vec3, b: Vec3) -> bool {
        self.turn(q, a.cross(b)) == self.turn(q, a).cross(self.turn(q, b))
    }

    /// The coordinates of the two stand for the same reals.
    pub open spec fn same_coordinates(self, p: Quaternion, q: Quaternion) -> bool {
        &&& self.num(p.w) == self.num(q.w)
        &&& self.num(p.x) == self.num(q.x)
        &&& self.num(p.y) == self.num(q.y)
        &&& self.num(p.z) == self.num(q.z)
    }

    /// The rotation is the one about this axis, by its length.
    pub open spec fn turns_by(self, q: Quaternion, axis: Vec3) -> bool {
        forall|v: Vec3| #[trigger] self.turn(q, v) == self.swing(axis, v)
    }

    /// From attitude `a` to `b` it is a turn about this axis of the body, by its length.
    pub open spec fn turns_from(self, a: Quaternion, b: Quaternion, axis: Vec3) -> bool {
        forall|v: Vec3| #[trigger] self.turn(b, v) == self.turn(a, self.swing(axis, v))
    }

    /// The first vector has the direction of the second.
    pub open spec fn aligned(self, a: Vec3, b: Vec3) -> bool {
        a.cross(b) == Vec3::zero() && a.dot(b) >= 0real
    }
}

/// Arithmetic on transforms is that of rigid motions.
pub open spec fn poses_exact<N: Numerics>(n: &N, m: Meaning) -> bool {
    &&& forall|a: Pose, b: Pose, r: Pose, v: Vec3|
        #![trigger call_ensures(N::compose, (n, &a, &b), r), m.moves(r, v)]
        call_ensures(N::compose, (n, &a, &b), r) ==> m.moves(r, v) == m.moves(a, m.moves(b, v))
    &&& forall|a: Pose, r: Pose, v: Vec3|
        #![trigger call_ensures(N::inverse, (n, &a), r), m.moves(r, m.moves(a, v))]
        call_ensures(N::inverse, (n, &a), r) ==> m.moves(r, m.moves(a, v)) == v
    &&& forall|a: Pose, r: Pose, v: Vec3|
        #![trigger call_ensures(N::inverse, (n, &a), r), m.moves(a, m.moves(r, v))]
        call_ensures(N::inverse, (n, &a), r) ==> m.moves(a, m.moves(r, v)) == v
}

/// Arithmetic on three by three matrices is that of linear maps.
pub open spec fn blocks_exact<N: Numerics>(n: &N, m: Meaning) -> bool {
    &&& forall|a: Matrix3, b: Matrix3, r: Matrix3, v: Vec3|
        #![trigger call_ensures(N::matrix3_times, (n, &a, &b), r), m.on(r, v)]
        call_ensures(N::matrix3_times, (n, &a, &b), r) ==> m.on(r, v) == m.on(a, m.on(b, v))
    &&& forall|a: Matrix3, b: Matrix3, r: Matrix3, v: Vec3|
        #![trigger call_ensures(N::matrix3_minus, (n, &a, &b), r), m.on(r, v)]
        call_ensures(N::matrix3_minus, (n, &a, &b), r) ==> m.on(r, v) == m.on(a, v).minus(
            m.on(b, v),
        )
    &&& forall|a: Matrix3, k: Scalar, r: Matrix3, v: Vec3|
        #![trigger call_ensures(N::matrix3_scaled, (n, &a, k), r), m.on(r, v)]
        call_ensures(N::matrix3_scaled, (n, &a, k), r) ==> m.on(r, v) == m.on(a, v).scaled(
            m.num(k),
        )
    &&& forall|a: Matrix3, v: Vector3, r: Vector3| #[trigger]
        call_ensures(N::matrix3_apply, (n, &a, &v), r) ==> m.vec(r) == m.on(a, m.vec(v))
}

/// The entry of a product of six by six matrices.
pub open spec fn product6(m: Meaning, a: Matrix6, b: Matrix6, row: int, col: int) -> real {
    m.num(a.at(row, 0)) * m.num(b.at(0, col)) + m.num(a.at(row, 1)) * m.num(b.at(1, col)) + m.num(
        a.at(row, 2),
    ) * m.num(b.at(2, col)) + m.num(a.at(row, 3)) * m.num(b.at(3, col)) + m.num(a.at(row, 4))
        * m.num(b.at(4, col)) + m.num(a.at(row, 5)) * m.num(b.at(5, col))
}

/// Products of six by six matrices are that.
pub open spec fn products_exact<N: Numerics>(n: &N, m: Meaning) -> bool {
    forall|a: Matrix6, b: Matrix6, r: Matrix6, row: int, col: int|
        #![trigger call_ensures(N::matrix6_times, (n, &a, &b), r), r.at(row, col)]
        call_ensures(N::matrix6_times, (n, &a, &b), r) && 0 <= row < 6 && 0 <= col < 6 ==> m.num(
            r.at(row, col),
        ) == product6(m, a, b, row, col)
}

/// The arithmetic does not round, and is that of space.
pub open spec fn exact<N: Numerics>(n: &N, m: Meaning) -> bool {
    &&& constants_exact(m)
    &&& turns_lawful(m)
    &&& numbers_exact(n, m)
    &&& singles_exact(n, m)
    &&& vectors_exact(n, m)
    &&& rotations_exact(n, m)
    &&& poses_exact(n, m)
    &&& blocks_exact(n, m)
    &&& products_exact(n, m)
}

} // verus!
