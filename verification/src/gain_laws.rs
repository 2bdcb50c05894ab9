//! What the filter's matrices do, where arithmetic does not round.

use vstd::prelude::*;

use crate::camera_laws::lemma_commutes;
use crate::eskf::{corrected_by, freed_of, grown_by, injected, innovation_by, noise_block};
use crate::eskf::{spec_dim, square_of, transition_blocks, updated_by, variance_block};
use crate::eskf::{CorrectionTrace, FilterView, GrowthTrace, ImuBias, InnovationTrace};
use crate::eskf::{MeasuredMatrices, MotionTrace, RowView, TransitionTrace, UpdateTrace};
use crate::exact::{constants_exact, exact, Meaning, Vec3};
use crate::exact_laws::{lemma_times_one, lemma_times_zero, lemma_zero_stays};
use crate::filter_laws::{lemma_opposite_factor, lemma_skew};
use crate::numerics::Numerics;
use crate::scalar::Scalar;
use crate::types::{spec_skew, Matrix3, Quaternion, Vector3};

verus! {

/// Matrices as linear maps on the columns of some space: what a matrix does to a column, what it
/// does with rows and columns exchanged, and how columns add up, entry by entry.
#[verifier::reject_recursive_types(M)]
#[verifier::reject_recursive_types(C)]
pub struct Maps<M, C> {
    pub does: spec_fn(M, C) -> C,
    pub back: spec_fn(M, C) -> C,
    pub sum: spec_fn(C, C) -> C,
    pub difference: spec_fn(C, C) -> C,
    pub entry: spec_fn(C, int) -> real,
}

impl<M, C> Maps<M, C> {
    /// What a matrix does to a column.
    pub open spec fn acts(self, a: M, v: C) -> C {
        (self.does)(a, v)
    }

    /// What a matrix does to a column, with rows and columns exchanged.
    pub open spec fn backs(self, a: M, v: C) -> C {
        (self.back)(a, v)
    }

    pub open spec fn plus(self, u: C, v: C) -> C {
        (self.sum)(u, v)
    }

    pub open spec fn minus(self, u: C, v: C) -> C {
        (self.difference)(u, v)
    }

    pub open spec fn at(self, u: C, i: int) -> real {
        (self.entry)(u, i)
    }

    /// Columns add up entry by entry, and matrices are linear.
    pub open spec fn lawful(self) -> bool {
        &&& forall|u: C, v: C, i: int| #[trigger]
            self.at(self.plus(u, v), i) == self.at(u, i) + self.at(v, i)
        &&& forall|u: C, v: C, i: int| #[trigger]
            self.at(self.minus(u, v), i) == self.at(u, i) - self.at(v, i)
        &&& forall|a: M, u: C, v: C| #[trigger]
            self.acts(a, self.plus(u, v)) == self.plus(self.acts(a, u), self.acts(a, v))
        &&& forall|a: M, u: C, v: C| #[trigger]
            self.acts(a, self.minus(u, v)) == self.minus(self.acts(a, u), self.acts(a, v))
    }
}

/// Arithmetic on matrices is that of linear maps.
pub open spec fn maps_exact<N: Numerics, C>(n: &N, k: Maps<N::Matrix, C>) -> bool {
    &&& k.lawful()
    &&& forall|a: N::Matrix, b: N::Matrix, r: N::Matrix, v: C|
        #![trigger call_ensures(N::matrix_times, (n, &a, &b), r), k.acts(r, v)]
        call_ensures(N::matrix_times, (n, &a, &b), r) ==> k.acts(r, v) == k.acts(a, k.acts(b, v))
    &&& forall|a: N::Matrix, b: N::Matrix, r: N::Matrix, v: C|
        #![trigger call_ensures(N::matrix_times, (n, &a, &b), r), k.backs(r, v)]
        call_ensures(N::matrix_times, (n, &a, &b), r) ==> k.backs(r, v) == k.backs(
            b,
            k.backs(a, v),
        )
    &&& forall|a: N::Matrix, b: N::Matrix, r: N::Matrix, v: C|
        #![trigger call_ensures(N::matrix_plus, (n, &a, &b), r), k.acts(r, v)]
        call_ensures(N::matrix_plus, (n, &a, &b), r) ==> k.acts(r, v) == k.plus(
            k.acts(a, v),
            k.acts(b, v),
        )
    &&& forall|a: N::Matrix, b: N::Matrix, r: N::Matrix, v: C|
        #![trigger call_ensures(N::matrix_minus, (n, &a, &b), r), k.acts(r, v)]
        call_ensures(N::matrix_minus, (n, &a, &b), r) ==> k.acts(r, v) == k.minus(
            k.acts(a, v),
            k.acts(b, v),
        )
    &&& forall|a: N::Matrix, b: N::Matrix, r: N::Matrix, v: C|
        #![trigger call_ensures(N::matrix_minus, (n, &a, &b), r), k.backs(r, v)]
        call_ensures(N::matrix_minus, (n, &a, &b), r) ==> k.backs(r, v) == k.minus(
            k.backs(a, v),
            k.backs(b, v),
        )
    &&& forall|a: N::Matrix, r: N::Matrix, v: C|
        #![trigger call_ensures(N::transposed, (n, &a), r), k.acts(r, v)]
        call_ensures(N::transposed, (n, &a), r) ==> k.acts(r, v) == k.backs(a, v)
    &&& forall|a: N::Matrix, r: N::Matrix, v: C|
        #![trigger call_ensures(N::inverted, (n, &a), Some(r)), k.acts(r, k.acts(a, v))]
        call_ensures(N::inverted, (n, &a), Some(r)) ==> k.acts(r, k.acts(a, v)) == v
    &&& forall|dim: usize, r: N::Matrix, v: C|
        #![trigger square_of(n, dim, Seq::empty(), true, r), k.acts(r, v)]
        square_of(n, dim, Seq::empty(), true, r) ==> k.acts(r, v) == v
    &&& forall|dim: usize, r: N::Matrix, v: C|
        #![trigger square_of(n, dim, Seq::empty(), true, r), k.backs(r, v)]
        square_of(n, dim, Seq::empty(), true, r) ==> k.backs(r, v) == v
}

/// The spread of what is measured: the estimate's as the measurement sees it, and the
/// measurement's own.
pub open spec fn spread<M, C>(k: Maps<M, C>, jacobian: M, p: M, noise: M, v: C) -> C {
    k.plus(k.acts(jacobian, k.acts(p, k.backs(jacobian, v))), k.acts(noise, v))
}

/// Law: a correction is by the best gain. Weighted by the gain, the spread of what is measured is
/// what the measurement and the estimate have in common; the correction is the gain on the
/// residual; and the covariance loses just what the measurement has explained.
pub proof fn law_correction_is_by_the_best_gain<N: Numerics, C>(
    n: &N,
    k: Maps<N::Matrix, C>,
    p: N::Matrix,
    dim: usize,
    z: MeasuredMatrices<N::Matrix>,
    innovation: InnovationTrace<N::Matrix>,
    inverse: N::Matrix,
    t: CorrectionTrace<N::Matrix>,
    after: N::Matrix,
    v: C,
    i: int,
)
    requires
        maps_exact(n, k),
        innovation_by(n, p, z, innovation, Some(inverse)),
        corrected_by(n, p, dim, z, innovation.jt, inverse, t, after),
    ensures
        k.acts(t.gain, spread(k, z.jacobian, p, z.noise, v)) == k.acts(
            p,
            k.backs(z.jacobian, v),
        ),
        k.acts(t.dx, v) == k.acts(t.gain, k.acts(z.residual, v)),
        k.at(k.acts(after, v), i) == k.at(k.acts(p, v), i) - k.at(
            k.acts(t.gain, k.acts(z.jacobian, k.acts(p, v))),
            i,
        ),
{
    lemma_gain(n, k, p, dim, z, innovation, inverse, t, after, v);
    let w = k.backs(t.gain, v);
    lemma_gain(n, k, p, dim, z, innovation, inverse, t, after, w);
    let jw = k.backs(z.jacobian, w);
    // The turned left side: v less what the measurement explains.
    assert(k.acts(t.left_t, v) == k.backs(t.left, v));
    assert(k.backs(t.left, v) == k.minus(k.backs(t.identity, v), k.backs(t.kj, v)));
    assert(k.backs(t.identity, v) == v);
    assert(k.backs(t.kj, v) == jw);
    let x = k.minus(v, jw);
    assert(k.acts(t.left_t, v) == x);
    let px = k.acts(p, x);
    let (pv, pj) = (k.acts(p, v), k.acts(p, jw));
    assert(px == k.minus(pv, pj));
    assert(k.acts(t.lpl, v) == k.acts(t.lp, x));
    assert(k.acts(t.lp, x) == k.acts(t.left, px));
    assert(k.acts(t.left, px) == k.minus(k.acts(t.identity, px), k.acts(t.kj, px)));
    assert(k.acts(t.identity, px) == px);
    assert(k.acts(t.kj, px) == k.acts(t.gain, k.acts(z.jacobian, px)));
    let (a, b) = (k.acts(z.jacobian, pv), k.acts(z.jacobian, pj));
    assert(k.acts(z.jacobian, px) == k.minus(a, b));
    assert(k.acts(t.gain, k.minus(a, b)) == k.minus(k.acts(t.gain, a), k.acts(t.gain, b)));
    assert(k.acts(t.krk, v) == k.acts(t.kr, k.acts(t.kt, v)));
    assert(k.acts(t.kt, v) == w);
    let r = k.acts(z.noise, w);
    assert(k.acts(t.kr, w) == k.acts(t.gain, r));
    assert(k.acts(t.gain, k.plus(b, r)) == k.plus(k.acts(t.gain, b), k.acts(t.gain, r)));
    assert(k.acts(t.gain, k.plus(b, r)) == pj);
    assert(k.acts(after, v) == k.plus(k.acts(t.lpl, v), k.acts(t.krk, v)));
    let (ga, gb, gr) = (k.acts(t.gain, a), k.acts(t.gain, b), k.acts(t.gain, r));
    assert(k.at(pj, i) == k.at(gb, i) + k.at(gr, i));
    assert(k.at(px, i) == k.at(pv, i) - k.at(pj, i));
    assert(k.at(k.minus(ga, gb), i) == k.at(ga, i) - k.at(gb, i));
    assert(k.at(k.minus(px, k.minus(ga, gb)), i) == k.at(px, i) - k.at(k.minus(ga, gb), i));
    assert(k.at(k.plus(k.minus(px, k.minus(ga, gb)), gr), i) == k.at(
        k.minus(px, k.minus(ga, gb)),
        i,
    ) + k.at(gr, i));
}

proof fn lemma_gain<N: Numerics, C>(
    n: &N,
    k: Maps<N::Matrix, C>,
    p: N::Matrix,
    dim: usize,
    z: MeasuredMatrices<N::Matrix>,
    innovation: InnovationTrace<N::Matrix>,
    inverse: N::Matrix,
    t: CorrectionTrace<N::Matrix>,
    after: N::Matrix,
    v: C,
)
    requires
        maps_exact(n, k),
        innovation_by(n, p, z, innovation, Some(inverse)),
        corrected_by(n, p, dim, z, innovation.jt, inverse, t, after),
    ensures
        k.acts(t.gain, spread(k, z.jacobian, p, z.noise, v)) == k.acts(
            p,
            k.backs(z.jacobian, v),
        ),
        k.acts(t.dx, v) == k.acts(t.gain, k.acts(z.residual, v)),
{
    let jv = k.backs(z.jacobian, v);
    assert(k.acts(innovation.jt, v) == jv);
    assert(k.acts(innovation.jpj, v) == k.acts(innovation.jp, k.acts(innovation.jt, v)));
    assert(k.acts(innovation.jp, jv) == k.acts(z.jacobian, k.acts(p, jv)));
    let s = k.acts(innovation.innovation, v);
    assert(s == k.plus(k.acts(innovation.jpj, v), k.acts(z.noise, v)));
    assert(s == spread(k, z.jacobian, p, z.noise, v));
    assert(k.acts(t.gain, s) == k.acts(t.pj, k.acts(inverse, s)));
    assert(k.acts(inverse, k.acts(innovation.innovation, v)) == v);
    assert(k.acts(t.pj, v) == k.acts(p, k.acts(innovation.jt, v)));
}

/// Law: an update that is taken corrects by the best gain, and one that is not taken changes
/// nothing. The correction is put into the state as it is.
pub proof fn law_update_is_the_best_correction_or_none<N: Numerics, C>(
    n: &N,
    k: Maps<N::Matrix, C>,
    before: FilterView<N::Matrix>,
    rows: Seq<RowView>,
    gate: Scalar,
    t: UpdateTrace<N::Matrix>,
    after: FilterView<N::Matrix>,
    accepted: bool,
    v: C,
    i: int,
)
    requires
        maps_exact(n, k),
        updated_by(n, before, rows, gate, t, after, accepted),
    ensures
        !accepted ==> after == before,
        accepted ==> {
            let p = before.p_cov;
            let gain = t.correction.gain;
            &&& k.acts(gain, spread(k, t.m.jacobian, p, t.m.noise, v)) == k.acts(
                p,
                k.backs(t.m.jacobian, v),
            )
            &&& k.at(k.acts(after.p_cov, v), i) == k.at(k.acts(p, v), i) - k.at(
                k.acts(gain, k.acts(t.m.jacobian, k.acts(p, v))),
                i,
            )
            &&& k.acts(t.correction.dx, v) == k.acts(gain, k.acts(t.m.residual, v))
            &&& injected(n, before.x, t.correction.dx, after.x)
        },
{
    if accepted {
        law_correction_is_by_the_best_gain(
            n,
            k,
            before.p_cov,
            spec_dim(before.x.biases.len() as int) as usize,
            t.m,
            t.innovation,
            t.inverse->0,
            t.correction,
            after.p_cov,
            v,
            i,
        );
    }
}

/// Law: the covariance after an interval is that of the errors that the interval carries on, and
/// of the noise that it adds.
pub proof fn law_covariance_is_carried_on<N: Numerics, C>(
    n: &N,
    k: Maps<N::Matrix, C>,
    before: N::Matrix,
    t: GrowthTrace<N::Matrix>,
    after: N::Matrix,
    v: C,
    i: int,
)
    requires
        maps_exact(n, k),
        grown_by(n, before, t, after),
    ensures
        k.at(k.acts(after, v), i) == k.at(k.acts(t.f, k.acts(before, k.backs(t.f, v))), i) + k.at(
            k.acts(t.noise, v),
            i,
        ),
{
    assert(k.acts(t.ft, v) == k.backs(t.f, v));
    assert(k.acts(t.carried, v) == k.acts(t.fp, k.acts(t.ft, v)));
    assert(k.acts(t.fp, k.backs(t.f, v)) == k.acts(t.f, k.acts(before, k.backs(t.f, v))));
    assert(k.acts(after, v) == k.plus(k.acts(t.carried, v), k.acts(t.noise, v)));
}

proof fn lemma_identity(m: Meaning, v: Vec3)
    requires
        constants_exact(m),
    ensures
        m.on(Matrix3::identity(), v) == v,
{
    lemma_times_zero(0real, v.x);
    lemma_times_zero(0real, v.y);
    lemma_times_zero(0real, v.z);
    lemma_times_one(1real, v.x);
    lemma_times_one(1real, v.y);
    lemma_times_one(1real, v.z);
}

proof fn lemma_opposite_on(m: Meaning, a: Matrix3, v: Vec3)
    requires
        constants_exact(m),
    ensures
        m.on(a.opposite(), v) == Vec3::zero().minus(m.on(a, v)),
{
    lemma_opposite_dot(m, a.first, v);
    lemma_opposite_dot(m, a.second, v);
    lemma_opposite_dot(m, a.third, v);
}

proof fn lemma_opposite_dot(m: Meaning, a: Vector3, v: Vec3)
    requires
        constants_exact(m),
    ensures
        m.vec(a.opposite()).dot(v) == 0real - m.vec(a).dot(v),
{
    let w = m.vec(a);
    lemma_opposite_factor(w.x, v.x);
    lemma_opposite_factor(w.y, v.y);
    lemma_opposite_factor(w.z, v.z);
}

/// Law: the linearised motion is that of the dead reckoning. An error of the velocity goes on as
/// way; one of the accelerometer's bias takes its part off the velocity that is gained; one of the
/// attitude turns the force that was felt; the attitude's own error is turned back by the rate; and
/// one of the gyro's bias takes its part off the turn.
pub proof fn law_transition_is_the_motion_of_an_error<N: Numerics>(
    n: &N,
    m: Meaning,
    q: Quaternion,
    bias: ImuBias,
    gravity: Scalar,
    gyro: Vector3,
    accel: Vector3,
    t: MotionTrace,
    dt: Scalar,
    b: TransitionTrace,
    e: Vec3,
)
    requires
        exact(n, m),
        freed_of(n, q, bias, gravity, gyro, accel, t),
        transition_blocks(n, t, dt, b),
    ensures
        ({
            let force = m.vec(accel).minus(m.vec(bias.accel));
            let rate = m.vec(gyro).minus(m.vec(bias.gyro));
            let k = m.num(dt);
            &&& m.on(b.travel, e) == e.scaled(k)
            &&& m.on(b.sensed, e) == m.turn(q, force.minus(e)).minus(m.turn(q, force)).scaled(k)
            &&& m.on(b.tilt, e) == m.turn(q, e.cross(force)).scaled(k)
            &&& m.on(b.kept, e) == e.minus(rate.cross(e).scaled(k))
            &&& m.on(b.drifted, e) == Vec3::zero().minus(e).scaled(k)
        }),
{
    let force = m.vec(t.free_accel);
    let rate = m.vec(t.free_gyro);
    let k = m.num(dt);
    lemma_identity(m, e);
    lemma_opposite_on(m, Matrix3::identity(), e);
    lemma_opposite_on(m, t.rotation, e);
    lemma_opposite_on(m, b.lever, e);
    lemma_skew(m, t.free_accel, e);
    lemma_skew(m, t.free_gyro, e);
    assert(m.on(b.travel, e) == m.on(Matrix3::identity(), e).scaled(k));
    assert(m.on(b.drifted, e) == m.on(Matrix3::identity().opposite(), e).scaled(k));
    assert(m.on(b.sensed, e) == m.on(t.rotation.opposite(), e).scaled(k));
    assert(m.on(t.rotation, e) == m.turn(q, e));
    assert(m.turns_differences(q, force, e));
    assert(m.turn(q, force).minus(m.turn(q, e)).minus(m.turn(q, force)) == Vec3::zero().minus(
        m.turn(q, e),
    ));
    assert(m.on(b.lever, e) == m.on(t.rotation, m.on(spec_skew(t.free_accel), e)));
    assert(m.on(t.rotation, force.cross(e)) == m.turn(q, force.cross(e)));
    assert(m.on(b.tilt, e) == m.on(b.lever.opposite(), e).scaled(k));
    assert(e.cross(force) == Vec3::zero().minus(force.cross(e))) by {
        lemma_commutes(e.x, force.y);
        lemma_commutes(e.x, force.z);
        lemma_commutes(e.y, force.x);
        lemma_commutes(e.y, force.z);
        lemma_commutes(e.z, force.x);
        lemma_commutes(e.z, force.y);
    }
    assert(m.turns_differences(q, Vec3::zero(), force.cross(e)));
    lemma_zero_stays(m, q);
    assert(m.on(b.swing, e) == m.on(spec_skew(t.free_gyro), e).scaled(k));
    assert(m.on(b.kept, e) == m.on(Matrix3::identity(), e).minus(m.on(b.swing, e)));
}

/// Law: a figure's block spreads every direction alike, by the figure's square; over an interval,
/// by as much as the interval is long.
pub proof fn law_noise_is_the_squared_figure_over_the_interval<N: Numerics>(
    n: &N,
    m: Meaning,
    figure: Scalar,
    dt: Scalar,
    variance: Matrix3,
    block: Matrix3,
    e: Vec3,
)
    requires
        exact(n, m),
        variance_block(n, figure, variance),
        noise_block(n, figure, dt, block),
    ensures
        m.on(variance, e) == e.scaled(m.num(figure)).scaled(m.num(figure)),
        m.on(block, e) == e.scaled(m.num(figure)).scaled(m.num(figure)).scaled(m.num(dt)),
{
    lemma_identity(m, e);
    lemma_variance(n, m, figure, variance, e);
    let other = choose|other: Matrix3|
        {
            &&& variance_block(n, figure, other)
            &&& #[trigger] call_ensures(N::matrix3_scaled, (n, &other, dt), block)
        };
    lemma_variance(n, m, figure, other, e);
    assert(m.on(block, e) == m.on(other, e).scaled(m.num(dt)));
}

proof fn lemma_variance<N: Numerics>(
    n: &N,
    m: Meaning,
    figure: Scalar,
    variance: Matrix3,
    e: Vec3,
)
    requires
        exact(n, m),
        variance_block(n, figure, variance),
    ensures
        m.on(variance, e) == e.scaled(m.num(figure)).scaled(m.num(figure)),
{
    lemma_identity(m, e);
    let once = choose|once: Matrix3|
        {
            &&& call_ensures(N::matrix3_scaled, (n, &Matrix3::identity(), figure), once)
            &&& #[trigger] call_ensures(N::matrix3_scaled, (n, &once, figure), variance)
        };
    assert(m.on(once, e) == m.on(Matrix3::identity(), e).scaled(m.num(figure)));
    assert(m.on(variance, e) == m.on(once, e).scaled(m.num(figure)));
}

} // verus!
