//! Formulas, steps and buffers of steps repeat bit for bit.
//!
//! [`repeatable`] says what that takes of the arithmetic: the same values give the same results.

use vstd::prelude::*;

use crate::eskf::{diagonal_of, injected, jacobian_laid_out, laid_out, measurement_of};
use crate::eskf::{noise_block, noise_blocks, noises_of, process_noise_of, propagated};
use crate::eskf::{propagated_by, residuals_laid_out, shifted, spec_dim, square_of, three_rows_of};
use crate::eskf::{transition_blocks, transition_of, transition_placed, updated, updated_by};
use crate::eskf::{variance_block, variances_laid_out, variances_of, Block, FilterView};
use crate::eskf::{GrowthTrace, MeasuredMatrices, MotionTrace, Placed, RowView, StateView};
use crate::eskf::{TransitionTrace, UpdateTrace};
use crate::estimator::{active, anchored, applied, applied_by, blended, first_delta, fused};
use crate::estimator::{moved_by_share, pose_of, share_of, shares_of, stepped, target_rows};
use crate::estimator::{totalled, twist_fused_by, twist_rows, twist_seen, weight_of, ApplyTrace};
use crate::estimator::{Constants, EventKind, Measurement, Memory, SourceActivity, StepRules};
use crate::estimator::SOURCE_ACTIVITY_TIMEOUT_NS;
use crate::formulas::{body_motion_of, into_body_of, leveled_by, leveled_of, nanoseconds_of};
use crate::formulas::{nudged_by, nudged_of, period_of, pose_residual_of, seconds_of, smoothed_by};
use crate::formulas::{smoothed_of, turn_of, without_lever_by, without_lever_of, AlphaTrace};
use crate::formulas::{BodyMotion, LevelTrace, Leveling, LeverTrace, NudgeTrace};
use crate::fusion_model::{chained, linked, log_of, replayed_from, EventView};
use crate::numerics::Numerics;
use crate::scalar::{Scalar, Single};
use crate::stamp::{span, NS_PER_SEC};
use crate::types::{Matrix3, Matrix6, Pose, Quaternion, Six, Vector3};

verus! {

/// Arithmetic on numbers gives one result on given ones.
pub open spec fn numbers_repeat<N: Numerics>(n: &N) -> bool {
    &&& forall|a: Scalar, b: Scalar, r: Scalar, s: Scalar|
        #[trigger] call_ensures(N::sum, (n, a, b), r)
            && #[trigger] call_ensures(N::sum, (n, a, b), s) ==> r == s
    &&& forall|a: Scalar, b: Scalar, r: Scalar, s: Scalar|
        #[trigger] call_ensures(N::difference, (n, a, b), r)
            && #[trigger] call_ensures(N::difference, (n, a, b), s) ==> r == s
    &&& forall|a: Scalar, b: Scalar, r: Scalar, s: Scalar|
        #[trigger] call_ensures(N::times, (n, a, b), r)
            && #[trigger] call_ensures(N::times, (n, a, b), s) ==> r == s
    &&& forall|a: Scalar, b: Scalar, r: Scalar, s: Scalar|
        #[trigger] call_ensures(N::ratio, (n, a, b), r)
            && #[trigger] call_ensures(N::ratio, (n, a, b), s) ==> r == s
    &&& forall|a: Scalar, r: Scalar, s: Scalar|
        #[trigger] call_ensures(N::sqrt, (n, a), r)
            && #[trigger] call_ensures(N::sqrt, (n, a), s) ==> r == s
    &&& forall|a: Scalar, r: Scalar, s: Scalar|
        #[trigger] call_ensures(N::exp, (n, a), r)
            && #[trigger] call_ensures(N::exp, (n, a), s) ==> r == s
    &&& forall|a: i64, r: Scalar, s: Scalar|
        #[trigger] call_ensures(N::from_int, (n, a), r)
            && #[trigger] call_ensures(N::from_int, (n, a), s) ==> r == s
    &&& forall|a: Scalar, r: i64, s: i64|
        #[trigger] call_ensures(N::to_i64, (n, a), r)
            && #[trigger] call_ensures(N::to_i64, (n, a), s) ==> r == s
    &&& forall|a: Single, r: Scalar, s: Scalar|
        #[trigger] call_ensures(N::widen, (n, a), r)
            && #[trigger] call_ensures(N::widen, (n, a), s) ==> r == s
}

/// Arithmetic on vectors gives one result on given ones.
pub open spec fn vectors_repeat<N: Numerics>(n: &N) -> bool {
    &&& forall|a: Vector3, b: Vector3, r: Vector3, s: Vector3|
        #[trigger] call_ensures(N::plus, (n, &a, &b), r)
            && #[trigger] call_ensures(N::plus, (n, &a, &b), s) ==> r == s
    &&& forall|a: Vector3, b: Vector3, r: Vector3, s: Vector3|
        #[trigger] call_ensures(N::minus, (n, &a, &b), r)
            && #[trigger] call_ensures(N::minus, (n, &a, &b), s) ==> r == s
    &&& forall|v: Vector3, k: Scalar, r: Vector3, s: Vector3|
        #[trigger] call_ensures(N::scaled, (n, &v, k), r)
            && #[trigger] call_ensures(N::scaled, (n, &v, k), s) ==> r == s
    &&& forall|v: Vector3, k: Scalar, r: Vector3, s: Vector3|
        #[trigger] call_ensures(N::divided, (n, &v, k), r)
            && #[trigger] call_ensures(N::divided, (n, &v, k), s) ==> r == s
    &&& forall|a: Vector3, b: Vector3, r: Vector3, s: Vector3|
        #[trigger] call_ensures(N::cross, (n, &a, &b), r)
            && #[trigger] call_ensures(N::cross, (n, &a, &b), s) ==> r == s
    &&& forall|v: Vector3, r: Scalar, s: Scalar|
        #[trigger] call_ensures(N::norm, (n, &v), r)
            && #[trigger] call_ensures(N::norm, (n, &v), s) ==> r == s
}

/// Arithmetic on rotations and transforms gives one result on given ones.
pub open spec fn rotations_repeat<N: Numerics>(n: &N) -> bool {
    &&& forall|q: Quaternion, r: Quaternion, s: Quaternion|
        #[trigger] call_ensures(N::normalized, (n, &q), r)
            && #[trigger] call_ensures(N::normalized, (n, &q), s) ==> r == s
    &&& forall|q: Quaternion, v: Vector3, r: Vector3, s: Vector3|
        #[trigger] call_ensures(N::rotate, (n, &q, &v), r)
            && #[trigger] call_ensures(N::rotate, (n, &q, &v), s) ==> r == s
    &&& forall|q: Quaternion, v: Vector3, r: Vector3, s: Vector3|
        #[trigger] call_ensures(N::inverse_rotate, (n, &q, &v), r)
            && #[trigger] call_ensures(N::inverse_rotate, (n, &q, &v), s) ==> r == s
    &&& forall|a: Quaternion, b: Quaternion, r: Quaternion, s: Quaternion|
        #[trigger] call_ensures(N::turned, (n, &a, &b), r)
            && #[trigger] call_ensures(N::turned, (n, &a, &b), s) ==> r == s
    &&& forall|v: Vector3, r: Quaternion, s: Quaternion|
        #[trigger] call_ensures(N::from_scaled_axis, (n, &v), r)
            && #[trigger] call_ensures(N::from_scaled_axis, (n, &v), s) ==> r == s
    &&& forall|q: Quaternion, r: Vector3, s: Vector3|
        #[trigger] call_ensures(N::scaled_axis, (n, &q), r)
            && #[trigger] call_ensures(N::scaled_axis, (n, &q), s) ==> r == s
    &&& forall|a: Vector3, b: Vector3, r: Option<Quaternion>, s: Option<Quaternion>|
        #[trigger] call_ensures(N::rotation_between, (n, &a, &b), r)
            && #[trigger] call_ensures(N::rotation_between, (n, &a, &b), s) ==> r == s
    &&& forall|a: Quaternion, b: Quaternion, r: Scalar, s: Scalar|
        #[trigger] call_ensures(N::angle_between, (n, &a, &b), r)
            && #[trigger] call_ensures(N::angle_between, (n, &a, &b), s) ==> r == s
    &&& forall|q: Quaternion, r: Matrix3, s: Matrix3|
        #[trigger] call_ensures(N::rotation_matrix, (n, &q), r)
            && #[trigger] call_ensures(N::rotation_matrix, (n, &q), s) ==> r == s
    &&& forall|a: Pose, b: Pose, r: Pose, s: Pose|
        #[trigger] call_ensures(N::compose, (n, &a, &b), r)
            && #[trigger] call_ensures(N::compose, (n, &a, &b), s) ==> r == s
    &&& forall|a: Pose, r: Pose, s: Pose|
        #[trigger] call_ensures(N::inverse, (n, &a), r)
            && #[trigger] call_ensures(N::inverse, (n, &a), s) ==> r == s
}

/// Arithmetic on three by three matrices gives one result on given ones.
pub open spec fn blocks_repeat<N: Numerics>(n: &N) -> bool {
    &&& forall|a: Matrix3, b: Matrix3, r: Matrix3, s: Matrix3|
        #[trigger] call_ensures(N::matrix3_times, (n, &a, &b), r)
            && #[trigger] call_ensures(N::matrix3_times, (n, &a, &b), s) ==> r == s
    &&& forall|a: Matrix3, b: Matrix3, r: Matrix3, s: Matrix3|
        #[trigger] call_ensures(N::matrix3_minus, (n, &a, &b), r)
            && #[trigger] call_ensures(N::matrix3_minus, (n, &a, &b), s) ==> r == s
    &&& forall|m: Matrix3, k: Scalar, r: Matrix3, s: Matrix3|
        #[trigger] call_ensures(N::matrix3_scaled, (n, &m, k), r)
            && #[trigger] call_ensures(N::matrix3_scaled, (n, &m, k), s) ==> r == s
    &&& forall|m: Matrix3, v: Vector3, r: Vector3, s: Vector3|
        #[trigger] call_ensures(N::matrix3_apply, (n, &m, &v), r)
            && #[trigger] call_ensures(N::matrix3_apply, (n, &m, &v), s) ==> r == s
}

/// Arithmetic on matrices gives one result on given ones.
pub open spec fn matrices_repeat<N: Numerics>(n: &N) -> bool {
    &&& forall|m: N::Matrix, i: usize, j: usize, r: Scalar, s: Scalar|
        #[trigger] call_ensures(N::entry, (n, &m, i, j), r)
            && #[trigger] call_ensures(N::entry, (n, &m, i, j), s) ==> r == s
    &&& forall|a: N::Matrix, b: N::Matrix, r: N::Matrix, s: N::Matrix|
        #[trigger] call_ensures(N::matrix_times, (n, &a, &b), r)
            && #[trigger] call_ensures(N::matrix_times, (n, &a, &b), s) ==> r == s
    &&& forall|a: N::Matrix, b: N::Matrix, r: N::Matrix, s: N::Matrix|
        #[trigger] call_ensures(N::matrix_plus, (n, &a, &b), r)
            && #[trigger] call_ensures(N::matrix_plus, (n, &a, &b), s) ==> r == s
    &&& forall|a: N::Matrix, b: N::Matrix, r: N::Matrix, s: N::Matrix|
        #[trigger] call_ensures(N::matrix_minus, (n, &a, &b), r)
            && #[trigger] call_ensures(N::matrix_minus, (n, &a, &b), s) ==> r == s
    &&& forall|m: N::Matrix, r: N::Matrix, s: N::Matrix|
        #[trigger] call_ensures(N::transposed, (n, &m), r)
            && #[trigger] call_ensures(N::transposed, (n, &m), s) ==> r == s
    &&& forall|m: N::Matrix, r: Option<N::Matrix>, s: Option<N::Matrix>|
        #[trigger] call_ensures(N::inverted, (n, &m), r)
            && #[trigger] call_ensures(N::inverted, (n, &m), s) ==> r == s
    &&& forall|i: usize, j: usize, a: Vec<Scalar>, b: Vec<Scalar>, r: N::Matrix, s: N::Matrix|
        a@ == b@ && #[trigger] call_ensures(N::matrix, (n, i, j, &a), r)
            && #[trigger] call_ensures(N::matrix, (n, i, j, &b), s) ==> r == s
    &&& forall|a: Matrix6, b: Matrix6, c: Matrix6, d: Matrix6, r: Matrix6, s: Matrix6|
        a.entries@ == c.entries@ && b.entries@ == d.entries@ && #[trigger] call_ensures(
            N::matrix6_times,
            (n, &a, &b),
            r,
        ) && #[trigger] call_ensures(N::matrix6_times, (n, &c, &d), s) ==> r.entries@ == s.entries@
}

/// The arithmetic is repeatable: the same values give the same results.
pub open spec fn repeatable<N: Numerics>(n: &N) -> bool {
    &&& numbers_repeat(n)
    &&& vectors_repeat(n)
    &&& rotations_repeat(n)
    &&& blocks_repeat(n)
    &&& matrices_repeat(n)
}

pub proof fn lemma_seconds_repeats<N: Numerics>(
    n: &N,
    dt_ns: i64,
    a: Scalar,
    b: Scalar,
)
    requires
        repeatable(n),
        seconds_of(n, dt_ns, a),
        seconds_of(n, dt_ns, b),
    ensures
        a == b,
{
}

pub proof fn lemma_nanoseconds_repeats<N: Numerics>(
    n: &N,
    seconds: Scalar,
    a: i64,
    b: i64,
)
    requires
        repeatable(n),
        nanoseconds_of(n, seconds, a),
        nanoseconds_of(n, seconds, b),
    ensures
        a == b,
{
}

pub proof fn lemma_period_repeats<N: Numerics>(
    n: &N,
    rate: Scalar,
    a: i64,
    b: i64,
)
    requires
        repeatable(n),
        period_of(n, rate, a),
        period_of(n, rate, b),
    ensures
        a == b,
{
}

pub proof fn lemma_smoothing_repeats<N: Numerics>(
    n: &N,
    alpha: Vector3,
    gyro: Vector3,
    last_gyro: Vector3,
    dt_ns: i64,
    a: Vector3,
    b: Vector3,
)
    requires
        repeatable(n),
        smoothed_of(n, alpha, gyro, last_gyro, dt_ns, a),
        smoothed_of(n, alpha, gyro, last_gyro, dt_ns, b),
    ensures
        a == b,
{
    let s = choose|t: AlphaTrace| #[trigger] smoothed_by(n, alpha, gyro, last_gyro, dt_ns, t, a);
    let t = choose|t: AlphaTrace| #[trigger] smoothed_by(n, alpha, gyro, last_gyro, dt_ns, t, b);
    lemma_seconds_repeats(n, dt_ns, s.dt, t.dt);
    assert(s.change == t.change);
    assert(s.raw == t.raw);
    assert(s.exponent == t.exponent);
    assert(s.decay == t.decay);
    assert(s.blend == t.blend);
    assert(s.ahead == t.ahead);
    assert(s.step == t.step);
}

pub proof fn lemma_lever_repeats<N: Numerics>(
    n: &N,
    accel: Vector3,
    gyro: Vector3,
    alpha: Vector3,
    lever: Vector3,
    a: Vector3,
    b: Vector3,
)
    requires
        repeatable(n),
        without_lever_of(n, accel, gyro, alpha, lever, a),
        without_lever_of(n, accel, gyro, alpha, lever, b),
    ensures
        a == b,
{
    let s = choose|t: LeverTrace| #[trigger] without_lever_by(n, accel, gyro, alpha, lever, t, a);
    let t = choose|t: LeverTrace| #[trigger] without_lever_by(n, accel, gyro, alpha, lever, t, b);
    assert(s.inner == t.inner);
    assert(s.centripetal == t.centripetal);
    assert(s.tangential == t.tangential);
    assert(s.both == t.both);
}

pub proof fn lemma_leveling_repeats<N: Numerics>(
    n: &N,
    accel_sum: Vector3,
    gyro_sum: Vector3,
    samples: i64,
    gravity: Scalar,
    a: Leveling,
    b: Leveling,
)
    requires
        repeatable(n),
        leveled_of(n, accel_sum, gyro_sum, samples, gravity, a),
        leveled_of(n, accel_sum, gyro_sum, samples, gravity, b),
    ensures
        a == b,
{
    let s = choose|t: LevelTrace| #[trigger]
        leveled_by(n, accel_sum, gyro_sum, samples, gravity, t, a);
    let t = choose|t: LevelTrace| #[trigger]
        leveled_by(n, accel_sum, gyro_sum, samples, gravity, t, b);
    assert(s.count == t.count);
    assert(s.mean_accel == t.mean_accel);
    assert(s.between == t.between);
    assert(s.weight == t.weight);
}

proof fn lemma_turn_repeats<N: Numerics>(
    n: &N,
    q: Quaternion,
    by: Vector3,
    a: Quaternion,
    b: Quaternion,
)
    requires
        repeatable(n),
        turn_of(n, q, by, a),
        turn_of(n, q, by, b),
    ensures
        a == b,
{
}

proof fn lemma_pose_residual_repeats<N: Numerics>(
    n: &N,
    target: Pose,
    position: Vector3,
    q: Quaternion,
    a: Six,
    b: Six,
)
    requires
        repeatable(n),
        pose_residual_of(n, target, position, q, a),
        pose_residual_of(n, target, position, q, b),
    ensures
        a == b,
{
}

pub proof fn lemma_body_motion_repeats<N: Numerics>(
    n: &N,
    q: Quaternion,
    velocity: Vector3,
    a: BodyMotion,
    b: BodyMotion,
)
    requires
        repeatable(n),
        body_motion_of(n, q, velocity, a),
        body_motion_of(n, q, velocity, b),
    ensures
        a == b,
{
}

pub proof fn lemma_into_body_repeats<N: Numerics>(
    n: &N,
    body_from_world: Matrix3,
    m: Matrix3,
    a: Matrix3,
    b: Matrix3,
)
    requires
        repeatable(n),
        into_body_of(n, body_from_world, m, a),
        into_body_of(n, body_from_world, m, b),
    ensures
        a == b,
{
}

proof fn lemma_nudge_repeats<N: Numerics>(
    n: &N,
    position: Vector3,
    q: Quaternion,
    increment: Pose,
    share: Six,
    a: Pose,
    b: Pose,
)
    requires
        repeatable(n),
        nudged_of(n, position, q, increment, share, a),
        nudged_of(n, position, q, increment, share, b),
    ensures
        a == b,
{
    let s = choose|t: NudgeTrace| #[trigger] nudged_by(n, position, q, increment, share, t, a);
    let t = choose|t: NudgeTrace| #[trigger] nudged_by(n, position, q, increment, share, t, b);
    assert(s.step == t.step);
    assert(s.moved == t.moved);
    assert(s.axis == t.axis);
    assert(s.twist == t.twist);
    lemma_turn_repeats(n, q, s.twist, a.rotation, b.rotation);
}

proof fn lemma_variance_block_repeats<N: Numerics>(n: &N, figure: Scalar, a: Matrix3, b: Matrix3)
    requires
        repeatable(n),
        variance_block(n, figure, a),
        variance_block(n, figure, b),
    ensures
        a == b,
{
}

pub proof fn lemma_square_repeats<N: Numerics>(
    n: &N,
    dim: usize,
    placed: Seq<Placed>,
    identity: bool,
    a: N::Matrix,
    b: N::Matrix,
)
    requires
        repeatable(n),
        square_of(n, dim, placed, identity, a),
        square_of(n, dim, placed, identity, b),
    ensures
        a == b,
{
    let x = choose|list: Vec<Scalar>| #[trigger]
        call_ensures(N::matrix, (n, dim, dim, &list), a) && laid_out(
            dim as int,
            placed,
            identity,
            list@,
        );
    let y = choose|list: Vec<Scalar>| #[trigger]
        call_ensures(N::matrix, (n, dim, dim, &list), b) && laid_out(
            dim as int,
            placed,
            identity,
            list@,
        );
    lemma_grid_determined(dim as int, dim as int, x@, y@);
}

/// Entries that agree row by row are the same.
proof fn lemma_grid_determined(rows: int, cols: int, a: Seq<Scalar>, b: Seq<Scalar>)
    requires
        0 <= rows,
        0 <= cols,
        a.len() == rows * cols,
        b.len() == rows * cols,
        forall|row: int, col: int|
            0 <= row < rows && 0 <= col < cols ==> #[trigger] a[row * cols + col] == b[row * cols
                + col],
    ensures
        a == b,
{
    assert forall|k: int| 0 <= k < a.len() implies a[k] == b[k] by {
        assert(cols > 0) by (nonlinear_arith)
            requires
                0 <= k < rows * cols,
                0 <= cols,
        ;
        let row = k / cols;
        let col = k % cols;
        assert(k == row * cols + col && 0 <= col < cols) by (nonlinear_arith)
            requires
                row == k / cols,
                col == k % cols,
                cols > 0,
        ;
        assert(0 <= row < rows) by (nonlinear_arith)
            requires
                k == row * cols + col,
                0 <= col < cols,
                0 <= k < rows * cols,
        ;
        assert(a[row * cols + col] == b[row * cols + col]);
    }
    assert(a =~= b);
}

pub proof fn lemma_diagonal_repeats<N: Numerics>(
    n: &N,
    dim: usize,
    blocks: Seq<Block>,
    a: N::Matrix,
    b: N::Matrix,
)
    requires
        repeatable(n),
        diagonal_of(n, dim, blocks, a),
        diagonal_of(n, dim, blocks, b),
    ensures
        a == b,
{
    let x = choose|placed: Seq<Placed>| #[trigger]
        variances_of(n, blocks, placed) && square_of(n, dim, placed, false, a);
    let y = choose|placed: Seq<Placed>| #[trigger]
        variances_of(n, blocks, placed) && square_of(n, dim, placed, false, b);
    assert forall|i: int| 0 <= i < x.len() implies x[i] == y[i] by {
        lemma_variance_block_repeats(n, blocks[i].figure, x[i].block, y[i].block);
    }
    assert(x =~= y);
    lemma_square_repeats(n, dim, x, false, a, b);
}

proof fn lemma_process_noise_repeats<N: Numerics>(
    n: &N,
    dim: usize,
    blocks: Seq<Block>,
    dt: Scalar,
    a: N::Matrix,
    b: N::Matrix,
)
    requires
        repeatable(n),
        process_noise_of(n, dim, blocks, dt, a),
        process_noise_of(n, dim, blocks, dt, b),
    ensures
        a == b,
{
    let x = choose|placed: Seq<Placed>| #[trigger]
        noises_of(n, blocks, dt, placed) && square_of(n, dim, placed, false, a);
    let y = choose|placed: Seq<Placed>| #[trigger]
        noises_of(n, blocks, dt, placed) && square_of(n, dim, placed, false, b);
    assert forall|i: int| 0 <= i < x.len() implies x[i] == y[i] by {
        let figure = blocks[i].figure;
        assert(noise_block(n, figure, dt, x[i].block));
        assert(noise_block(n, figure, dt, y[i].block));
        lemma_noise_block_repeats(n, figure, dt, x[i].block, y[i].block);
    }
    assert(x =~= y);
    lemma_square_repeats(n, dim, x, false, a, b);
}

proof fn lemma_noise_block_repeats<N: Numerics>(
    n: &N,
    figure: Scalar,
    dt: Scalar,
    a: Matrix3,
    b: Matrix3,
)
    requires
        repeatable(n),
        noise_block(n, figure, dt, a),
        noise_block(n, figure, dt, b),
    ensures
        a == b,
{
    let p = choose|variance: Matrix3|
        {
            &&& variance_block(n, figure, variance)
            &&& #[trigger] call_ensures(N::matrix3_scaled, (n, &variance, dt), a)
        };
    let q = choose|variance: Matrix3|
        {
            &&& variance_block(n, figure, variance)
            &&& #[trigger] call_ensures(N::matrix3_scaled, (n, &variance, dt), b)
        };
    lemma_variance_block_repeats(n, figure, p, q);
}

proof fn lemma_transition_repeats<N: Numerics>(
    n: &N,
    dim: usize,
    imu: int,
    s: MotionTrace,
    t: MotionTrace,
    dt: Scalar,
    a: N::Matrix,
    b: N::Matrix,
)
    requires
        repeatable(n),
        s.rotation == t.rotation,
        s.free_gyro == t.free_gyro,
        s.free_accel == t.free_accel,
        transition_of(n, dim, imu, s, dt, a),
        transition_of(n, dim, imu, t, dt, b),
    ensures
        a == b,
{
    let x = choose|x: TransitionTrace| #[trigger]
        transition_blocks(n, s, dt, x) && square_of(n, dim, transition_placed(imu, x), true, a);
    let y = choose|x: TransitionTrace| #[trigger]
        transition_blocks(n, t, dt, x) && square_of(n, dim, transition_placed(imu, x), true, b);
    assert(x.travel == y.travel);
    assert(x.lever == y.lever);
    assert(x.tilt == y.tilt);
    assert(x.sensed == y.sensed);
    assert(x.swing == y.swing);
    assert(x.kept == y.kept);
    assert(x.drifted == y.drifted);
    lemma_square_repeats(n, dim, transition_placed(imu, x), true, a, b);
}

proof fn lemma_propagation_repeats<N: Numerics>(
    n: &N,
    before: FilterView<N::Matrix>,
    dt: Scalar,
    imu: usize,
    gyro: Vector3,
    accel: Vector3,
    a: FilterView<N::Matrix>,
    b: FilterView<N::Matrix>,
)
    requires
        repeatable(n),
        propagated(n, before, dt, imu, gyro, accel, a),
        propagated(n, before, dt, imu, gyro, accel, b),
    ensures
        a == b,
{
    let (s, g) = choose|m: MotionTrace, g: GrowthTrace<N::Matrix>| #[trigger]
        propagated_by(n, before, dt, imu, gyro, accel, m, g, a);
    let (t, h) = choose|m: MotionTrace, g: GrowthTrace<N::Matrix>| #[trigger]
        propagated_by(n, before, dt, imu, gyro, accel, m, g, b);
    let dim = spec_dim(before.x.biases.len() as int) as usize;
    assert(s.rotation == t.rotation);
    assert(s.free_gyro == t.free_gyro);
    assert(s.free_accel == t.free_accel);
    assert(s.force == t.force);
    assert(s.world_accel == t.world_accel);
    assert(s.drift == t.drift);
    assert(s.half_accel == t.half_accel);
    assert(s.half_gain == t.half_gain);
    assert(s.fall == t.fall);
    assert(s.step == t.step);
    assert(s.gain == t.gain);
    assert(s.spin == t.spin);
    assert(a.x.position == b.x.position);
    assert(a.x.velocity == b.x.velocity);
    lemma_turn_repeats(n, before.x.q, s.spin, a.x.q, b.x.q);
    assert(a.x == b.x);
    lemma_transition_repeats(n, dim, imu as int, s, t, dt, g.f, h.f);
    lemma_process_noise_repeats(
        n,
        dim,
        noise_blocks(imu as int, before.noise),
        dt,
        g.noise,
        h.noise,
    );
    assert(g.fp == h.fp);
    assert(g.ft == h.ft);
    assert(g.carried == h.carried);
    assert(a.p_cov == b.p_cov);
}

proof fn lemma_three_rows_repeat<N: Numerics>(
    n: &N,
    dx: N::Matrix,
    at: usize,
    a: Vector3,
    b: Vector3,
)
    requires
        repeatable(n),
        three_rows_of(n, dx, at, a),
        three_rows_of(n, dx, at, b),
    ensures
        a == b,
{
}

proof fn lemma_shift_repeats<N: Numerics>(
    n: &N,
    before: Vector3,
    dx: N::Matrix,
    at: usize,
    a: Vector3,
    b: Vector3,
)
    requires
        repeatable(n),
        shifted(n, before, dx, at, a),
        shifted(n, before, dx, at, b),
    ensures
        a == b,
{
    let x = choose|step: Vector3|
        three_rows_of(n, dx, at, step) && #[trigger] call_ensures(N::plus, (n, &before, &step), a);
    let y = choose|step: Vector3|
        three_rows_of(n, dx, at, step) && #[trigger] call_ensures(N::plus, (n, &before, &step), b);
    lemma_three_rows_repeat(n, dx, at, x, y);
}

proof fn lemma_injection_repeats<N: Numerics>(
    n: &N,
    before: StateView,
    dx: N::Matrix,
    a: StateView,
    b: StateView,
)
    requires
        repeatable(n),
        injected(n, before, dx, a),
        injected(n, before, dx, b),
    ensures
        a == b,
{
    lemma_shift_repeats(n, before.position, dx, 0, a.position, b.position);
    lemma_shift_repeats(n, before.velocity, dx, 3, a.velocity, b.velocity);
    let x = choose|step: Vector3|
        three_rows_of(n, dx, 6, step) && #[trigger] turn_of(n, before.q, step, a.q);
    let y = choose|step: Vector3|
        three_rows_of(n, dx, 6, step) && #[trigger] turn_of(n, before.q, step, b.q);
    lemma_three_rows_repeat(n, dx, 6, x, y);
    lemma_turn_repeats(n, before.q, x, a.q, b.q);
    assert forall|i: int| 0 <= i < a.biases.len() implies a.biases[i] == b.biases[i] by {
        lemma_shift_repeats(
            n,
            before.biases[i].gyro,
            dx,
            (9 + 6 * i) as usize,
            a.biases[i].gyro,
            b.biases[i].gyro,
        );
        lemma_shift_repeats(
            n,
            before.biases[i].accel,
            dx,
            (12 + 6 * i) as usize,
            a.biases[i].accel,
            b.biases[i].accel,
        );
    }
    assert(a.biases =~= b.biases);
}

proof fn lemma_measurement_repeats<N: Numerics>(
    n: &N,
    rows: Seq<RowView>,
    dim: usize,
    a: MeasuredMatrices<N::Matrix>,
    b: MeasuredMatrices<N::Matrix>,
)
    requires
        repeatable(n),
        measurement_of(n, rows, dim, a),
        measurement_of(n, rows, dim, b),
    ensures
        a == b,
{
    let count = rows.len() as usize;
    let ja = choose|list: Vec<Scalar>| #[trigger]
        call_ensures(N::matrix, (n, count, dim, &list), a.jacobian) && jacobian_laid_out(
            rows,
            dim as int,
            list@,
        );
    let jb = choose|list: Vec<Scalar>| #[trigger]
        call_ensures(N::matrix, (n, count, dim, &list), b.jacobian) && jacobian_laid_out(
            rows,
            dim as int,
            list@,
        );
    lemma_grid_determined(rows.len() as int, dim as int, ja@, jb@);
    let na = choose|list: Vec<Scalar>| #[trigger]
        call_ensures(N::matrix, (n, count, count, &list), a.noise) && variances_laid_out(
            rows,
            list@,
        );
    let nb = choose|list: Vec<Scalar>| #[trigger]
        call_ensures(N::matrix, (n, count, count, &list), b.noise) && variances_laid_out(
            rows,
            list@,
        );
    lemma_grid_determined(rows.len() as int, rows.len() as int, na@, nb@);
    let ra = choose|list: Vec<Scalar>| #[trigger]
        call_ensures(N::matrix, (n, count, 1usize, &list), a.residual) && residuals_laid_out(
            rows,
            list@,
        );
    let rb = choose|list: Vec<Scalar>| #[trigger]
        call_ensures(N::matrix, (n, count, 1usize, &list), b.residual) && residuals_laid_out(
            rows,
            list@,
        );
    assert(ra@ =~= rb@);
    assert(a.jacobian == b.jacobian);
    assert(a.noise == b.noise);
    assert(a.residual == b.residual);
}

proof fn lemma_update_repeats<N: Numerics>(
    n: &N,
    before: FilterView<N::Matrix>,
    rows: Seq<RowView>,
    gate: Scalar,
    a: FilterView<N::Matrix>,
    took_a: bool,
    b: FilterView<N::Matrix>,
    took_b: bool,
)
    requires
        repeatable(n),
        updated(n, before, rows, gate, a, took_a),
        updated(n, before, rows, gate, b, took_b),
    ensures
        a == b,
        took_a == took_b,
{
    let s = choose|t: UpdateTrace<N::Matrix>| #[trigger]
        updated_by(n, before, rows, gate, t, a, took_a);
    let t = choose|t: UpdateTrace<N::Matrix>| #[trigger]
        updated_by(n, before, rows, gate, t, b, took_b);
    let dim = spec_dim(before.x.biases.len() as int) as usize;
    lemma_measurement_repeats(n, rows, dim, s.m, t.m);
    assert(s.innovation.jp == t.innovation.jp);
    assert(s.innovation.jt == t.innovation.jt);
    assert(s.innovation.jpj == t.innovation.jpj);
    assert(s.innovation.innovation == t.innovation.innovation);
    assert(s.inverse == t.inverse);
    if s.inverse is Some && gate.positive() {
        assert(s.gate.rt == t.gate.rt);
        assert(s.gate.rti == t.gate.rti);
        assert(s.gate.rtir == t.gate.rtir);
        assert(s.gate.distance == t.gate.distance);
        assert(s.gate.squared == t.gate.squared);
        assert(s.gate.count == t.gate.count);
        assert(s.gate.limit == t.gate.limit);
    }
    assert(took_a == took_b);
    if took_a {
        let x = s.correction;
        let y = t.correction;
        assert(x.pj == y.pj);
        assert(x.gain == y.gain);
        assert(x.dx == y.dx);
        lemma_square_repeats(n, dim, Seq::empty(), true, x.identity, y.identity);
        assert(x.kj == y.kj);
        assert(x.left == y.left);
        assert(x.lp == y.lp);
        assert(x.left_t == y.left_t);
        assert(x.lpl == y.lpl);
        assert(x.kr == y.kr);
        assert(x.kt == y.kt);
        assert(x.krk == y.krk);
        assert(a.p_cov == b.p_cov);
        lemma_injection_repeats(n, before.x, x.dx, a.x, b.x);
    }
}

proof fn lemma_twist_repeats<N: Numerics>(
    n: &N,
    x: StateView,
    last_gyro: Vector3,
    linear: Vector3,
    angular: Vector3,
    variance: Six,
    a: Seq<RowView>,
    b: Seq<RowView>,
)
    requires
        repeatable(n),
        twist_fused_by(n, x, last_gyro, linear, angular, variance, a),
        twist_fused_by(n, x, last_gyro, linear, angular, variance, b),
    ensures
        a == b,
{
    let (ma, pa, ra) = choose|motion: BodyMotion, predicted: Vector3, residual: Six|
        #![trigger twist_seen(n, x, last_gyro, linear, angular, motion, predicted, residual)]
        twist_seen(n, x, last_gyro, linear, angular, motion, predicted, residual) && a
            == twist_rows(motion, residual, variance, 6);
    let (mb, pb, rb) = choose|motion: BodyMotion, predicted: Vector3, residual: Six|
        #![trigger twist_seen(n, x, last_gyro, linear, angular, motion, predicted, residual)]
        twist_seen(n, x, last_gyro, linear, angular, motion, predicted, residual) && b
            == twist_rows(motion, residual, variance, 6);
    lemma_body_motion_repeats(n, x.q, x.velocity, ma, mb);
    assert(pa == pb);
    assert(ra.linear == rb.linear);
    assert(ra.angular == rb.angular);
    assert(ra == rb);
}

proof fn lemma_fusing_repeats<N: Numerics>(
    n: &N,
    before: FilterView<N::Matrix>,
    rows: Seq<RowView>,
    gate: Scalar,
    a: FilterView<N::Matrix>,
    took_a: bool,
    gated_a: int,
    b: FilterView<N::Matrix>,
    took_b: bool,
    gated_b: int,
)
    requires
        repeatable(n),
        fused(n, before, rows, gate, a, took_a, gated_a),
        fused(n, before, rows, gate, b, took_b, gated_b),
    ensures
        a == b,
        took_a == took_b,
        gated_a == gated_b,
{
    if rows.len() > 0 {
        lemma_update_repeats(n, before, rows, gate, a, took_a, b, took_b);
    }
}

proof fn lemma_applying_repeats<N: Numerics>(
    n: &N,
    c: Constants,
    rules: StepRules,
    before: Memory<N::Matrix>,
    m: Measurement,
    a: Memory<N::Matrix>,
    gated_a: int,
    b: Memory<N::Matrix>,
    gated_b: int,
)
    requires
        repeatable(n),
        applied(n, c, rules, before, m, a, gated_a),
        applied(n, c, rules, before, m, b, gated_b),
    ensures
        a == b,
        gated_a == gated_b,
{
    if !first_delta(before, m) {
        let s = choose|t: ApplyTrace<N::Matrix>| #[trigger]
            applied_by(n, c, rules, before, m, t, a, gated_a);
        let t = choose|t: ApplyTrace<N::Matrix>| #[trigger]
            applied_by(n, c, rules, before, m, t, b, gated_b);
        let source = m.source as int;
        if m.delta is Some {
            assert(s.target->0 == t.target->0);
            lemma_pose_residual_repeats(
                n,
                s.target->0,
                before.x.position,
                before.x.q,
                s.residual,
                t.residual,
            );
        }
        assert(s.target == t.target);
        let rows_s = target_rows(s.target, s.residual, m.pose_variance);
        let rows_t = target_rows(t.target, t.residual, m.pose_variance);
        assert(rows_s == rows_t);
        lemma_twist_repeats(
            n,
            before.x,
            before.last_gyro,
            m.linear,
            m.angular,
            m.twist_variance,
            s.twist,
            t.twist,
        );
        lemma_fusing_repeats(
            n,
            before.filter(c),
            rows_s + s.twist,
            rules.mahalanobis_gate,
            s.corrected,
            s.accepted,
            s.gated,
            t.corrected,
            t.accepted,
            t.gated,
        );
        let settled = if s.accepted && s.target is Some {
            anchored(before.with_filter(s.corrected), source)
        } else {
            before.with_filter(s.corrected)
        };
        lemma_twist_repeats(
            n,
            settled.x,
            before.last_gyro,
            Vector3::zeros(),
            Vector3::zeros(),
            rules.constraint_twist_variances,
            s.constraint,
            t.constraint,
        );
        lemma_fusing_repeats(
            n,
            settled.filter(c),
            s.constraint,
            rules.mahalanobis_gate,
            a.filter(c),
            s.constrained,
            gated_a - s.gated,
            b.filter(c),
            t.constrained,
            gated_b - t.gated,
        );
        assert(a == settled.with_filter(a.filter(c)));
        assert(b == settled.with_filter(b.filter(c)));
    }
}

proof fn lemma_total_repeats<N: Numerics>(
    n: &N,
    activity: Seq<SourceActivity>,
    horizon: i64,
    dim: int,
    count: nat,
    a: Scalar,
    b: Scalar,
)
    requires
        repeatable(n),
        totalled(n, activity, horizon, dim, count, a),
        totalled(n, activity, horizon, dim, count, b),
    ensures
        a == b,
    decreases count,
{
    if count > 0 {
        let last = activity[count - 1];
        let less = (count - 1) as nat;
        if active(last, horizon) {
            let x = choose|partial: Scalar|
                {
                    &&& totalled(n, activity, horizon, dim, less, partial)
                    &&& #[trigger] call_ensures(
                        N::sum,
                        (n, partial, last.inverse_variance.at(dim)),
                        a,
                    )
                };
            let y = choose|partial: Scalar|
                {
                    &&& totalled(n, activity, horizon, dim, less, partial)
                    &&& #[trigger] call_ensures(
                        N::sum,
                        (n, partial, last.inverse_variance.at(dim)),
                        b,
                    )
                };
            lemma_total_repeats(n, activity, horizon, dim, less, x, y);
        } else {
            lemma_total_repeats(n, activity, horizon, dim, less, a, b);
        }
    }
}

/// Six numbers that agree one by one.
proof fn lemma_same_six(a: Six, b: Six)
    requires
        forall|dim: int| 0 <= dim < 6 ==> #[trigger] a.at(dim) == b.at(dim),
    ensures
        a == b,
{
    assert(a.at(0) == b.at(0));
    assert(a.at(1) == b.at(1));
    assert(a.at(2) == b.at(2));
    assert(a.at(3) == b.at(3));
    assert(a.at(4) == b.at(4));
    assert(a.at(5) == b.at(5));
}

proof fn lemma_blending_repeats<N: Numerics>(
    n: &N,
    before: Memory<N::Matrix>,
    m: Measurement,
    ts_ns: i64,
    a: Memory<N::Matrix>,
    b: Memory<N::Matrix>,
)
    requires
        repeatable(n),
        m.source < before.activity.len(),
        blended(n, before, m, ts_ns, a),
        blended(n, before, m, ts_ns, b),
    ensures
        a == b,
{
    let source = m.source as int;
    let va = a.activity[source].inverse_variance;
    let vb = b.activity[source].inverse_variance;
    assert forall|dim: int| 0 <= dim < 6 implies #[trigger] va.at(dim) == vb.at(dim) by {
        assert(weight_of(n, m.pose_variance.at(dim), va.at(dim)));
        assert(weight_of(n, m.pose_variance.at(dim), vb.at(dim)));
    }
    lemma_same_six(va, vb);
    assert(a.activity == b.activity);
    if let Some(increment) = m.delta {
        let horizon = span(SOURCE_ACTIVITY_TIMEOUT_NS, ts_ns);
        let sa = choose|shares: Six|
            {
                &&& #[trigger] shares_of(n, a.activity, horizon, source, shares)
                &&& moved_by_share(n, before.x, increment, shares, a.x)
            };
        let sb = choose|shares: Six|
            {
                &&& #[trigger] shares_of(n, b.activity, horizon, source, shares)
                &&& moved_by_share(n, before.x, increment, shares, b.x)
            };
        assert forall|dim: int| 0 <= dim < 6 implies #[trigger] sa.at(dim) == sb.at(dim) by {
            assert(share_of(n, a.activity, horizon, source, dim, sa.at(dim)));
            assert(share_of(n, a.activity, horizon, source, dim, sb.at(dim)));
            let count = a.activity.len();
            let ta = choose|total: Scalar|
                {
                    &&& #[trigger] totalled(n, a.activity, horizon, dim, count, total)
                    &&& if total.positive() {
                        call_ensures(
                            N::ratio,
                            (n, a.activity[source].inverse_variance.at(dim), total),
                            sa.at(dim),
                        )
                    } else {
                        sa.at(dim) == Scalar::zero()
                    }
                };
            let tb = choose|total: Scalar|
                {
                    &&& #[trigger] totalled(n, a.activity, horizon, dim, count, total)
                    &&& if total.positive() {
                        call_ensures(
                            N::ratio,
                            (n, a.activity[source].inverse_variance.at(dim), total),
                            sb.at(dim),
                        )
                    } else {
                        sb.at(dim) == Scalar::zero()
                    }
                };
            lemma_total_repeats(n, a.activity, horizon, dim, count, ta, tb);
        }
        lemma_same_six(sa, sb);
        lemma_nudge_repeats(
            n,
            before.x.position,
            before.x.q,
            increment,
            sa,
            pose_of(a.x),
            pose_of(b.x),
        );
        assert(a.x == b.x);
    }
}

/// Law: a step is determined by what it starts from. Taken twice on the same estimate, the same
/// event leaves the same estimate and gates as many updates.
pub proof fn law_step_repeats<N: Numerics>(
    n: &N,
    c: Constants,
    rules: StepRules,
    before: Memory<N::Matrix>,
    ts_ns: i64,
    kind: EventKind,
    a: Memory<N::Matrix>,
    gated_a: int,
    b: Memory<N::Matrix>,
    gated_b: int,
)
    requires
        repeatable(n),
        kind.within(before.activity.len() as int),
        stepped(n, c, rules, before, ts_ns, kind, a, gated_a),
        stepped(n, c, rules, before, ts_ns, kind, b, gated_b),
    ensures
        a == b,
        gated_a == gated_b,
{
    match kind {
        EventKind::Seed => {},
        EventKind::Imu { gyro, accel } => {
            let dt_ns = span(before.last_imu_ns, ts_ns);
            if 0 < dt_ns < NS_PER_SEC {
                let x = choose|dt: Scalar|
                    #[trigger] seconds_of(n, dt_ns, dt) && propagated(
                        n,
                        before.filter(c),
                        dt,
                        0,
                        gyro,
                        accel,
                        a.filter(c),
                    );
                let y = choose|dt: Scalar|
                    #[trigger] seconds_of(n, dt_ns, dt) && propagated(
                        n,
                        before.filter(c),
                        dt,
                        0,
                        gyro,
                        accel,
                        b.filter(c),
                    );
                lemma_seconds_repeats(n, dt_ns, x, y);
                lemma_propagation_repeats(
                    n,
                    before.filter(c),
                    x,
                    0,
                    gyro,
                    accel,
                    a.filter(c),
                    b.filter(c),
                );
            }
            assert(a.filter(c) == b.filter(c));
        },
        EventKind::Measurement(m) => {
            if rules.use_imu {
                lemma_applying_repeats(n, c, rules, before, m, a, gated_a, b, gated_b);
            } else {
                lemma_blending_repeats(n, before, m, ts_ns, a, b);
            }
        },
    }
}

/// Each measurement is of one of the sources, and each estimate has room for them.
pub open spec fn events_fit<M>(events: Seq<EventView<M>>, sources: int) -> bool {
    forall|i: int|
        0 <= i < events.len() ==> (#[trigger] events[i]).left.fits(sources) && events[i].kind.within(
            sources,
        )
}

/// Law: the order of arrival does not matter. Two buffers that start from the same estimate and
/// hold the same events in the order of their stamps hold the same estimates, whichever of the
/// events came late and were put in their place by a replay.
pub proof fn law_arrival_order_does_not_matter<N: Numerics>(
    n: &N,
    c: Constants,
    rules: StepRules,
    sources: int,
    a: Seq<EventView<N::Matrix>>,
    b: Seq<EventView<N::Matrix>>,
)
    requires
        repeatable(n),
        events_fit(a, sources),
        events_fit(b, sources),
        chained(n, c, rules, a),
        chained(n, c, rules, b),
        log_of(a) == log_of(b),
        a.len() > 0 ==> a[0].left == b[0].left,
    ensures
        a == b,
{
    assert(a.len() == log_of(a).len());
    assert(b.len() == log_of(b).len());
    assert forall|i: int| 0 <= i < a.len() implies a[i] == b[i] by {
        lemma_chain_repeats(n, c, rules, sources, a, b, i);
    }
    assert(a =~= b);
}

proof fn lemma_chain_repeats<N: Numerics>(
    n: &N,
    c: Constants,
    rules: StepRules,
    sources: int,
    a: Seq<EventView<N::Matrix>>,
    b: Seq<EventView<N::Matrix>>,
    i: int,
)
    requires
        repeatable(n),
        events_fit(a, sources),
        events_fit(b, sources),
        chained(n, c, rules, a),
        chained(n, c, rules, b),
        log_of(a) == log_of(b),
        a.len() == b.len(),
        0 <= i < a.len(),
        a[0].left == b[0].left,
    ensures
        a[i] == b[i],
    decreases i,
{
    assert(log_of(a)[i] == log_of(b)[i]);
    if i > 0 {
        lemma_chain_repeats(n, c, rules, sources, a, b, i - 1);
        assert(linked(n, c, rules, a, i));
        assert(linked(n, c, rules, b, i));
        let x = choose|g: int| #[trigger]
            stepped(n, c, rules, a[i - 1].left, a[i].ts_ns, a[i].kind, a[i].left, g);
        let y = choose|g: int| #[trigger]
            stepped(n, c, rules, b[i - 1].left, b[i].ts_ns, b[i].kind, b[i].left, g);
        assert(a[i - 1].left.fits(sources) && a[i].kind.within(sources));
        law_step_repeats(
            n,
            c,
            rules,
            a[i - 1].left,
            a[i].ts_ns,
            a[i].kind,
            a[i].left,
            x,
            b[i].left,
            y,
        );
    }
}

pub proof fn lemma_replay_repeats<N: Numerics>(
    n: &N,
    c: Constants,
    rules: StepRules,
    sources: int,
    a: Seq<EventView<N::Matrix>>,
    b: Seq<EventView<N::Matrix>>,
    from: int,
    gated_a: int,
    gated_b: int,
)
    requires
        repeatable(n),
        0 < from <= a.len(),
        a.len() == b.len(),
        log_of(a) == log_of(b),
        a.take(from) == b.take(from),
        forall|i: int| 0 <= i < a.len() ==> (#[trigger] a[i]).left.fits(sources),
        forall|i: int| 0 <= i < a.len() ==> (#[trigger] a[i]).kind.within(sources),
        replayed_from(n, c, rules, a, from, gated_a),
        replayed_from(n, c, rules, b, from, gated_b),
    ensures
        a == b,
        gated_a == gated_b,
    decreases a.len(),
{
    if a.len() == from {
        assert(a.take(from) =~= a);
        assert(b.take(from) =~= b);
    } else {
        let k = a.len() - 1;
        let x = choose|last: int|
            {
                &&& #[trigger] stepped(
                    n,
                    c,
                    rules,
                    a[a.len() - 2].left,
                    a.last().ts_ns,
                    a.last().kind,
                    a.last().left,
                    last,
                )
                &&& replayed_from(n, c, rules, a.drop_last(), from, gated_a - last)
            };
        let y = choose|last: int|
            {
                &&& #[trigger] stepped(
                    n,
                    c,
                    rules,
                    b[b.len() - 2].left,
                    b.last().ts_ns,
                    b.last().kind,
                    b.last().left,
                    last,
                )
                &&& replayed_from(n, c, rules, b.drop_last(), from, gated_b - last)
            };
        assert(log_of(a.drop_last()) =~= log_of(a).drop_last());
        assert(log_of(b.drop_last()) =~= log_of(b).drop_last());
        assert(a.drop_last().take(from) =~= a.take(from));
        assert(b.drop_last().take(from) =~= b.take(from));
        assert forall|i: int| 0 <= i < a.drop_last().len() implies (
        #[trigger] a.drop_last()[i]).left.fits(sources) by {
            assert(a[i].left.fits(sources));
        }
        assert forall|i: int| 0 <= i < a.drop_last().len() implies (
        #[trigger] a.drop_last()[i]).kind.within(sources) by {
            assert(a[i].kind.within(sources));
        }
        lemma_replay_repeats(
            n,
            c,
            rules,
            sources,
            a.drop_last(),
            b.drop_last(),
            from,
            gated_a - x,
            gated_b - y,
        );
        assert(a[k - 1] == a.drop_last()[k - 1]);
        assert(b[k - 1] == b.drop_last()[k - 1]);
        assert(log_of(a)[k] == log_of(b)[k]);
        assert(a[k - 1].left.fits(sources));
        law_step_repeats(
            n,
            c,
            rules,
            a[k - 1].left,
            a[k].ts_ns,
            a[k].kind,
            a[k].left,
            x,
            b[k].left,
            y,
        );
        assert(a =~= a.drop_last().push(a[k]));
        assert(b =~= b.drop_last().push(b[k]));
    }
}

} // verus!
