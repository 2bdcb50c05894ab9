//! The error-state Kalman filter.
//!
//! Error-state order: position (0:3), velocity (3:6), theta (6:9), then a gyro bias / accel bias
//! pair per IMU at (9+6i : 15+6i). theta is a right (body-frame) perturbation:
//! `q_true = q_est * Exp(theta)`.

use std::sync::Arc;

use vstd::prelude::*;

use crate::formulas::{turn, turn_of, HALF_BITS};
use crate::numerics::Numerics;
use crate::scalar::Scalar;
use crate::types::{copied, skew, spec_skew, Matrix3, Quaternion, Vector3};

verus! {

/// An error state with this many IMUs has columns that fit a `usize`.
pub open spec fn imus_fit(imus: int) -> bool {
    9 + 6 * imus <= usize::MAX
}

/// The error state's length with this many IMUs.
pub open spec fn spec_dim(imus: int) -> int {
    9 + 6 * imus
}

/// The first of the three columns of an IMU's gyro bias.
pub fn gyro_bias_col(imu: usize) -> (col: usize)
    requires
        imus_fit(imu as int),
    ensures
        col == 9 + 6 * imu,
{
    9 + 6 * imu
}

/// The first of the three columns of an IMU's accelerometer bias.
pub fn accel_bias_col(imu: usize) -> (col: usize)
    requires
        12 + 6 * imu <= usize::MAX,
    ensures
        col == 12 + 6 * imu,
{
    12 + 6 * imu
}

#[derive(Clone, Copy, Debug, PartialEq, Eq, Structural)]
pub struct Noise {
    /// rad/s/sqrt(Hz)
    pub gyro_noise_density: Scalar,
    /// rad/s^2/sqrt(Hz)
    pub gyro_random_walk: Scalar,
    /// m/s^2/sqrt(Hz)
    pub accel_noise_density: Scalar,
    /// m/s^3/sqrt(Hz)
    pub accel_random_walk: Scalar,
}

impl Noise {
    pub open spec fn spec_zeros() -> Noise {
        Noise {
            gyro_noise_density: Scalar::zero(),
            gyro_random_walk: Scalar::zero(),
            accel_noise_density: Scalar::zero(),
            accel_random_walk: Scalar::zero(),
        }
    }
}

impl Default for Noise {
    fn default() -> (r: Noise)
        ensures
            r == Noise::spec_zeros(),
    {
        Noise {
            gyro_noise_density: Scalar::zero(),
            gyro_random_walk: Scalar::zero(),
            accel_noise_density: Scalar::zero(),
            accel_random_walk: Scalar::zero(),
        }
    }
}

#[derive(Clone, Copy, Debug, PartialEq, Eq, Structural)]
pub struct ImuBias {
    pub gyro: Vector3,
    pub accel: Vector3,
}

impl Default for ImuBias {
    fn default() -> (r: ImuBias)
        ensures
            r == (ImuBias { gyro: Vector3::zeros(), accel: Vector3::zeros() }),
    {
        ImuBias { gyro: Vector3::zeros(), accel: Vector3::zeros() }
    }
}

#[derive(Clone, Debug)]
pub struct State {
    /// world frame
    pub position: Vector3,
    /// world frame
    pub velocity: Vector3,
    /// world_from_body
    pub q: Quaternion,
    pub biases: Vec<ImuBias>,
}

/// What a [`State`] holds.
pub struct StateView {
    pub position: Vector3,
    pub velocity: Vector3,
    pub q: Quaternion,
    pub biases: Seq<ImuBias>,
}

impl View for State {
    type V = StateView;

    open spec fn view(&self) -> StateView {
        StateView {
            position: self.position,
            velocity: self.velocity,
            q: self.q,
            biases: self.biases@,
        }
    }
}

impl State {
    /// The same state again.
    pub fn copy(&self) -> (r: State)
        ensures
            r@ == self@,
    {
        State {
            position: self.position,
            velocity: self.velocity,
            q: self.q,
            biases: copied(&self.biases),
        }
    }
}

impl Default for State {
    fn default() -> (r: State)
        ensures
            r@ == (StateView {
                position: Vector3::zeros(),
                velocity: Vector3::zeros(),
                q: Quaternion::identity(),
                biases: Seq::empty(),
            }),
    {
        State {
            position: Vector3::zeros(),
            velocity: Vector3::zeros(),
            q: Quaternion::identity(),
            biases: Vec::new(),
        }
    }
}

/// A figure for the three diagonal places from `at` on.
#[derive(Clone, Copy, Debug, PartialEq, Eq, Structural)]
pub struct Block {
    pub at: usize,
    pub figure: Scalar,
}

/// The standard deviations that a filter starts with.
#[derive(Clone, Copy, Debug, PartialEq, Eq, Structural)]
pub struct InitialStds {
    pub position: Scalar,
    pub velocity: Scalar,
    pub rotation: Scalar,
    pub bias: Scalar,
}

/// The blocks of a fresh covariance: they follow one another down the whole diagonal.
pub open spec fn seed_blocks(imus: int, stds: InitialStds) -> Seq<Block> {
    Seq::new(
        (3 + 2 * imus) as nat,
        |i: int|
            Block {
                at: (3 * i) as usize,
                figure: if i == 0 {
                    stds.position
                } else if i == 1 {
                    stds.velocity
                } else if i == 2 {
                    stds.rotation
                } else {
                    stds.bias
                },
            },
    )
}

/// The noise that an interval adds: on velocity and attitude from the IMU that was read, and on
/// every IMU's biases from its own random walk.
pub open spec fn noise_blocks(imu: int, noise: Seq<Noise>) -> Seq<Block> {
    Seq::new(
        (2 + 2 * noise.len()) as nat,
        |i: int|
            Block {
                at: (3 * (i + 1)) as usize,
                figure: if i == 0 {
                    noise[imu].accel_noise_density
                } else if i == 1 {
                    noise[imu].gyro_noise_density
                } else if i % 2 == 0 {
                    noise[(i - 2) / 2].gyro_random_walk
                } else {
                    noise[(i - 2) / 2].accel_random_walk
                },
            },
    )
}

fn list_seed_blocks(imus: usize, stds: InitialStds) -> (blocks: Vec<Block>)
    requires
        imus_fit(imus as int),
    ensures
        blocks@ == seed_blocks(imus as int, stds),
{
    let mut blocks: Vec<Block> = Vec::new();
    blocks.push(Block { at: 0, figure: stds.position });
    blocks.push(Block { at: 3, figure: stds.velocity });
    blocks.push(Block { at: 6, figure: stds.rotation });
    let mut imu: usize = 0;
    while imu < imus
        invariant
            imu <= imus,
            imus_fit(imus as int),
            blocks@ =~= seed_blocks(imu as int, stds),
        decreases imus - imu,
    {
        blocks.push(Block { at: gyro_bias_col(imu), figure: stds.bias });
        blocks.push(Block { at: accel_bias_col(imu), figure: stds.bias });
        imu += 1;
    }
    blocks
}

fn list_noise_blocks(imu: usize, noise: &Vec<Noise>) -> (blocks: Vec<Block>)
    requires
        imu < noise@.len(),
        imus_fit(noise@.len() as int),
    ensures
        blocks@ == noise_blocks(imu as int, noise@),
{
    let mut blocks: Vec<Block> = Vec::new();
    blocks.push(Block { at: 3, figure: noise[imu].accel_noise_density });
    blocks.push(Block { at: 6, figure: noise[imu].gyro_noise_density });
    let mut other: usize = 0;
    while other < noise.len()
        invariant
            other <= noise@.len(),
            imu < noise@.len(),
            imus_fit(noise@.len() as int),
            blocks@.len() == 2 + 2 * other,
            forall|k: int|
                0 <= k < blocks@.len() ==> blocks@[k] == noise_blocks(imu as int, noise@)[k],
        decreases noise@.len() - other,
    {
        blocks.push(Block { at: gyro_bias_col(other), figure: noise[other].gyro_random_walk });
        blocks.push(Block { at: accel_bias_col(other), figure: noise[other].accel_random_walk });
        other += 1;
    }
    assert(blocks@ =~= noise_blocks(imu as int, noise@));
    blocks
}

/// The entries of a Jacobian row at the biases of one IMU.
#[derive(Clone, Copy, Debug, PartialEq, Eq, Structural)]
pub struct BiasEntries {
    pub gyro: Vector3,
    pub accel: Vector3,
}

/// How one measured number depends on the error state: the entries of its Jacobian row at
/// position, velocity and attitude and at the biases of each IMU. Those of the IMUs past the end
/// of the list are zero.
#[derive(Clone, Debug)]
pub struct JacobianRow {
    pub position: Vector3,
    pub velocity: Vector3,
    pub theta: Vector3,
    pub biases: Vec<BiasEntries>,
}

/// What a [`JacobianRow`] holds.
pub struct JacobianView {
    pub position: Vector3,
    pub velocity: Vector3,
    pub theta: Vector3,
    pub biases: Seq<BiasEntries>,
}

impl View for JacobianRow {
    type V = JacobianView;

    open spec fn view(&self) -> JacobianView {
        JacobianView {
            position: self.position,
            velocity: self.velocity,
            theta: self.theta,
            biases: self.biases@,
        }
    }
}

/// One measured number: how far it is from the prediction, and its variance.
#[derive(Clone, Debug)]
pub struct Row {
    pub jacobian: JacobianRow,
    pub residual: Scalar,
    pub variance: Scalar,
}

/// What a [`Row`] holds.
pub struct RowView {
    pub jacobian: JacobianView,
    pub residual: Scalar,
    pub variance: Scalar,
}

impl View for Row {
    type V = RowView;

    open spec fn view(&self) -> RowView {
        RowView {
            jacobian: self.jacobian@,
            residual: self.residual,
            variance: self.variance,
        }
    }
}

/// What the rows of a list hold.
pub open spec fn listed_rows(rows: Seq<Row>) -> Seq<RowView> {
    rows.map_values(|r: Row| r@)
}

/// The filter: its estimate and covariance, and what they are propagated with.
pub struct Filter<N: Numerics> {
    /// One entry per IMU, parallel to `x.biases`.
    pub noise: Vec<Noise>,
    pub gravity: Scalar,
    pub x: State,
    /// Shared with what was kept of the estimate.
    pub p_cov: Arc<N::Matrix>,
}

/// What a [`Filter`] holds.
pub struct FilterView<M> {
    pub noise: Seq<Noise>,
    pub gravity: Scalar,
    pub x: StateView,
    pub p_cov: M,
}

impl<N: Numerics> View for Filter<N> {
    type V = FilterView<N::Matrix>;

    open spec fn view(&self) -> FilterView<N::Matrix> {
        FilterView { noise: self.noise@, gravity: self.gravity, x: self.x@, p_cov: *self.p_cov }
    }
}

impl<M> FilterView<M> {
    /// Each IMU has a bias and a noise model, and the error state's columns fit.
    pub open spec fn well_formed(self) -> bool {
        &&& self.noise.len() == self.x.biases.len()
        &&& imus_fit(self.x.biases.len() as int)
    }
}

/// A 3x3 block and where it stands in a larger matrix.
#[derive(Clone, Copy, Debug, PartialEq, Eq, Structural)]
pub struct Placed {
    pub row: usize,
    pub col: usize,
    pub block: Matrix3,
}

impl Placed {
    /// The block covers this place.
    pub open spec fn covers(self, row: int, col: int) -> bool {
        self.row <= row < self.row + 3 && self.col <= col < self.col + 3
    }
}

/// An entry of a matrix made of blocks: that of the last block that covers it, or of the identity
/// or zero underneath.
pub open spec fn cell(placed: Seq<Placed>, identity: bool, row: int, col: int) -> Scalar
    decreases placed.len(),
{
    if placed.len() == 0 {
        if identity && row == col {
            Scalar::one()
        } else {
            Scalar::zero()
        }
    } else {
        let p = placed.last();
        if p.covers(row, col) {
            p.block.row(row - p.row).axis(col - p.col)
        } else {
            cell(placed.drop_last(), identity, row, col)
        }
    }
}

/// `entries` are the entries, row by row, of a square matrix made of blocks.
pub open spec fn laid_out(
    dim: int,
    placed: Seq<Placed>,
    identity: bool,
    entries: Seq<Scalar>,
) -> bool {
    &&& entries.len() == dim * dim
    &&& forall|row: int, col: int|
        0 <= row < dim && 0 <= col < dim ==> #[trigger] entries[row * dim + col] == cell(
            placed,
            identity,
            row,
            col,
        )
}

/// `m` is the square matrix made of blocks.
pub open spec fn square_of<N: Numerics>(
    n: &N,
    dim: usize,
    placed: Seq<Placed>,
    identity: bool,
    m: N::Matrix,
) -> bool {
    exists|list: Vec<Scalar>| #[trigger]
        call_ensures(N::matrix, (n, dim, dim, &list), m) && laid_out(
            dim as int,
            placed,
            identity,
            list@,
        )
}

fn cell_at(placed: &Vec<Placed>, identity: bool, row: usize, col: usize) -> (r: Scalar)
    ensures
        r == cell(placed@, identity, row as int, col as int),
{
    let mut count: usize = placed.len();
    assert(placed@.take(count as int) =~= placed@);
    while count > 0
        invariant
            count <= placed@.len(),
            cell(placed@, identity, row as int, col as int) == cell(
                placed@.take(count as int),
                identity,
                row as int,
                col as int,
            ),
        decreases count,
    {
        let p: Placed = placed[count - 1];
        let ghost here = placed@.take(count as int);
        assert(here.last() == p);
        assert(here.drop_last() =~= placed@.take(count - 1));
        if row >= p.row && row - p.row < 3 && col >= p.col && col - p.col < 3 {
            return p.block.row_at(row - p.row).component(col - p.col);
        }
        count -= 1;
    }
    if identity && row == col {
        Scalar::one()
    } else {
        Scalar::zero()
    }
}

/// Row and column follow from an entry's place.
proof fn lemma_same_place(cols: int, x: int, y: int, col: int, row: int)
    requires
        0 <= x < cols,
        0 <= col < cols,
        y * cols + x == row * cols + col,
    ensures
        x == col,
        y == row,
{
    assert(y == row) by (nonlinear_arith)
        requires
            0 <= x < cols,
            0 <= col < cols,
            y * cols + x == row * cols + col,
    ;
}

/// The square matrix made of blocks.
fn square<N: Numerics>(n: &N, dim: usize, placed: &Vec<Placed>, identity: bool) -> (m: N::Matrix)
    ensures
        square_of(n, dim, placed@, identity, m),
{
    let mut list: Vec<Scalar> = Vec::new();
    assert(0 * dim == 0) by (nonlinear_arith);
    let mut row: usize = 0;
    while row < dim
        invariant
            row <= dim,
            list@.len() == row * dim,
            forall|y: int, x: int|
                0 <= y < row && 0 <= x < dim ==> #[trigger] list@[y * dim + x] == cell(
                    placed@,
                    identity,
                    y,
                    x,
                ),
        decreases dim - row,
    {
        assert forall|y: int, x: int|
            0 <= y && 0 <= x < dim && y * dim + x < row * dim implies #[trigger] list@[y * dim + x]
            == cell(placed@, identity, y, x) by {
            assert(y < row) by (nonlinear_arith)
                requires
                    y * dim + x < row * dim,
                    0 <= x < dim,
            ;
        }
        let mut col: usize = 0;
        while col < dim
            invariant
                row < dim,
                col <= dim,
                list@.len() == row * dim + col,
                forall|y: int, x: int|
                    0 <= y && 0 <= x < dim && y * dim + x < row * dim + col
                        ==> #[trigger] list@[y * dim + x] == cell(placed@, identity, y, x),
            decreases dim - col,
        {
            let ghost held = list@;
            list.push(cell_at(placed, identity, row, col));
            assert forall|y: int, x: int|
                0 <= y && 0 <= x < dim && y * dim + x < row * dim + col
                    + 1 implies #[trigger] list@[y * dim + x] == cell(placed@, identity, y, x) by {
                let k = y * dim + x;
                assert(0 <= k) by (nonlinear_arith)
                    requires
                        k == y * dim + x,
                        0 <= y,
                        0 <= x < dim,
                ;
                if k == row * dim + col {
                    lemma_same_place(dim as int, x, y, col as int, row as int);
                } else {
                    assert(list@[k] == held[k]);
                }
            }
            col += 1;
        }
        assert((row + 1) * dim == row * dim + dim) by (nonlinear_arith);
        assert forall|y: int, x: int| 0 <= y < row + 1 && 0 <= x < dim implies #[trigger] list@[y
            * dim + x] == cell(placed@, identity, y, x) by {
            assert(y * dim + x < row * dim + dim) by (nonlinear_arith)
                requires
                    0 <= y <= row,
                    0 <= x < dim,
            ;
        }
        row += 1;
    }
    let m = n.matrix(dim, dim, &list);
    assert(laid_out(dim as int, placed@, identity, list@));
    m
}

/// `block` is the square of a figure on its diagonal.
pub open spec fn variance_block<N: Numerics>(n: &N, figure: Scalar, block: Matrix3) -> bool {
    exists|once: Matrix3|
        {
            &&& call_ensures(N::matrix3_scaled, (n, &Matrix3::identity(), figure), once)
            &&& #[trigger] call_ensures(N::matrix3_scaled, (n, &once, figure), block)
        }
}

/// `placed` are the squares of the blocks' figures, each at its place on the diagonal.
pub open spec fn variances_of<N: Numerics>(
    n: &N,
    blocks: Seq<Block>,
    placed: Seq<Placed>,
) -> bool {
    &&& placed.len() == blocks.len()
    &&& forall|i: int|
        0 <= i < blocks.len() ==> {
            &&& (#[trigger] placed[i]).row == blocks[i].at
            &&& placed[i].col == blocks[i].at
            &&& variance_block(n, blocks[i].figure, placed[i].block)
        }
}

/// `m` is zero but for the squares of the blocks' figures on their three diagonal places.
pub open spec fn diagonal_of<N: Numerics>(
    n: &N,
    dim: usize,
    blocks: Seq<Block>,
    m: N::Matrix,
) -> bool {
    exists|placed: Seq<Placed>| #[trigger]
        variances_of(n, blocks, placed) && square_of(n, dim, placed, false, m)
}

fn diagonal<N: Numerics>(n: &N, dim: usize, blocks: &Vec<Block>) -> (m: N::Matrix)
    ensures
        diagonal_of(n, dim, blocks@, m),
{
    let mut placed: Vec<Placed> = Vec::new();
    let mut i: usize = 0;
    while i < blocks.len()
        invariant
            i <= blocks@.len(),
            variances_of(n, blocks@.take(i as int), placed@),
        decreases blocks@.len() - i,
    {
        let once = n.matrix3_scaled(&Matrix3::identity(), blocks[i].figure);
        let block = n.matrix3_scaled(&once, blocks[i].figure);
        assert(variance_block(n, blocks@[i as int].figure, block));
        placed.push(Placed { row: blocks[i].at, col: blocks[i].at, block });
        i += 1;
        assert(variances_of(n, blocks@.take(i as int), placed@));
    }
    assert(blocks@.take(i as int) =~= blocks@);
    square(n, dim, &placed, false)
}

/// `block` is the square of a figure times the interval, on its diagonal.
pub open spec fn noise_block<N: Numerics>(
    n: &N,
    figure: Scalar,
    dt: Scalar,
    block: Matrix3,
) -> bool {
    exists|variance: Matrix3|
        {
            &&& variance_block(n, figure, variance)
            &&& #[trigger] call_ensures(N::matrix3_scaled, (n, &variance, dt), block)
        }
}

/// `placed` are the squares of the blocks' figures times the interval, each at its place.
pub open spec fn noises_of<N: Numerics>(
    n: &N,
    blocks: Seq<Block>,
    dt: Scalar,
    placed: Seq<Placed>,
) -> bool {
    &&& placed.len() == blocks.len()
    &&& forall|i: int|
        0 <= i < blocks.len() ==> {
            &&& (#[trigger] placed[i]).row == blocks[i].at
            &&& placed[i].col == blocks[i].at
            &&& noise_block(n, blocks[i].figure, dt, placed[i].block)
        }
}

/// `m` is the noise that an interval adds.
pub open spec fn process_noise_of<N: Numerics>(
    n: &N,
    dim: usize,
    blocks: Seq<Block>,
    dt: Scalar,
    m: N::Matrix,
) -> bool {
    exists|placed: Seq<Placed>| #[trigger]
        noises_of(n, blocks, dt, placed) && square_of(n, dim, placed, false, m)
}

fn process_noise<N: Numerics>(n: &N, dim: usize, blocks: &Vec<Block>, dt: Scalar) -> (m: N::Matrix)
    ensures
        process_noise_of(n, dim, blocks@, dt, m),
{
    let mut placed: Vec<Placed> = Vec::new();
    let mut i: usize = 0;
    while i < blocks.len()
        invariant
            i <= blocks@.len(),
            noises_of(n, blocks@.take(i as int), dt, placed@),
        decreases blocks@.len() - i,
    {
        let once = n.matrix3_scaled(&Matrix3::identity(), blocks[i].figure);
        let variance = n.matrix3_scaled(&once, blocks[i].figure);
        let block = n.matrix3_scaled(&variance, dt);
        assert(variance_block(n, blocks@[i as int].figure, variance));
        assert(noise_block(n, blocks@[i as int].figure, dt, block));
        placed.push(Placed { row: blocks[i].at, col: blocks[i].at, block });
        i += 1;
        assert(noises_of(n, blocks@.take(i as int), dt, placed@));
    }
    assert(blocks@.take(i as int) =~= blocks@);
    square(n, dim, &placed, false)
}

/// An IMU reading in the world, and the step it makes.
pub struct MotionTrace {
    /// The attitude before.
    pub rotation: Matrix3,
    /// The readings without their biases.
    pub free_gyro: Vector3,
    pub free_accel: Vector3,
    pub force: Vector3,
    /// The acceleration in the world frame.
    pub world_accel: Vector3,
    pub drift: Vector3,
    pub half_accel: Vector3,
    pub half_gain: Vector3,
    pub fall: Vector3,
    pub step: Vector3,
    pub gain: Vector3,
    pub spin: Vector3,
}

/// `t` is what an IMU reading says without its biases: the force it felt, turned into the world,
/// with gravity.
pub open spec fn freed_of<N: Numerics>(
    n: &N,
    q: Quaternion,
    bias: ImuBias,
    gravity: Scalar,
    gyro: Vector3,
    accel: Vector3,
    t: MotionTrace,
) -> bool {
    &&& call_ensures(N::rotation_matrix, (n, &q), t.rotation)
    &&& call_ensures(N::minus, (n, &gyro, &bias.gyro), t.free_gyro)
    &&& call_ensures(N::minus, (n, &accel, &bias.accel), t.free_accel)
    &&& call_ensures(N::matrix3_apply, (n, &t.rotation, &t.free_accel), t.force)
    &&& call_ensures(
        N::plus,
        (n, &t.force, &Vector3::spec_along(2, gravity.opposite())),
        t.world_accel,
    )
}

/// One step of dead reckoning: `position += velocity * dt + 0.5 * accel * dt * dt`,
/// `velocity += accel * dt`, and a turn by `gyro * dt`.
pub open spec fn reckoned_of<N: Numerics>(
    n: &N,
    before: StateView,
    dt: Scalar,
    t: MotionTrace,
    after: StateView,
) -> bool {
    let half = Scalar { bits: HALF_BITS };
    &&& after.biases == before.biases
    &&& call_ensures(N::scaled, (n, &before.velocity, dt), t.drift)
    &&& call_ensures(N::scaled, (n, &t.world_accel, half), t.half_accel)
    &&& call_ensures(N::scaled, (n, &t.half_accel, dt), t.half_gain)
    &&& call_ensures(N::scaled, (n, &t.half_gain, dt), t.fall)
    &&& call_ensures(N::plus, (n, &t.drift, &t.fall), t.step)
    &&& call_ensures(N::plus, (n, &before.position, &t.step), after.position)
    &&& call_ensures(N::scaled, (n, &t.world_accel, dt), t.gain)
    &&& call_ensures(N::plus, (n, &before.velocity, &t.gain), after.velocity)
    &&& call_ensures(N::scaled, (n, &t.free_gyro, dt), t.spin)
    &&& turn_of(n, before.q, t.spin, after.q)
}

/// The blocks by which an interval carries the error state.
pub struct TransitionTrace {
    pub travel: Matrix3,
    pub lever: Matrix3,
    pub tilt: Matrix3,
    pub sensed: Matrix3,
    pub swing: Matrix3,
    pub kept: Matrix3,
    pub drifted: Matrix3,
}

/// `t` holds the blocks of the linearised motion of IMU `imu`.
pub open spec fn transition_blocks<N: Numerics>(
    n: &N,
    m: MotionTrace,
    dt: Scalar,
    t: TransitionTrace,
) -> bool {
    &&& call_ensures(N::matrix3_scaled, (n, &Matrix3::identity(), dt), t.travel)
    &&& call_ensures(N::matrix3_times, (n, &m.rotation, &spec_skew(m.free_accel)), t.lever)
    &&& call_ensures(N::matrix3_scaled, (n, &t.lever.opposite(), dt), t.tilt)
    &&& call_ensures(N::matrix3_scaled, (n, &m.rotation.opposite(), dt), t.sensed)
    &&& call_ensures(N::matrix3_scaled, (n, &spec_skew(m.free_gyro), dt), t.swing)
    &&& call_ensures(N::matrix3_minus, (n, &Matrix3::identity(), &t.swing), t.kept)
    &&& call_ensures(N::matrix3_scaled, (n, &Matrix3::identity().opposite(), dt), t.drifted)
}

/// Where the blocks stand: position follows velocity, velocity follows attitude and accelerometer
/// bias, attitude follows itself and the gyro bias.
pub open spec fn transition_placed(imu: int, t: TransitionTrace) -> Seq<Placed> {
    seq![
        Placed { row: 0, col: 3, block: t.travel },
        Placed { row: 3, col: 6, block: t.tilt },
        Placed { row: 3, col: (12 + 6 * imu) as usize, block: t.sensed },
        Placed { row: 6, col: 6, block: t.kept },
        Placed { row: 6, col: (9 + 6 * imu) as usize, block: t.drifted },
    ]
}

/// `f` carries the error state over an interval.
pub open spec fn transition_of<N: Numerics>(
    n: &N,
    dim: usize,
    imu: int,
    m: MotionTrace,
    dt: Scalar,
    f: N::Matrix,
) -> bool {
    exists|t: TransitionTrace| #[trigger]
        transition_blocks(n, m, dt, t) && square_of(n, dim, transition_placed(imu, t), true, f)
}

/// On the way to the covariance after an interval.
pub struct GrowthTrace<M> {
    pub f: M,
    pub noise: M,
    pub fp: M,
    pub ft: M,
    pub carried: M,
}

/// `after` is `f * before * f^T + noise`.
pub open spec fn grown_by<N: Numerics>(
    n: &N,
    before: N::Matrix,
    t: GrowthTrace<N::Matrix>,
    after: N::Matrix,
) -> bool {
    &&& call_ensures(N::matrix_times, (n, &t.f, &before), t.fp)
    &&& call_ensures(N::transposed, (n, &t.f), t.ft)
    &&& call_ensures(N::matrix_times, (n, &t.fp, &t.ft), t.carried)
    &&& call_ensures(N::matrix_plus, (n, &t.carried, &t.noise), after)
}

/// `after` is a filter newly set up at `world_from_body` with the given biases.
pub open spec fn initialized<N: Numerics>(
    n: &N,
    before: FilterView<N::Matrix>,
    world_from_body: Quaternion,
    biases: Seq<ImuBias>,
    stds: InitialStds,
    after: FilterView<N::Matrix>,
) -> bool {
    &&& after.noise == before.noise
    &&& after.gravity == before.gravity
    &&& after.x == (StateView {
        position: Vector3::zeros(),
        velocity: Vector3::zeros(),
        q: world_from_body,
        biases,
    })
    &&& diagonal_of(
        n,
        spec_dim(biases.len() as int) as usize,
        seed_blocks(biases.len() as int, stds),
        after.p_cov,
    )
}

/// See [`propagated`].
pub open spec fn propagated_by<N: Numerics>(
    n: &N,
    before: FilterView<N::Matrix>,
    dt: Scalar,
    imu: usize,
    gyro: Vector3,
    accel: Vector3,
    m: MotionTrace,
    g: GrowthTrace<N::Matrix>,
    after: FilterView<N::Matrix>,
) -> bool {
    let dim = spec_dim(before.x.biases.len() as int) as usize;
    &&& after.noise == before.noise
    &&& after.gravity == before.gravity
    &&& freed_of(n, before.x.q, before.x.biases[imu as int], before.gravity, gyro, accel, m)
    &&& reckoned_of(n, before.x, dt, m, after.x)
    &&& transition_of(n, dim, imu as int, m, dt, g.f)
    &&& process_noise_of(n, dim, noise_blocks(imu as int, before.noise), dt, g.noise)
    &&& grown_by(n, before.p_cov, g, after.p_cov)
}

/// `after` is `before` propagated over `dt` seconds with one reading of IMU `imu`: dead reckoning
/// of the estimate, and the covariance carried through the linearised motion with the interval's
/// noise added.
pub open spec fn propagated<N: Numerics>(
    n: &N,
    before: FilterView<N::Matrix>,
    dt: Scalar,
    imu: usize,
    gyro: Vector3,
    accel: Vector3,
    after: FilterView<N::Matrix>,
) -> bool {
    exists|m: MotionTrace, g: GrowthTrace<N::Matrix>| #[trigger]
        propagated_by(n, before, dt, imu, gyro, accel, m, g, after)
}

/// Three entries of a column, from `at` on.
pub open spec fn three_rows_of<N: Numerics>(n: &N, dx: N::Matrix, at: usize, r: Vector3) -> bool {
    &&& call_ensures(N::entry, (n, &dx, at, 0usize), r.x)
    &&& call_ensures(N::entry, (n, &dx, (at + 1) as usize, 0usize), r.y)
    &&& call_ensures(N::entry, (n, &dx, (at + 2) as usize, 0usize), r.z)
}

/// `after` is `before` plus the three entries of the correction from `at` on.
pub open spec fn shifted<N: Numerics>(
    n: &N,
    before: Vector3,
    dx: N::Matrix,
    at: usize,
    after: Vector3,
) -> bool {
    exists|step: Vector3|
        three_rows_of(n, dx, at, step) && #[trigger] call_ensures(
            N::plus,
            (n, &before, &step),
            after,
        )
}

/// `after` is `before` turned by the three entries of the correction from `at` on.
pub open spec fn swung<N: Numerics>(
    n: &N,
    before: Quaternion,
    dx: N::Matrix,
    at: usize,
    after: Quaternion,
) -> bool {
    exists|step: Vector3|
        three_rows_of(n, dx, at, step) && #[trigger] turn_of(n, before, step, after)
}

/// `after` is `before` with the correction's entries put where the error state has them.
pub open spec fn injected<N: Numerics>(
    n: &N,
    before: StateView,
    dx: N::Matrix,
    after: StateView,
) -> bool {
    &&& shifted(n, before.position, dx, 0, after.position)
    &&& shifted(n, before.velocity, dx, 3, after.velocity)
    &&& swung(n, before.q, dx, 6, after.q)
    &&& after.biases.len() == before.biases.len()
    &&& forall|imu: int|
        0 <= imu < before.biases.len() ==> shifted(
            n,
            before.biases[imu].gyro,
            dx,
            (9 + 6 * imu) as usize,
            (#[trigger] after.biases[imu]).gyro,
        ) && shifted(
            n,
            before.biases[imu].accel,
            dx,
            (12 + 6 * imu) as usize,
            after.biases[imu].accel,
        )
}

impl JacobianView {
    /// The row's entry in a column of the error state.
    pub open spec fn at(self, col: int) -> Scalar {
        if col < 3 {
            self.position.axis(col)
        } else if col < 6 {
            self.velocity.axis(col - 3)
        } else if col < 9 {
            self.theta.axis(col - 6)
        } else if (col - 9) / 6 < self.biases.len() {
            let bias = self.biases[(col - 9) / 6];
            if (col - 9) % 6 < 3 {
                bias.gyro.axis((col - 9) % 6)
            } else {
                bias.accel.axis((col - 9) % 6 - 3)
            }
        } else {
            Scalar::zero()
        }
    }
}

impl JacobianRow {
    /// The row's entry in a column of the error state.
    pub fn get(&self, col: usize) -> (r: Scalar)
        ensures
            r == self@.at(col as int),
    {
        if col < 3 {
            self.position.component(col)
        } else if col < 6 {
            self.velocity.component(col - 3)
        } else if col < 9 {
            self.theta.component(col - 6)
        } else if (col - 9) / 6 < self.biases.len() {
            let bias: BiasEntries = self.biases[(col - 9) / 6];
            if (col - 9) % 6 < 3 {
                bias.gyro.component((col - 9) % 6)
            } else {
                bias.accel.component((col - 9) % 6 - 3)
            }
        } else {
            Scalar::zero()
        }
    }
}

/// `entries` are those of the rows' Jacobian, row by row.
pub open spec fn jacobian_laid_out(rows: Seq<RowView>, dim: int, entries: Seq<Scalar>) -> bool {
    &&& entries.len() == rows.len() * dim
    &&& forall|i: int, col: int|
        0 <= i < rows.len() && 0 <= col < dim ==> #[trigger] entries[i * dim + col]
            == rows[i].jacobian.at(col)
}

/// `entries` are those of a square matrix with the rows' variances on its diagonal.
pub open spec fn variances_laid_out(rows: Seq<RowView>, entries: Seq<Scalar>) -> bool {
    &&& entries.len() == rows.len() * rows.len()
    &&& forall|i: int, j: int|
        0 <= i < rows.len() && 0 <= j < rows.len() ==> #[trigger] entries[i * rows.len() + j]
            == if i == j {
            rows[i].variance
        } else {
            Scalar::zero()
        }
}

/// `entries` are the rows' residuals.
pub open spec fn residuals_laid_out(rows: Seq<RowView>, entries: Seq<Scalar>) -> bool {
    &&& entries.len() == rows.len()
    &&& forall|i: int| 0 <= i < rows.len() ==> #[trigger] entries[i] == rows[i].residual
}

/// The matrices of a measurement.
pub struct MeasuredMatrices<M> {
    pub jacobian: M,
    pub noise: M,
    pub residual: M,
}

/// `m` holds the matrices of these rows.
pub open spec fn measurement_of<N: Numerics>(
    n: &N,
    rows: Seq<RowView>,
    dim: usize,
    m: MeasuredMatrices<N::Matrix>,
) -> bool {
    let count = rows.len() as usize;
    &&& jacobian_of(n, rows, count, dim, m.jacobian)
    &&& noise_of(n, rows, count, m.noise)
    &&& residual_of(n, rows, count, m.residual)
}

/// `m` is the rows' Jacobian.
pub open spec fn jacobian_of<N: Numerics>(
    n: &N,
    rows: Seq<RowView>,
    count: usize,
    dim: usize,
    m: N::Matrix,
) -> bool {
    exists|list: Vec<Scalar>| #[trigger]
        call_ensures(N::matrix, (n, count, dim, &list), m) && jacobian_laid_out(
            rows,
            dim as int,
            list@,
        )
}

/// `m` has the rows' variances on its diagonal.
pub open spec fn noise_of<N: Numerics>(
    n: &N,
    rows: Seq<RowView>,
    count: usize,
    m: N::Matrix,
) -> bool {
    exists|list: Vec<Scalar>| #[trigger]
        call_ensures(N::matrix, (n, count, count, &list), m) && variances_laid_out(rows, list@)
}

/// `m` is the column of the rows' residuals.
pub open spec fn residual_of<N: Numerics>(
    n: &N,
    rows: Seq<RowView>,
    count: usize,
    m: N::Matrix,
) -> bool {
    exists|list: Vec<Scalar>| #[trigger]
        call_ensures(N::matrix, (n, count, 1usize, &list), m) && residuals_laid_out(rows, list@)
}

/// On the way to an innovation covariance.
pub struct InnovationTrace<M> {
    pub jp: M,
    pub jt: M,
    pub jpj: M,
    pub innovation: M,
}

/// `inverse` is that of the innovation covariance `J * P * J^T + R`, if there is one.
pub open spec fn innovation_by<N: Numerics>(
    n: &N,
    p: N::Matrix,
    m: MeasuredMatrices<N::Matrix>,
    t: InnovationTrace<N::Matrix>,
    inverse: Option<N::Matrix>,
) -> bool {
    &&& call_ensures(N::matrix_times, (n, &m.jacobian, &p), t.jp)
    &&& call_ensures(N::transposed, (n, &m.jacobian), t.jt)
    &&& call_ensures(N::matrix_times, (n, &t.jp, &t.jt), t.jpj)
    &&& call_ensures(N::matrix_plus, (n, &t.jpj, &m.noise), t.innovation)
    &&& call_ensures(N::inverted, (n, &t.innovation), inverse)
}

/// On the way to a gate's decision.
pub struct GateTrace<M> {
    pub rt: M,
    pub rti: M,
    pub rtir: M,
    pub distance: Scalar,
    pub squared: Scalar,
    pub count: Scalar,
    pub limit: Scalar,
}

/// `t` holds the squared Mahalanobis distance `r^T * S^-1 * r` of the residuals, and the one at
/// which a gate of `gate` standard deviations per dimension closes.
pub open spec fn gated_by<N: Numerics>(
    n: &N,
    inverse: N::Matrix,
    residual: N::Matrix,
    gate: Scalar,
    dimensions: int,
    t: GateTrace<N::Matrix>,
) -> bool {
    &&& call_ensures(N::transposed, (n, &residual), t.rt)
    &&& call_ensures(N::matrix_times, (n, &t.rt, &inverse), t.rti)
    &&& call_ensures(N::matrix_times, (n, &t.rti, &residual), t.rtir)
    &&& call_ensures(N::entry, (n, &t.rtir, 0usize, 0usize), t.distance)
    &&& call_ensures(N::times, (n, gate, gate), t.squared)
    &&& call_ensures(N::from_int, (n, dimensions as i64), t.count)
    &&& call_ensures(N::times, (n, t.squared, t.count), t.limit)
}

/// On the way to a correction.
pub struct CorrectionTrace<M> {
    pub pj: M,
    pub gain: M,
    pub dx: M,
    pub identity: M,
    pub kj: M,
    pub left: M,
    pub left_t: M,
    pub lp: M,
    pub lpl: M,
    pub kr: M,
    pub kt: M,
    pub krk: M,
}

/// `t.dx` is the correction that the gain `K = P * J^T * S^-1` makes, and `after` the covariance
/// `(I - K * J) * P * (I - K * J)^T + K * R * K^T`.
pub open spec fn corrected_by<N: Numerics>(
    n: &N,
    p: N::Matrix,
    dim: usize,
    m: MeasuredMatrices<N::Matrix>,
    jt: N::Matrix,
    inverse: N::Matrix,
    t: CorrectionTrace<N::Matrix>,
    after: N::Matrix,
) -> bool {
    &&& call_ensures(N::matrix_times, (n, &p, &jt), t.pj)
    &&& call_ensures(N::matrix_times, (n, &t.pj, &inverse), t.gain)
    &&& call_ensures(N::matrix_times, (n, &t.gain, &m.residual), t.dx)
    &&& square_of(n, dim, Seq::empty(), true, t.identity)
    &&& call_ensures(N::matrix_times, (n, &t.gain, &m.jacobian), t.kj)
    &&& call_ensures(N::matrix_minus, (n, &t.identity, &t.kj), t.left)
    &&& call_ensures(N::matrix_times, (n, &t.left, &p), t.lp)
    &&& call_ensures(N::transposed, (n, &t.left), t.left_t)
    &&& call_ensures(N::matrix_times, (n, &t.lp, &t.left_t), t.lpl)
    &&& call_ensures(N::matrix_times, (n, &t.gain, &m.noise), t.kr)
    &&& call_ensures(N::transposed, (n, &t.gain), t.kt)
    &&& call_ensures(N::matrix_times, (n, &t.kr, &t.kt), t.krk)
    &&& call_ensures(N::matrix_plus, (n, &t.lpl, &t.krk), after)
}

/// What a Kalman update did.
pub struct UpdateTrace<M> {
    pub m: MeasuredMatrices<M>,
    pub innovation: InnovationTrace<M>,
    pub inverse: Option<M>,
    pub gate: GateTrace<M>,
    pub correction: CorrectionTrace<M>,
}

/// The threshold lets a measurement at `distance` pass. One that is not above zero lets all pass.
pub open spec fn gate_passes(gate: Scalar, distance: Scalar, limit: Scalar) -> bool {
    gate.positive() ==> distance.below(limit)
}

/// An update of `before` with `rows` under `gate` left `after`, and took the rows or not: it did
/// if their innovation covariance has an inverse and the threshold let them pass.
pub open spec fn updated_by<N: Numerics>(
    n: &N,
    before: FilterView<N::Matrix>,
    rows: Seq<RowView>,
    gate: Scalar,
    t: UpdateTrace<N::Matrix>,
    after: FilterView<N::Matrix>,
    accepted: bool,
) -> bool {
    let dim = spec_dim(before.x.biases.len() as int) as usize;
    &&& measurement_of(n, rows, dim, t.m)
    &&& innovation_by(n, before.p_cov, t.m, t.innovation, t.inverse)
    &&& t.inverse is Some && gate.positive() ==> gated_by(
        n,
        t.inverse->0,
        t.m.residual,
        gate,
        rows.len() as int,
        t.gate,
    )
    &&& accepted == (t.inverse is Some && gate_passes(gate, t.gate.distance, t.gate.limit))
    &&& !accepted ==> after == before
    &&& accepted ==> {
        &&& corrected_by(
            n,
            before.p_cov,
            dim,
            t.m,
            t.innovation.jt,
            t.inverse->0,
            t.correction,
            after.p_cov,
        )
        &&& after.noise == before.noise
        &&& after.gravity == before.gravity
        &&& injected(n, before.x, t.correction.dx, after.x)
    }
}

/// See [`updated_by`].
pub open spec fn updated<N: Numerics>(
    n: &N,
    before: FilterView<N::Matrix>,
    rows: Seq<RowView>,
    gate: Scalar,
    after: FilterView<N::Matrix>,
    accepted: bool,
) -> bool {
    exists|t: UpdateTrace<N::Matrix>| #[trigger]
        updated_by(n, before, rows, gate, t, after, accepted)
}

/// The entries of the rows' Jacobian.
fn jacobian_entries(rows: &Vec<Row>, dim: usize) -> (list: Vec<Scalar>)
    ensures
        jacobian_laid_out(listed_rows(rows@), dim as int, list@),
{
    let mut list: Vec<Scalar> = Vec::new();
    assert(0 * dim == 0) by (nonlinear_arith);
    let mut row: usize = 0;
    while row < rows.len()
        invariant
            row <= rows@.len(),
            list@.len() == row * dim,
            forall|y: int, x: int|
                0 <= y < row && 0 <= x < dim ==> #[trigger] list@[y * dim + x]
                    == rows@[y].jacobian@.at(x),
        decreases rows@.len() - row,
    {
        let ghost start = list@;
        let mut col: usize = 0;
        while col < dim
            invariant
                row < rows@.len(),
                col <= dim,
                list@.len() == row * dim + col,
                start.len() == row * dim,
                forall|k: int| 0 <= k < start.len() ==> list@[k] == start[k],
                forall|x: int|
                    0 <= x < col ==> #[trigger] list@[row * dim + x] == rows@[row as int].jacobian@.at(
                        x,
                    ),
            decreases dim - col,
        {
            list.push(rows[row].jacobian.get(col));
            col += 1;
        }
        assert((row + 1) * dim == row * dim + dim) by (nonlinear_arith);
        assert forall|y: int, x: int| 0 <= y < row + 1 && 0 <= x < dim implies #[trigger] list@[y
            * dim + x] == rows@[y].jacobian@.at(x) by {
            if y < row {
                assert(0 <= y * dim + x < row * dim) by (nonlinear_arith)
                    requires
                        0 <= y < row,
                        0 <= x < dim,
                ;
                assert(start[y * dim + x] == rows@[y].jacobian@.at(x));
            }
        }
        row += 1;
    }
    list
}

/// The entries of a square matrix with the rows' variances on its diagonal.
fn variance_entries(rows: &Vec<Row>) -> (list: Vec<Scalar>)
    ensures
        variances_laid_out(listed_rows(rows@), list@),
{
    let count: usize = rows.len();
    let mut list: Vec<Scalar> = Vec::new();
    assert(0 * count == 0) by (nonlinear_arith);
    let mut row: usize = 0;
    while row < count
        invariant
            count == rows@.len(),
            row <= count,
            list@.len() == row * count,
            forall|y: int, x: int|
                0 <= y < row && 0 <= x < count ==> #[trigger] list@[y * count + x] == if y == x {
                    rows@[y].variance
                } else {
                    Scalar::zero()
                },
        decreases count - row,
    {
        let ghost start = list@;
        let mut col: usize = 0;
        while col < count
            invariant
                count == rows@.len(),
                row < count,
                col <= count,
                list@.len() == row * count + col,
                start.len() == row * count,
                forall|k: int| 0 <= k < start.len() ==> list@[k] == start[k],
                forall|x: int|
                    0 <= x < col ==> #[trigger] list@[row * count + x] == if row == x {
                        rows@[row as int].variance
                    } else {
                        Scalar::zero()
                    },
            decreases count - col,
        {
            if col == row {
                list.push(rows[row].variance);
            } else {
                list.push(Scalar::zero());
            }
            col += 1;
        }
        assert((row + 1) * count == row * count + count) by (nonlinear_arith);
        assert forall|y: int, x: int| 0 <= y < row + 1 && 0 <= x < count implies #[trigger] list@[y
            * count + x] == if y == x {
            rows@[y].variance
        } else {
            Scalar::zero()
        } by {
            if y < row {
                assert(0 <= y * count + x < row * count) by (nonlinear_arith)
                    requires
                        0 <= y < row,
                        0 <= x < count,
                ;
                assert(start[y * count + x] == list@[y * count + x]);
            }
        }
        row += 1;
    }
    list
}

/// The rows' residuals.
fn residual_entries(rows: &Vec<Row>) -> (list: Vec<Scalar>)
    ensures
        residuals_laid_out(listed_rows(rows@), list@),
{
    let mut list: Vec<Scalar> = Vec::new();
    let mut i: usize = 0;
    while i < rows.len()
        invariant
            i <= rows@.len(),
            list@.len() == i,
            forall|k: int| 0 <= k < i ==> #[trigger] list@[k] == rows@[k].residual,
        decreases rows@.len() - i,
    {
        list.push(rows[i].residual);
        i += 1;
    }
    list
}

impl<N: Numerics> Filter<N> {
    /// A filter without an IMU, at the origin, with the identity for its covariance.
    pub fn new(n: &N) -> (r: Filter<N>)
        ensures
            r@.noise.len() == 0,
            r@.gravity == (Scalar { bits: 0x4023_9d01_3a92_a305 }),
            r@.x == (StateView {
                position: Vector3::zeros(),
                velocity: Vector3::zeros(),
                q: Quaternion::identity(),
                biases: Seq::empty(),
            }),
            square_of(n, 9, Seq::empty(), true, r@.p_cov),
    {
        let placed: Vec<Placed> = Vec::new();
        let p_cov = square(n, 9, &placed, true);
        assert(placed@ =~= Seq::empty());
        Filter {
            noise: Vec::new(),
            gravity: Scalar { bits: 0x4023_9d01_3a92_a305 },  // 9.80665
            x: State::default(),
            p_cov: Arc::new(p_cov),
        }
    }

    /// The length of the error state.
    pub fn dim(&self) -> (r: usize)
        requires
            imus_fit(self.x.biases@.len() as int),
        ensures
            r == spec_dim(self.x.biases@.len() as int),
    {
        9 + 6 * self.x.biases.len()
    }

    /// Starts over at the origin, at rest, with the given attitude and biases.
    pub fn init(
        &mut self,
        n: &N,
        world_from_body: Quaternion,
        biases: Vec<ImuBias>,
        stds: InitialStds,
    )
        requires
            imus_fit(biases@.len() as int),
        ensures
            initialized(n, old(self)@, world_from_body, biases@, stds, final(self)@),
    {
        self.x = State {
            position: Vector3::zeros(),
            velocity: Vector3::zeros(),
            q: world_from_body,
            biases,
        };
        let dim: usize = self.dim();
        let blocks = list_seed_blocks(self.x.biases.len(), stds);
        self.p_cov = Arc::new(diagonal(n, dim, &blocks));
    }

    /// One step of dead reckoning from IMU `imu`'s sample, using that IMU's bias and noise. With
    /// interleaved IMUs each sample integrates the slice of time since the previous sample of any
    /// IMU.
    pub fn propagate(
        &mut self,
        n: &N,
        dt: Scalar,
        imu: usize,
        gyro: &Vector3,
        accel: &Vector3,
    )
        requires
            old(self)@.well_formed(),
            imu < old(self).x.biases@.len(),
        ensures
            propagated(n, old(self)@, dt, imu, *gyro, *accel, final(self)@),
    {
        let ghost before = self@;
        let dim: usize = self.dim();
        let bias: ImuBias = self.x.biases[imu];
        let rotation = n.rotation_matrix(&self.x.q);
        let free_gyro = n.minus(gyro, &bias.gyro);
        let free_accel = n.minus(accel, &bias.accel);
        let force = n.matrix3_apply(&rotation, &free_accel);
        let world_accel = n.plus(&force, &Vector3::along(2, self.gravity.negated()));

        let travel = n.matrix3_scaled(&Matrix3::identity(), dt);
        let lever = n.matrix3_times(&rotation, &skew(&free_accel));
        let tilt = n.matrix3_scaled(&lever.negated(), dt);
        let sensed = n.matrix3_scaled(&rotation.negated(), dt);
        let swing = n.matrix3_scaled(&skew(&free_gyro), dt);
        let kept = n.matrix3_minus(&Matrix3::identity(), &swing);
        let drifted = n.matrix3_scaled(&Matrix3::identity().negated(), dt);
        let mut placed: Vec<Placed> = Vec::new();
        placed.push(Placed { row: 0, col: 3, block: travel });
        placed.push(Placed { row: 3, col: 6, block: tilt });
        placed.push(Placed { row: 3, col: accel_bias_col(imu), block: sensed });
        placed.push(Placed { row: 6, col: 6, block: kept });
        placed.push(Placed { row: 6, col: gyro_bias_col(imu), block: drifted });
        let f = square(n, dim, &placed, true);

        let half = Scalar { bits: HALF_BITS };
        let drift = n.scaled(&self.x.velocity, dt);
        let half_accel = n.scaled(&world_accel, half);
        let half_gain = n.scaled(&half_accel, dt);
        let fall = n.scaled(&half_gain, dt);
        let step = n.plus(&drift, &fall);
        let gain = n.scaled(&world_accel, dt);
        let spin = n.scaled(&free_gyro, dt);
        self.x.position = n.plus(&self.x.position, &step);
        self.x.velocity = n.plus(&self.x.velocity, &gain);
        self.x.q = turn(n, &self.x.q, &spin);

        let blocks = list_noise_blocks(imu, &self.noise);
        let noise = process_noise(n, dim, &blocks, dt);
        let fp = n.matrix_times(&f, &*self.p_cov);
        let ft = n.transposed(&f);
        let carried = n.matrix_times(&fp, &ft);
        self.p_cov = Arc::new(n.matrix_plus(&carried, &noise));
        proof {
            let t = TransitionTrace { travel, lever, tilt, sensed, swing, kept, drifted };
            let m = MotionTrace {
                rotation,
                free_gyro,
                free_accel,
                force,
                world_accel,
                drift,
                half_accel,
                half_gain,
                fall,
                step,
                gain,
                spin,
            };
            let g = GrowthTrace::<N::Matrix> { f, noise, fp, ft, carried };
            assert(placed@ =~= transition_placed(imu as int, t));
            assert(transition_blocks(n, m, dt, t));
            assert(transition_of(n, dim, imu as int, m, dt, f));
            assert(reckoned_of(n, before.x, dt, m, self@.x));
            assert(grown_by(n, before.p_cov, g, self@.p_cov));
            assert(propagated_by(n, before, dt, imu, *gyro, *accel, m, g, self@));
        }
    }

    /// A Kalman update. `gate` is a Mahalanobis threshold in standard deviations per degree of
    /// freedom; zero disables it. A distance that is not a number is never within it.
    pub fn update(&mut self, n: &N, rows: &Vec<Row>, gate: Scalar) -> (accepted: bool)
        requires
            old(self)@.well_formed(),
        ensures
            updated(n, old(self)@, listed_rows(rows@), gate, final(self)@, accepted),
            final(self)@.well_formed(),
    {
        let ghost before = self@;
        let dim: usize = self.dim();
        let count: usize = rows.len();
        let jacobian_list = jacobian_entries(rows, dim);
        let noise_list = variance_entries(rows);
        let residual_list = residual_entries(rows);
        let jacobian = n.matrix(count, dim, &jacobian_list);
        let noise = n.matrix(count, count, &noise_list);
        let residual = n.matrix(count, 1, &residual_list);
        let jp = n.matrix_times(&jacobian, &*self.p_cov);
        let jt = n.transposed(&jacobian);
        let jpj = n.matrix_times(&jp, &jt);
        let innovation = n.matrix_plus(&jpj, &noise);
        let inverted = n.inverted(&innovation);
        let ghost mut t = UpdateTrace::<N::Matrix> {
            m: MeasuredMatrices { jacobian, noise, residual },
            innovation: InnovationTrace { jp, jt, jpj, innovation },
            inverse: inverted,
            gate: arbitrary(),
            correction: arbitrary(),
        };
        assert(jacobian_of(n, listed_rows(rows@), count, dim, jacobian));
        assert(noise_of(n, listed_rows(rows@), count, noise));
        assert(residual_of(n, listed_rows(rows@), count, residual));
        assert(measurement_of(n, listed_rows(rows@), dim, t.m));
        assert(innovation_by(n, before.p_cov, t.m, t.innovation, t.inverse));
        let inverse = match inverted {
            Some(inverse) => inverse,
            None => {
                assert(updated_by(n, before, listed_rows(rows@), gate, t, self@, false));
                return false;
            },
        };
        if gate.is_positive() {
            let rt = n.transposed(&residual);
            let rti = n.matrix_times(&rt, &inverse);
            let rtir = n.matrix_times(&rti, &residual);
            let distance: Scalar = n.entry(&rtir, 0, 0);
            let squared: Scalar = n.times(gate, gate);
            let dimensions: Scalar = n.from_int(
                #[verifier::truncate]
                (count as i64),
            );
            let limit: Scalar = n.times(squared, dimensions);
            proof {
                t.gate =
                GateTrace { rt, rti, rtir, distance, squared, count: dimensions, limit };
                assert(gated_by(n, inverse, residual, gate, rows@.len() as int, t.gate));
            }
            if !distance.lt(limit) {
                assert(updated_by(n, before, listed_rows(rows@), gate, t, self@, false));
                return false;
            }
        }
        let pj = n.matrix_times(&*self.p_cov, &jt);
        let gain = n.matrix_times(&pj, &inverse);
        let dx = n.matrix_times(&gain, &residual);
        let none: Vec<Placed> = Vec::new();
        assert(none@ =~= Seq::empty());
        let identity = square(n, dim, &none, true);
        let kj = n.matrix_times(&gain, &jacobian);
        let left = n.matrix_minus(&identity, &kj);
        let lp = n.matrix_times(&left, &*self.p_cov);
        let left_t = n.transposed(&left);
        let lpl = n.matrix_times(&lp, &left_t);
        let kr = n.matrix_times(&gain, &noise);
        let kt = n.transposed(&gain);
        let krk = n.matrix_times(&kr, &kt);
        self.p_cov = Arc::new(n.matrix_plus(&lpl, &krk));
        proof {
            t.correction =
            CorrectionTrace { pj, gain, dx, identity, kj, left, left_t, lp, lpl, kr, kt, krk };
            assert(corrected_by(
                n,
                before.p_cov,
                dim,
                t.m,
                jt,
                inverse,
                t.correction,
                self@.p_cov,
            ));
        }
        self.inject(n, &dx);
        assert(updated_by(n, before, listed_rows(rows@), gate, t, self@, true));
        true
    }

    /// Three entries of a correction, from `at` on.
    fn three_rows(n: &N, dx: &N::Matrix, at: usize) -> (r: Vector3)
        requires
            at + 2 <= usize::MAX,
        ensures
            three_rows_of(n, *dx, at, r),
    {
        Vector3 { x: n.entry(dx, at, 0), y: n.entry(dx, at + 1, 0), z: n.entry(dx, at + 2, 0) }
    }

    fn inject(&mut self, n: &N, dx: &N::Matrix)
        requires
            imus_fit(old(self)@.x.biases.len() as int),
        ensures
            injected(n, old(self)@.x, *dx, final(self)@.x),
            final(self)@.noise == old(self)@.noise,
            final(self)@.gravity == old(self)@.gravity,
            final(self)@.p_cov == old(self)@.p_cov,
    {
        let ghost before = self@;
        let position_step = Self::three_rows(n, dx, 0);
        self.x.position = n.plus(&self.x.position, &position_step);
        let velocity_step = Self::three_rows(n, dx, 3);
        self.x.velocity = n.plus(&self.x.velocity, &velocity_step);
        let by = Self::three_rows(n, dx, 6);
        self.x.q = turn(n, &self.x.q, &by);
        let ghost moved = self.x@;
        assert(shifted(n, before.x.position, *dx, 0, moved.position));
        assert(shifted(n, before.x.velocity, *dx, 3, moved.velocity));
        assert(swung(n, before.x.q, *dx, 6, moved.q));
        let mut imu: usize = 0;
        while imu < self.x.biases.len()
            invariant
                imu <= before.x.biases.len(),
                imus_fit(before.x.biases.len() as int),
                self@.noise == before.noise,
                self@.gravity == before.gravity,
                self@.p_cov == before.p_cov,
                self@.x.position == moved.position,
                self@.x.velocity == moved.velocity,
                self@.x.q == moved.q,
                self@.x.biases.len() == before.x.biases.len(),
                forall|k: int|
                    imu <= k < before.x.biases.len() ==> self@.x.biases[k] == before.x.biases[k],
                forall|k: int|
                    0 <= k < imu ==> shifted(
                        n,
                        before.x.biases[k].gyro,
                        *dx,
                        (9 + 6 * k) as usize,
                        (#[trigger] self@.x.biases[k]).gyro,
                    ) && shifted(
                        n,
                        before.x.biases[k].accel,
                        *dx,
                        (12 + 6 * k) as usize,
                        self@.x.biases[k].accel,
                    ),
            decreases before.x.biases.len() - imu,
        {
            let bias: ImuBias = self.x.biases[imu];
            let gyro_step = Self::three_rows(n, dx, gyro_bias_col(imu));
            let accel_step = Self::three_rows(n, dx, accel_bias_col(imu));
            let gyro = n.plus(&bias.gyro, &gyro_step);
            let accel = n.plus(&bias.accel, &accel_step);
            assert(shifted(n, bias.gyro, *dx, (9 + 6 * imu) as usize, gyro));
            assert(shifted(n, bias.accel, *dx, (12 + 6 * imu) as usize, accel));
            self.x.biases.set(imu, ImuBias { gyro, accel });
            imu += 1;
        }
    }
}

} // verus!
