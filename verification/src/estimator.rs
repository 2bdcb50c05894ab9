//! One step of the fusion: what a measurement, an IMU sample or the seed does to the estimate.

use std::sync::Arc;

use vstd::prelude::*;

use crate::eskf::{listed_rows, propagated, updated, BiasEntries, Filter, FilterView, JacobianRow};
use crate::eskf::{JacobianView, Noise, Row, RowView, State, StateView};
use crate::formulas::{body_motion, body_motion_of, nudged, nudged_of, pose_residual};
use crate::formulas::{pose_residual_of, seconds, seconds_of, BodyMotion};
use crate::numerics::Numerics;
use crate::scalar::Scalar;
use crate::stamp::{span, span_ns, NS_PER_SEC};
use crate::types::{copied, skew, spec_skew, Pose, Six, Vector3};

verus! {

/// How long a silent source keeps its share of the blend.
pub const SOURCE_ACTIVITY_TIMEOUT_NS: i64 = 500_000_000;

/// What one odometry message says, ready to be fused.
#[derive(Clone, Copy, Debug, PartialEq, Eq, Structural)]
pub struct Measurement {
    /// The source's place among the configured ones.
    pub source: usize,
    /// The motion since the source's previous pose.
    pub delta: Option<Pose>,
    /// Zero means dropped.
    pub pose_variance: Six,
    /// Zero means dropped.
    pub twist_variance: Six,
    pub linear: Vector3,
    pub angular: Vector3,
}

/// A source keeps its share of the blend until it has been silent for the timeout.
#[derive(Clone, Copy, Debug, PartialEq, Eq, Structural)]
pub struct SourceActivity {
    pub last_ns: i64,
    pub inverse_variance: Six,
}

impl SourceActivity {
    pub open spec fn spec_none() -> SourceActivity {
        SourceActivity { last_ns: 0, inverse_variance: Six::zeros() }
    }
}

impl Default for SourceActivity {
    fn default() -> (r: SourceActivity)
        ensures
            r == SourceActivity::spec_none(),
    {
        SourceActivity { last_ns: 0, inverse_variance: Six::zeros() }
    }
}

#[derive(Clone, Copy, Debug, PartialEq, Eq, Structural)]
pub enum EventKind {
    Seed,
    Imu { gyro: Vector3, accel: Vector3 },
    Measurement(Measurement),
}

impl EventKind {
    /// A measurement is of one of the sources.
    pub open spec fn within(self, sources: int) -> bool {
        self matches EventKind::Measurement(m) ==> m.source < sources
    }
}

/// The settings that a step goes by.
#[derive(Clone, Copy, Debug, PartialEq, Eq, Structural)]
pub struct StepRules {
    /// Whether measurements go through the Kalman filter. Off, they are blended.
    pub use_imu: bool,
    pub mahalanobis_gate: Scalar,
    pub constraint_twist_variances: Six,
}

/// What a step starts from and leaves behind, so that a late arrival can replay from its slot.
pub struct Snapshot<N: Numerics> {
    pub state: State,
    /// Shared with the live estimate, until that has another one.
    pub covariance: Arc<N::Matrix>,
    /// The fused pose at which each source was last anchored.
    pub anchors: Vec<Option<Pose>>,
    pub activity: Vec<SourceActivity>,
    pub last_imu_ns: i64,
    pub last_gyro: Vector3,
}

/// What a [`Snapshot`] holds.
pub struct Memory<M> {
    pub x: StateView,
    pub p_cov: M,
    pub anchors: Seq<Option<Pose>>,
    pub activity: Seq<SourceActivity>,
    pub last_imu_ns: i64,
    pub last_gyro: Vector3,
}

impl<N: Numerics> View for Snapshot<N> {
    type V = Memory<N::Matrix>;

    open spec fn view(&self) -> Memory<N::Matrix> {
        Memory {
            x: self.state@,
            p_cov: *self.covariance,
            anchors: self.anchors@,
            activity: self.activity@,
            last_imu_ns: self.last_imu_ns,
            last_gyro: self.last_gyro,
        }
    }
}

impl<M> Memory<M> {
    /// One IMU, and an anchor and an activity for each of the sources.
    pub open spec fn fits(self, sources: int) -> bool {
        &&& self.x.biases.len() == 1
        &&& self.anchors.len() == sources
        &&& self.activity.len() == sources
    }

    /// The filter that holds this estimate.
    pub open spec fn filter(self, c: Constants) -> FilterView<M> {
        FilterView { noise: c.noise, gravity: c.gravity, x: self.x, p_cov: self.p_cov }
    }

    /// The same but for the estimate, which is the filter's.
    pub open spec fn with_filter(self, f: FilterView<M>) -> Memory<M> {
        Memory { x: f.x, p_cov: f.p_cov, ..self }
    }
}

/// What the filter is propagated with, fixed when it was set up.
pub struct Constants {
    pub noise: Seq<Noise>,
    pub gravity: Scalar,
}

/// The estimate's position and attitude as a pose.
pub open spec fn pose_of(x: StateView) -> Pose {
    Pose { translation: x.position, rotation: x.q }
}

/// A row that reads the error state nowhere.
pub open spec fn blank_jacobian() -> JacobianView {
    JacobianView {
        position: Vector3::zeros(),
        velocity: Vector3::zeros(),
        theta: Vector3::zeros(),
        biases: Seq::empty(),
    }
}

/// A pose row reads one position or one attitude error.
pub open spec fn pose_row(dim: int, residual: Six, variance: Six) -> RowView {
    RowView {
        jacobian: if dim < 3 {
            JacobianView { position: Vector3::spec_along(dim, Scalar::one()), ..blank_jacobian() }
        } else {
            JacobianView { theta: Vector3::spec_along(dim - 3, Scalar::one()), ..blank_jacobian() }
        },
        residual: residual.at(dim),
        variance: variance.at(dim),
    }
}

/// See [`pose_row`].
fn make_pose_row(dim: usize, residual: Six, variance: Six) -> (row: Row)
    requires
        dim < 6,
    ensures
        row@ == pose_row(dim as int, residual, variance),
{
    let (position, theta) = if dim < 3 {
        (Vector3::along(dim, Scalar::one()), Vector3::zeros())
    } else {
        (Vector3::zeros(), Vector3::along(dim - 3, Scalar::one()))
    };
    let biases: Vec<BiasEntries> = Vec::new();
    assert(biases@ =~= Seq::empty());
    Row {
        jacobian: JacobianRow { position, velocity: Vector3::zeros(), theta, biases },
        residual: residual.get(dim),
        variance: variance.get(dim),
    }
}

/// The pose rows of the first dimensions, without the dropped ones.
pub open spec fn pose_rows(residual: Six, variance: Six, dims: nat) -> Seq<RowView>
    decreases dims,
{
    if dims == 0 {
        Seq::empty()
    } else {
        let dim = dims - 1;
        let before = pose_rows(residual, variance, dim as nat);
        if variance.at(dim).positive() {
            before.push(pose_row(dim, residual, variance))
        } else {
            before
        }
    }
}

/// A row of the body's velocity reads velocity and attitude; one of its angular rate reads the
/// gyro bias, as the rate is no state but is predicted from the last gyro sample.
pub open spec fn twist_row(
    dim: int,
    motion: BodyMotion,
    residual: Six,
    variance: Six,
) -> RowView {
    RowView {
        jacobian: if dim < 3 {
            JacobianView {
                velocity: motion.body_from_world.row(dim),
                theta: spec_skew(motion.velocity).row(dim),
                ..blank_jacobian()
            }
        } else {
            JacobianView {
                biases: seq![
                    BiasEntries {
                        gyro: Vector3::spec_along(dim - 3, Scalar::minus_one()),
                        accel: Vector3::zeros(),
                    },
                ],
                ..blank_jacobian()
            }
        },
        residual: residual.at(dim),
        variance: variance.at(dim),
    }
}

/// See [`twist_row`].
fn make_twist_row(dim: usize, motion: &BodyMotion, residual: Six, variance: Six) -> (row: Row)
    requires
        dim < 6,
    ensures
        row@ == twist_row(dim as int, *motion, residual, variance),
{
    let mut biases: Vec<BiasEntries> = Vec::new();
    let (velocity, theta) = if dim < 3 {
        (motion.body_from_world.row_at(dim), skew(&motion.velocity).row_at(dim))
    } else {
        biases.push(
            BiasEntries {
                gyro: Vector3::along(dim - 3, Scalar::minus_one()),
                accel: Vector3::zeros(),
            },
        );
        (Vector3::zeros(), Vector3::zeros())
    };
    assert(biases@ =~= twist_row(dim as int, *motion, residual, variance).jacobian.biases);
    Row {
        jacobian: JacobianRow { position: Vector3::zeros(), velocity, theta, biases },
        residual: residual.get(dim),
        variance: variance.get(dim),
    }
}

/// The twist rows of the first dimensions, without the dropped ones.
pub open spec fn twist_rows(
    motion: BodyMotion,
    residual: Six,
    variance: Six,
    dims: nat,
) -> Seq<RowView>
    decreases dims,
{
    if dims == 0 {
        Seq::empty()
    } else {
        let dim = dims - 1;
        let before = twist_rows(motion, residual, variance, dim as nat);
        if variance.at(dim).positive() {
            before.push(twist_row(dim, motion, residual, variance))
        } else {
            before
        }
    }
}

/// How a twist differs from the predicted one: the velocity as the body sees it, the angular rate
/// as the last gyro sample less its bias.
pub open spec fn twist_seen<N: Numerics>(
    n: &N,
    x: StateView,
    last_gyro: Vector3,
    linear: Vector3,
    angular: Vector3,
    motion: BodyMotion,
    predicted: Vector3,
    residual: Six,
) -> bool {
    &&& body_motion_of(n, x.q, x.velocity, motion)
    &&& call_ensures(N::minus, (n, &linear, &motion.velocity), residual.linear)
    &&& call_ensures(N::minus, (n, &last_gyro, &x.biases[0].gyro), predicted)
    &&& call_ensures(N::minus, (n, &angular, &predicted), residual.angular)
}

/// `rows` are the rows by which a body-frame twist is fused.
pub open spec fn twist_fused_by<N: Numerics>(
    n: &N,
    x: StateView,
    last_gyro: Vector3,
    linear: Vector3,
    angular: Vector3,
    variance: Six,
    rows: Seq<RowView>,
) -> bool {
    exists|motion: BodyMotion, predicted: Vector3, residual: Six|
        #![trigger twist_seen(n, x, last_gyro, linear, angular, motion, predicted, residual)]
        twist_seen(n, x, last_gyro, linear, angular, motion, predicted, residual) && rows
            == twist_rows(motion, residual, variance, 6)
}

/// What an update did: rows that are there go through the filter, and count as gated if it did
/// not take them; no rows change nothing.
pub open spec fn fused<N: Numerics>(
    n: &N,
    before: FilterView<N::Matrix>,
    rows: Seq<RowView>,
    gate: Scalar,
    after: FilterView<N::Matrix>,
    accepted: bool,
    gated: int,
) -> bool {
    if rows.len() == 0 {
        after == before && !accepted && gated == 0
    } else {
        updated(n, before, rows, gate, after, accepted) && gated == if accepted {
            0int
        } else {
            1int
        }
    }
}

/// What happened on the way through [`applied`].
pub struct ApplyTrace<M> {
    /// Where the source says the body is: its delta past its anchor.
    pub target: Option<Pose>,
    pub residual: Six,
    pub twist: Seq<RowView>,
    pub corrected: FilterView<M>,
    pub accepted: bool,
    pub gated: int,
    pub constraint: Seq<RowView>,
    pub constrained: bool,
}

/// The rows of a measurement's pose: none without a target.
pub open spec fn target_rows(target: Option<Pose>, residual: Six, variance: Six) -> Seq<RowView> {
    if target is Some {
        pose_rows(residual, variance, 6)
    } else {
        Seq::empty()
    }
}

/// The measurement is a source's first delta: there is no anchor yet to apply it to.
pub open spec fn first_delta<M>(before: Memory<M>, m: Measurement) -> bool {
    m.delta is Some && before.anchors[m.source as int] is None
}

pub open spec fn anchored<M>(before: Memory<M>, source: int) -> Memory<M> {
    Memory { anchors: before.anchors.update(source, Some(pose_of(before.x))), ..before }
}

/// `after` is `before` with the measurement fused through the filter, and `gated` of its updates
/// were not taken. A first delta only anchors its source. Any other gives the pose and twist rows
/// of the measurement to the filter, anchors the source at the corrected pose if the filter took
/// a pose, and then fuses the virtual zero twist.
pub open spec fn applied_by<N: Numerics>(
    n: &N,
    c: Constants,
    rules: StepRules,
    before: Memory<N::Matrix>,
    m: Measurement,
    t: ApplyTrace<N::Matrix>,
    after: Memory<N::Matrix>,
    gated: int,
) -> bool {
    if first_delta(before, m) {
        after == anchored(before, m.source as int) && gated == 0
    } else {
        let source = m.source as int;
        let settled = if t.accepted && t.target is Some {
            anchored(before.with_filter(t.corrected), source)
        } else {
            before.with_filter(t.corrected)
        };
        &&& t.target is Some == m.delta is Some
        &&& t.target is Some ==> {
            &&& call_ensures(
                N::compose,
                (n, &before.anchors[source]->0, &m.delta->0),
                t.target->0,
            )
            &&& pose_residual_of(n, t.target->0, before.x.position, before.x.q, t.residual)
        }
        &&& twist_fused_by(
            n,
            before.x,
            before.last_gyro,
            m.linear,
            m.angular,
            m.twist_variance,
            t.twist,
        )
        &&& fused(
            n,
            before.filter(c),
            target_rows(t.target, t.residual, m.pose_variance) + t.twist,
            rules.mahalanobis_gate,
            t.corrected,
            t.accepted,
            t.gated,
        )
        &&& twist_fused_by(
            n,
            settled.x,
            before.last_gyro,
            Vector3::zeros(),
            Vector3::zeros(),
            rules.constraint_twist_variances,
            t.constraint,
        )
        &&& fused(
            n,
            settled.filter(c),
            t.constraint,
            rules.mahalanobis_gate,
            after.filter(c),
            t.constrained,
            gated - t.gated,
        )
        &&& after == settled.with_filter(after.filter(c))
    }
}

/// See [`applied_by`].
pub open spec fn applied<N: Numerics>(
    n: &N,
    c: Constants,
    rules: StepRules,
    before: Memory<N::Matrix>,
    m: Measurement,
    after: Memory<N::Matrix>,
    gated: int,
) -> bool {
    exists|t: ApplyTrace<N::Matrix>| #[trigger] applied_by(n, c, rules, before, m, t, after, gated)
}

/// The source has been heard of since the horizon.
pub open spec fn active(a: SourceActivity, horizon: i64) -> bool {
    a.last_ns >= horizon
}

/// `total` is the sum, in order, of one dimension's inverse variances over the active ones among
/// the first `count` sources.
pub open spec fn totalled<N: Numerics>(
    n: &N,
    activity: Seq<SourceActivity>,
    horizon: i64,
    dim: int,
    count: nat,
    total: Scalar,
) -> bool
    decreases count,
{
    if count == 0 {
        total == Scalar::zero()
    } else {
        let last = activity[count - 1];
        if active(last, horizon) {
            exists|partial: Scalar|
                {
                    &&& totalled(n, activity, horizon, dim, (count - 1) as nat, partial)
                    &&& #[trigger] call_ensures(
                        N::sum,
                        (n, partial, last.inverse_variance.at(dim)),
                        total,
                    )
                }
        } else {
            totalled(n, activity, horizon, dim, (count - 1) as nat, total)
        }
    }
}

/// `share` is the part of one dimension that falls to a source: its inverse variance over the sum
/// of the active sources', and nothing where that sum is not above zero.
pub open spec fn share_of<N: Numerics>(
    n: &N,
    activity: Seq<SourceActivity>,
    horizon: i64,
    source: int,
    dim: int,
    share: Scalar,
) -> bool {
    exists|total: Scalar|
        {
            &&& #[trigger] totalled(n, activity, horizon, dim, activity.len(), total)
            &&& if total.positive() {
                call_ensures(N::ratio, (n, activity[source].inverse_variance.at(dim), total), share)
            } else {
                share == Scalar::zero()
            }
        }
}

/// `inverse` is one over the variance, or zero for a dropped dimension.
pub open spec fn weight_of<N: Numerics>(n: &N, variance: Scalar, inverse: Scalar) -> bool {
    if variance.positive() {
        call_ensures(N::ratio, (n, Scalar::one(), variance), inverse)
    } else {
        inverse == Scalar::zero()
    }
}

/// `shares` are the parts of the six dimensions that fall to a source.
pub open spec fn shares_of<N: Numerics>(
    n: &N,
    activity: Seq<SourceActivity>,
    horizon: i64,
    source: int,
    shares: Six,
) -> bool {
    forall|dim: int|
        0 <= dim < 6 ==> share_of(n, activity, horizon, source, dim, #[trigger] shares.at(dim))
}

/// The estimate moved by its share of the source's increment.
pub open spec fn moved_by_share<N: Numerics>(
    n: &N,
    x: StateView,
    increment: Pose,
    shares: Six,
    after: StateView,
) -> bool {
    &&& after.velocity == x.velocity
    &&& after.biases == x.biases
    &&& nudged_of(n, x.position, x.q, increment, shares, pose_of(after))
}

/// `after` is `before` with the measurement blended in: its source is active from now on with the
/// measurement's weights, and its delta moves the estimate by the source's share of each
/// dimension.
pub open spec fn blended<N: Numerics>(
    n: &N,
    before: Memory<N::Matrix>,
    m: Measurement,
    ts_ns: i64,
    after: Memory<N::Matrix>,
) -> bool {
    let source = m.source as int;
    &&& after == (Memory { x: after.x, activity: after.activity, ..before })
    &&& after.activity == before.activity.update(source, after.activity[source])
    &&& after.activity[source].last_ns == ts_ns
    &&& forall|dim: int|
        0 <= dim < 6 ==> weight_of(
            n,
            m.pose_variance.at(dim),
            #[trigger] after.activity[source].inverse_variance.at(dim),
        )
    &&& match m.delta {
        None => after.x == before.x,
        Some(increment) => exists|shares: Six|
            {
                &&& #[trigger] shares_of(
                    n,
                    after.activity,
                    span(SOURCE_ACTIVITY_TIMEOUT_NS, ts_ns),
                    source,
                    shares,
                )
                &&& moved_by_share(n, before.x, increment, shares, after.x)
            },
    }
}

/// `after` is `before` propagated over an interval with a reading of the one IMU.
pub open spec fn propagated_over<N: Numerics>(
    n: &N,
    before: FilterView<N::Matrix>,
    dt_ns: i64,
    gyro: Vector3,
    accel: Vector3,
    after: FilterView<N::Matrix>,
) -> bool {
    exists|dt: Scalar|
        #[trigger] seconds_of(n, dt_ns, dt) && propagated(n, before, dt, 0, gyro, accel, after)
}

/// `after` is what a step at `ts_ns` makes of `before`, and `gated` of its updates were not taken.
pub open spec fn stepped<N: Numerics>(
    n: &N,
    c: Constants,
    rules: StepRules,
    before: Memory<N::Matrix>,
    ts_ns: i64,
    kind: EventKind,
    after: Memory<N::Matrix>,
    gated: int,
) -> bool {
    match kind {
        EventKind::Seed => after == before && gated == 0,
        EventKind::Imu { gyro, accel } => {
            let dt_ns = span(before.last_imu_ns, ts_ns);
            &&& gated == 0
            &&& after == (Memory {
                last_imu_ns: ts_ns,
                last_gyro: gyro,
                ..before.with_filter(after.filter(c))
            })
            &&& if 0 < dt_ns < NS_PER_SEC {
                propagated_over(n, before.filter(c), dt_ns, gyro, accel, after.filter(c))
            } else {
                after.filter(c) == before.filter(c)
            }
        },
        EventKind::Measurement(m) => if rules.use_imu {
            applied(n, c, rules, before, m, after, gated)
        } else {
            blended(n, before, m, ts_ns, after) && gated == 0
        },
    }
}

/// `Arc::clone`: another pointer to the same value.
#[verifier::external_body]
fn share<M>(pointer: &Arc<M>) -> (r: Arc<M>)
    ensures
        r == *pointer,
{
    Arc::clone(pointer)
}

/// The live estimate.
pub struct Estimator<N: Numerics> {
    pub filter: Filter<N>,
    pub anchors: Vec<Option<Pose>>,
    pub activity: Vec<SourceActivity>,
    pub last_imu_ns: i64,
    pub last_gyro: Vector3,
}

impl<N: Numerics> Estimator<N> {
    /// What a snapshot of the estimate would hold.
    pub open spec fn memory(&self) -> Memory<N::Matrix> {
        Memory {
            x: self.filter.x@,
            p_cov: *self.filter.p_cov,
            anchors: self.anchors@,
            activity: self.activity@,
            last_imu_ns: self.last_imu_ns,
            last_gyro: self.last_gyro,
        }
    }

    pub open spec fn constants(&self) -> Constants {
        Constants { noise: self.filter.noise@, gravity: self.filter.gravity }
    }

    /// One IMU, known to the filter, and an anchor and an activity for each source.
    pub open spec fn well_formed(&self) -> bool {
        self.filter.noise@.len() == 1 && self.memory().fits(self.anchors@.len() as int)
    }

    /// Keeps the estimate as it is now.
    pub fn snapshot(&self) -> (r: Snapshot<N>)
        ensures
            r@ == self.memory(),
    {
        Snapshot {
            state: self.filter.x.copy(),
            covariance: share(&self.filter.p_cov),
            anchors: copied(&self.anchors),
            activity: copied(&self.activity),
            last_imu_ns: self.last_imu_ns,
            last_gyro: self.last_gyro,
        }
    }

    /// Goes back to a kept estimate.
    pub fn restore(&mut self, kept: &Snapshot<N>)
        ensures
            final(self).memory() == kept@,
            final(self).constants() == old(self).constants(),
    {
        self.filter.x = kept.state.copy();
        self.filter.p_cov = share(&kept.covariance);
        self.anchors = copied(&kept.anchors);
        self.activity = copied(&kept.activity);
        self.last_imu_ns = kept.last_imu_ns;
        self.last_gyro = kept.last_gyro;
    }

    fn anchor(&mut self, source: usize)
        requires
            source < old(self).anchors@.len(),
        ensures
            final(self).memory() == anchored(old(self).memory(), source as int),
            final(self).constants() == old(self).constants(),
    {
        let pose = Pose { translation: self.filter.x.position, rotation: self.filter.x.q };
        self.anchors.set(source, Some(pose));
    }

    /// Body-frame twist rows, put behind the ones already there.
    fn add_twist_rows(
        &self,
        n: &N,
        linear: &Vector3,
        angular: &Vector3,
        variance: Six,
        rows: &mut Vec<Row>,
    ) -> (added: Ghost<Seq<RowView>>)
        requires
            self.filter.x.biases@.len() >= 1,
        ensures
            listed_rows(final(rows)@) == listed_rows(old(rows)@) + added@,
            twist_fused_by(n, self.filter.x@, self.last_gyro, *linear, *angular, variance, added@),
    {
        let ghost start = listed_rows(rows@);
        let motion = body_motion(n, &self.filter.x.q, &self.filter.x.velocity);
        let bias: Vector3 = self.filter.x.biases[0].gyro;
        let predicted = n.minus(&self.last_gyro, &bias);
        let residual = Six {
            linear: n.minus(linear, &motion.velocity),
            angular: n.minus(angular, &predicted),
        };
        proof {
            assert(twist_seen(
                n,
                self.filter.x@,
                self.last_gyro,
                *linear,
                *angular,
                motion,
                predicted,
                residual,
            ));
        }
        assert(listed_rows(rows@) =~= start + twist_rows(motion, residual, variance, 0));
        let mut dim: usize = 0;
        while dim < 6
            invariant
                dim <= 6,
                listed_rows(rows@) == start + twist_rows(motion, residual, variance, dim as nat),
            decreases 6 - dim,
        {
            if variance.get(dim).is_positive() {
                let ghost before = rows@;
                let row = make_twist_row(dim, &motion, residual, variance);
                rows.push(row);
                assert(listed_rows(rows@) =~= listed_rows(before).push(row@));
            }
            dim += 1;
            assert(listed_rows(rows@) =~= start + twist_rows(
                motion,
                residual,
                variance,
                dim as nat,
            ));
        }
        Ghost(twist_rows(motion, residual, variance, 6))
    }

    /// Gives the rows to the filter; `accepted` and how many updates were gated.
    fn update(&mut self, n: &N, rows: &Vec<Row>, gate: Scalar) -> (r: (bool, u64))
        requires
            rows@.len() > 0 ==> old(self).filter@.well_formed(),
        ensures
            fused(
                n,
                old(self).filter@,
                listed_rows(rows@),
                gate,
                final(self).filter@,
                r.0,
                r.1 as int,
            ),
            final(self).memory() == old(self).memory().with_filter(final(self).filter@),
            final(self).constants() == old(self).constants(),
            final(self).filter@.x.biases.len() == old(self).filter@.x.biases.len(),
            r.1 <= 1,
    {
        if rows.len() == 0 {
            return (false, 0);
        }
        let accepted: bool = self.filter.update(n, rows, gate);
        if accepted {
            (true, 0)
        } else {
            (false, 1)
        }
    }

    /// Fuses a measurement through the filter; how many of its updates were gated.
    fn apply(&mut self, n: &N, rules: StepRules, m: &Measurement) -> (gated: u64)
        requires
            old(self).well_formed(),
            m.source < old(self).anchors@.len(),
        ensures
            applied(
                n,
                old(self).constants(),
                rules,
                old(self).memory(),
                *m,
                final(self).memory(),
                gated as int,
            ),
            final(self).constants() == old(self).constants(),
            final(self).well_formed(),
            final(self).anchors@.len() == old(self).anchors@.len(),
            gated <= 2,
    {
        let ghost before = self.memory();
        let ghost c = self.constants();
        let ghost mut t = ApplyTrace::<N::Matrix> {
            target: None,
            residual: Six::zeros(),
            twist: Seq::empty(),
            corrected: before.filter(c),
            accepted: false,
            gated: 0,
            constraint: Seq::empty(),
            constrained: false,
        };
        let mut rows: Vec<Row> = Vec::new();
        assert(listed_rows(rows@) =~= Seq::empty());
        let mut target: Option<Pose> = None;
        if let Some(delta) = m.delta {
            match self.anchors[m.source] {
                Some(anchor) => {
                    target = Some(n.compose(&anchor, &delta));
                },
                None => {
                    // First delta from this source: adopt the filter pose, fuse nothing.
                    self.anchor(m.source);
                    assert(applied_by(n, c, rules, before, *m, t, self.memory(), 0));
                    return 0;
                },
            }
        }
        proof {
            t.target = target;
        }
        if let Some(target) = target {
            let residual = pose_residual(n, &target, &self.filter.x.position, &self.filter.x.q);
            proof {
                t.residual = residual;
            }
            let mut dim: usize = 0;
            while dim < 6
                invariant
                    dim <= 6,
                    listed_rows(rows@) == pose_rows(residual, m.pose_variance, dim as nat),
                decreases 6 - dim,
            {
                if m.pose_variance.get(dim).is_positive() {
                    let ghost before = rows@;
                    let row = make_pose_row(dim, residual, m.pose_variance);
                    rows.push(row);
                    assert(listed_rows(rows@) =~= listed_rows(before).push(row@));
                }
                dim += 1;
            }
        }
        assert(listed_rows(rows@) =~= target_rows(t.target, t.residual, m.pose_variance));
        let twist = self.add_twist_rows(n, &m.linear, &m.angular, m.twist_variance, &mut rows);
        let (accepted, gated) = self.update(n, &rows, rules.mahalanobis_gate);
        proof {
            t.twist = twist@;
            t.corrected = self.filter@;
            t.accepted = accepted;
            t.gated = gated as int;
        }
        if accepted && target.is_some() {
            // Anchoring to the corrected pose, not each source's own chain, keeps drifters bounded.
            self.anchor(m.source);
        }
        let ghost settled = self.memory();
        let mut constraint_rows: Vec<Row> = Vec::new();
        assert(listed_rows(constraint_rows@) =~= Seq::empty());
        let constraint = self.add_twist_rows(
            n,
            &Vector3::zeros(),
            &Vector3::zeros(),
            rules.constraint_twist_variances,
            &mut constraint_rows,
        );
        assert(listed_rows(constraint_rows@) =~= constraint@);
        let (constrained, more) = self.update(n, &constraint_rows, rules.mahalanobis_gate);
        proof {
            t.constraint = constraint@;
            t.constrained = constrained;
            assert(settled.filter(c).x == settled.x);
            assert(self.filter@ == self.memory().filter(c));
            assert(applied_by(n, c, rules, before, *m, t, self.memory(), gated + more));
        }
        gated + more
    }

    /// The sum of one dimension's inverse variances over the active sources.
    fn total_weight(&self, n: &N, horizon: i64, dim: usize) -> (total: Scalar)
        requires
            dim < 6,
        ensures
            totalled(n, self.activity@, horizon, dim as int, self.activity@.len(), total),
    {
        let mut total: Scalar = Scalar::zero();
        let mut index: usize = 0;
        while index < self.activity.len()
            invariant
                index <= self.activity@.len(),
                dim < 6,
                totalled(n, self.activity@, horizon, dim as int, index as nat, total),
            decreases self.activity@.len() - index,
        {
            let other: SourceActivity = self.activity[index];
            if other.last_ns >= horizon {
                total = n.sum(total, other.inverse_variance.get(dim));
            }
            index += 1;
        }
        total
    }

    /// The part of one dimension that falls to a source.
    fn share(&self, n: &N, horizon: i64, source: usize, dim: usize) -> (share: Scalar)
        requires
            dim < 6,
            source < self.activity@.len(),
        ensures
            share_of(n, self.activity@, horizon, source as int, dim as int, share),
    {
        let total: Scalar = self.total_weight(n, horizon, dim);
        if total.is_positive() {
            n.ratio(self.activity[source].inverse_variance.get(dim), total)
        } else {
            Scalar::zero()
        }
    }

    fn weight(n: &N, variance: Scalar) -> (inverse: Scalar)
        ensures
            weight_of(n, variance, inverse),
    {
        if variance.is_positive() {
            n.ratio(Scalar::one(), variance)
        } else {
            Scalar::zero()
        }
    }

    /// Not a Kalman update: inverse-variance shares, so that a lone source passes through.
    fn blend(&mut self, n: &N, m: &Measurement, ts_ns: i64)
        requires
            m.source < old(self).activity@.len(),
        ensures
            blended(n, old(self).memory(), *m, ts_ns, final(self).memory()),
            final(self).constants() == old(self).constants(),
    {
        let ghost before = self.memory();
        let inverse_variance = Six {
            linear: Vector3 {
                x: Self::weight(n, m.pose_variance.get(0)),
                y: Self::weight(n, m.pose_variance.get(1)),
                z: Self::weight(n, m.pose_variance.get(2)),
            },
            angular: Vector3 {
                x: Self::weight(n, m.pose_variance.get(3)),
                y: Self::weight(n, m.pose_variance.get(4)),
                z: Self::weight(n, m.pose_variance.get(5)),
            },
        };
        let activity = SourceActivity { last_ns: ts_ns, inverse_variance };
        self.activity.set(m.source, activity);
        assert(self.activity@ =~= before.activity.update(m.source as int, activity));
        let increment = match m.delta {
            None => return,
            Some(increment) => increment,
        };
        let horizon: i64 = span_ns(SOURCE_ACTIVITY_TIMEOUT_NS, ts_ns);
        let shares = Six {
            linear: Vector3 {
                x: self.share(n, horizon, m.source, 0),
                y: self.share(n, horizon, m.source, 1),
                z: self.share(n, horizon, m.source, 2),
            },
            angular: Vector3 {
                x: self.share(n, horizon, m.source, 3),
                y: self.share(n, horizon, m.source, 4),
                z: self.share(n, horizon, m.source, 5),
            },
        };
        assert(shares_of(n, self.activity@, horizon, m.source as int, shares));
        let moved = nudged(n, &self.filter.x.position, &self.filter.x.q, &increment, &shares);
        self.filter.x.position = moved.translation;
        self.filter.x.q = moved.rotation;
        assert(pose_of(self.filter.x@) == moved);
        assert(moved_by_share(n, before.x, increment, shares, self.memory().x));
    }

    /// Takes one step; how many of its updates were gated.
    pub fn step(
        &mut self,
        n: &N,
        rules: StepRules,
        ts_ns: i64,
        kind: EventKind,
    ) -> (gated: u64)
        requires
            old(self).well_formed(),
            kind.within(old(self).anchors@.len() as int),
        ensures
            stepped(
                n,
                old(self).constants(),
                rules,
                old(self).memory(),
                ts_ns,
                kind,
                final(self).memory(),
                gated as int,
            ),
            final(self).constants() == old(self).constants(),
            final(self).well_formed(),
            final(self).anchors@.len() == old(self).anchors@.len(),
            gated <= 2,
    {
        match kind {
            EventKind::Seed => 0,
            EventKind::Imu { gyro, accel } => {
                let dt_ns: i64 = span_ns(self.last_imu_ns, ts_ns);
                if dt_ns > 0 && dt_ns < NS_PER_SEC {
                    let dt: Scalar = seconds(n, dt_ns);
                    self.filter.propagate(n, dt, 0, &gyro, &accel);
                }
                self.last_imu_ns = ts_ns;
                self.last_gyro = gyro;
                0
            },
            EventKind::Measurement(m) => {
                if rules.use_imu {
                    self.apply(n, rules, &m)
                } else {
                    self.blend(n, &m, ts_ns);
                    0
                }
            },
        }
    }
}

} // verus!
