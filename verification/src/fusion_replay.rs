//! Replaying a recording through the fusion is deterministic.
//!
//! Everything runs on the caller's stamps, so the same inputs in the same order give the same
//! outputs, bit for bit, as long as the arithmetic does.

use vstd::prelude::*;

use crate::eskf::{seed_blocks, spec_dim, updated_by, FilterView, ImuBias, RowView, UpdateTrace};
use crate::estimator::{anchored, applied_by, first_delta, fused, stepped, target_rows};
use crate::estimator::{ApplyTrace, Constants, EventKind, Measurement, Memory, StepRules};
use crate::formulas::{BodyMotion, Leveling};
use crate::fusion_config::OdometryFusionConfig;
use crate::fusion_model::{calibrated, entry_of, given_out, given_out_by, imu_known, imu_taken};
use crate::fusion_model::{imu_taken_by, in_stamp_order, log_of, pose_counts, pose_place};
use crate::fusion_model::{published, published_by, put_in, replayed_from, resolved_six};
use crate::fusion_model::{samples_wanted, slot_for, source_at, source_fused, source_fused_by};
use crate::fusion_model::{source_known, source_taken, started, taken_up, too_late, trimmed};
use crate::fusion_model::{unstarted, with_sample, BodySample, EventView, FusionCore};
use crate::fusion_model::FusionCounters;
use crate::numerics::Numerics;
use crate::ordered_map::{holds, in_order, key_precedes, lemma_key_irreflexive, FrameKey, KeyView};
use crate::repeatability::{law_arrival_order_does_not_matter, lemma_body_motion_repeats};
use crate::repeatability::{lemma_diagonal_repeats, lemma_into_body_repeats};
use crate::repeatability::{lemma_leveling_repeats, lemma_lever_repeats};
use crate::repeatability::{lemma_nanoseconds_repeats, lemma_period_repeats, lemma_replay_repeats};
use crate::repeatability::{lemma_smoothing_repeats, lemma_square_repeats, repeatable};
use crate::scalar::Scalar;
use crate::stamp::{counted, span};
use crate::types::{ImuSample, Matrix3, Matrix6, OdometryEstimate, Pose, Quaternion, Six, Vector3};

verus! {

/// Entries with the same keys, in the same order.
pub open spec fn same_keys<K: FrameKey, V>(a: Seq<(K, V)>, b: Seq<(K, V)>) -> bool {
    &&& a.len() == b.len()
    &&& forall|i: int|
        #![trigger a[i]]
        #![trigger b[i]]
        0 <= i < a.len() ==> a[i].0.parts() == b[i].0.parts()
}

/// Entries with the same keys and values, in the same order.
pub open spec fn same_entries<K: FrameKey, V>(a: Seq<(K, V)>, b: Seq<(K, V)>) -> bool {
    &&& same_keys(a, b)
    &&& forall|i: int|
        #![trigger a[i]]
        #![trigger b[i]]
        0 <= i < a.len() ==> a[i].1 == b[i].1
}

/// Two configurations that say the same.
pub open spec fn same_config(a: OdometryFusionConfig, b: OdometryFusionConfig) -> bool {
    &&& a.odom_frame@ == b.odom_frame@
    &&& a.base_frame@ == b.base_frame@
    &&& a.publish_rate == b.publish_rate
    &&& a.replay_buffer_seconds == b.replay_buffer_seconds
    &&& a.mahalanobis_gate == b.mahalanobis_gate
    &&& a.max_position_m == b.max_position_m
    &&& a.use_imu == b.use_imu
    &&& same_entries(a.imus.entries@, b.imus.entries@)
    &&& a.gravity == b.gravity
    &&& a.imu_init_samples == b.imu_init_samples
    &&& a.imu_init_gyro_limit == b.imu_init_gyro_limit
    &&& a.initial_stds == b.initial_stds
    &&& same_entries(a.sources.entries@, b.sources.entries@)
    &&& a.constraint_twist_variances == b.constraint_twist_variances
}

/// Two samples that say the same.
pub open spec fn same_sample(a: ImuSample, b: ImuSample) -> bool {
    &&& a.timestamp_ns == b.timestamp_ns
    &&& a.frame_id@ == b.frame_id@
    &&& a.angular_velocity == b.angular_velocity
    &&& a.linear_acceleration == b.linear_acceleration
}

/// A key stands at one place of a map.
pub proof fn lemma_one_place<K: FrameKey, V>(
    a: Seq<(K, V)>,
    b: Seq<(K, V)>,
    i: int,
    j: int,
)
    requires
        in_order(a),
        same_keys(a, b),
        0 <= i < a.len(),
        0 <= j < b.len(),
        a[i].0.parts() == b[j].0.parts(),
    ensures
        i == j,
{
    lemma_key_irreflexive(a[i].0.parts());
    assert(a[j].0.parts() == b[j].0.parts());
    if i < j {
        assert(key_precedes(a[i].0.parts(), a[j].0.parts()));
    }
    if j < i {
        assert(key_precedes(a[j].0.parts(), a[i].0.parts()));
    }
}

/// A key that one map holds, the other holds.
pub proof fn lemma_same_holds<K: FrameKey, V>(a: Seq<(K, V)>, b: Seq<(K, V)>, key: KeyView)
    requires
        same_keys(a, b),
    ensures
        holds(a, key) == holds(b, key),
{
    if holds(a, key) {
        let i = choose|i: int| 0 <= i < a.len() && (#[trigger] a[i]).0.parts() == key;
        assert(b[i].0.parts() == key);
    }
    if holds(b, key) {
        let i = choose|i: int| 0 <= i < b.len() && (#[trigger] b[i]).0.parts() == key;
        assert(a[i].0.parts() == key);
    }
}

/// Two cores that have seen and done the same.
pub open spec fn alike<N: Numerics>(a: FusionCore<N>, b: FusionCore<N>) -> bool {
    &&& a.numerics == b.numerics
    &&& same_config(a.config, b.config)
    &&& a.live.memory() == b.live.memory()
    &&& a.live.constants() == b.live.constants()
    &&& a.imu_noise == b.imu_noise
    &&& a.initialized == b.initialized
    &&& a.init_gyro_sum == b.init_gyro_sum
    &&& a.init_accel_sum == b.init_accel_sum
    &&& a.init_samples == b.init_samples
    &&& a.kept() == b.kept()
    &&& a.lever_gyro == b.lever_gyro
    &&& a.lever_gyro_ns == b.lever_gyro_ns
    &&& a.lever_alpha == b.lever_alpha
    &&& a.previous_source_pose@ == b.previous_source_pose@
    &&& a.last_publish_ns == b.last_publish_ns
    &&& a.reach_ns == b.reach_ns
    &&& a.counters == b.counters
}

/// An arrival goes to one slot.
proof fn lemma_one_slot<M>(events: Seq<EventView<M>>, ts_ns: i64, a: int, b: int)
    requires
        slot_for(events, ts_ns, a),
        slot_for(events, ts_ns, b),
    ensures
        a == b,
{
    if a < b {
        assert(events[a].ts_ns <= ts_ns);
    }
    if b < a {
        assert(events[b].ts_ns <= ts_ns);
    }
}

/// A buffer is trimmed in one way.
proof fn lemma_one_trim<M>(
    full: Seq<EventView<M>>,
    horizon: i64,
    a: Seq<EventView<M>>,
    b: Seq<EventView<M>>,
)
    requires
        trimmed(full, horizon, a),
        trimmed(full, horizon, b),
    ensures
        a == b,
{
    let x = choose|gone: int|
        {
            &&& 0 <= gone < full.len()
            &&& a == #[trigger] full.skip(gone)
            &&& forall|i: int| 0 < i <= gone ==> (#[trigger] full[i]).ts_ns <= horizon
            &&& gone + 1 == full.len() || full[gone + 1].ts_ns > horizon
        };
    let y = choose|gone: int|
        {
            &&& 0 <= gone < full.len()
            &&& b == #[trigger] full.skip(gone)
            &&& forall|i: int| 0 < i <= gone ==> (#[trigger] full[i]).ts_ns <= horizon
            &&& gone + 1 == full.len() || full[gone + 1].ts_ns > horizon
        };
    if x < y {
        assert(full[x + 1].ts_ns <= horizon);
    }
    if y < x {
        assert(full[y + 1].ts_ns <= horizon);
    }
}

/// A replayed buffer's estimates have room for the sources, as every step keeps it.
proof fn lemma_replay_fits<N: Numerics>(
    n: &N,
    c: Constants,
    rules: StepRules,
    sources: int,
    events: Seq<EventView<N::Matrix>>,
    from: int,
    gated: int,
)
    requires
        0 < from <= events.len(),
        forall|i: int| 0 <= i < from ==> (#[trigger] events[i]).left.fits(sources),
        forall|i: int| 0 <= i < events.len() ==> (#[trigger] events[i]).kind.within(sources),
        replayed_from(n, c, rules, events, from, gated),
    ensures
        forall|i: int| 0 <= i < events.len() ==> (#[trigger] events[i]).left.fits(sources),
    decreases events.len(),
{
    if events.len() > from {
        let shorter = events.drop_last();
        let x = choose|last: int|
            {
                &&& #[trigger] stepped(
                    n,
                    c,
                    rules,
                    events[events.len() - 2].left,
                    events.last().ts_ns,
                    events.last().kind,
                    events.last().left,
                    last,
                )
                &&& replayed_from(n, c, rules, shorter, from, gated - last)
            };
        assert forall|i: int| 0 <= i < from implies (#[trigger] shorter[i]).left.fits(sources) by {
            assert(events[i].left.fits(sources));
        }
        assert forall|i: int| 0 <= i < shorter.len() implies (#[trigger] shorter[i]).kind.within(
            sources,
        ) by {
            assert(events[i].kind.within(sources));
        }
        lemma_replay_fits(n, c, rules, sources, shorter, from, gated - x);
        let k = events.len() - 1;
        assert(shorter[k - 1].left.fits(sources));
        assert(events[k].kind.within(sources));
        lemma_step_fits(
            n,
            c,
            rules,
            sources,
            events[k - 1].left,
            events[k].ts_ns,
            events[k].kind,
            events[k].left,
            x,
        );
        assert forall|i: int| 0 <= i < events.len() implies (#[trigger] events[i]).left.fits(
            sources,
        ) by {
            if i < k {
                assert(shorter[i].left.fits(sources));
            }
        }
    }
}

proof fn lemma_step_fits<N: Numerics>(
    n: &N,
    c: Constants,
    rules: StepRules,
    sources: int,
    before: Memory<N::Matrix>,
    ts_ns: i64,
    kind: EventKind,
    after: Memory<N::Matrix>,
    gated: int,
)
    requires
        before.fits(sources),
        kind.within(sources),
        stepped(n, c, rules, before, ts_ns, kind, after, gated),
    ensures
        after.fits(sources),
{
    if let EventKind::Measurement(m) = kind {
        if rules.use_imu && !first_delta(before, m) {
            let t = choose|t: ApplyTrace<N::Matrix>| #[trigger]
                applied_by(n, c, rules, before, m, t, after, gated);
            assert(t.corrected.x.biases.len() == before.x.biases.len()) by {
                lemma_fused_biases(
                    n,
                    before.filter(c),
                    target_rows(t.target, t.residual, m.pose_variance) + t.twist,
                    rules.mahalanobis_gate,
                    t.corrected,
                    t.accepted,
                    t.gated,
                );
            }
            let settled = if t.accepted && t.target is Some {
                anchored(before.with_filter(t.corrected), m.source as int)
            } else {
                before.with_filter(t.corrected)
            };
            lemma_fused_biases(
                n,
                settled.filter(c),
                t.constraint,
                rules.mahalanobis_gate,
                after.filter(c),
                t.constrained,
                gated - t.gated,
            );
        }
    }
}

proof fn lemma_fused_biases<N: Numerics>(
    n: &N,
    before: FilterView<N::Matrix>,
    rows: Seq<RowView>,
    gate: Scalar,
    after: FilterView<N::Matrix>,
    accepted: bool,
    gated: int,
)
    requires
        fused(n, before, rows, gate, after, accepted, gated),
    ensures
        after.x.biases.len() == before.x.biases.len(),
{
    if rows.len() > 0 {
        let t = choose|t: UpdateTrace<N::Matrix>| #[trigger]
            updated_by(n, before, rows, gate, t, after, accepted);
    }
}

proof fn lemma_taking_up_repeats<N: Numerics>(
    a: FusionCore<N>,
    b: FusionCore<N>,
    ts_ns: i64,
    kind: EventKind,
    next_a: FusionCore<N>,
    next_b: FusionCore<N>,
)
    requires
        repeatable(&a.numerics),
        alike(a, b),
        a.well_formed(),
        a.initialized,
        kind.within(a.sources()),
        taken_up(a, ts_ns, kind, next_a),
        taken_up(b, ts_ns, kind, next_b),
    ensures
        alike(next_a, next_b),
{
    if !too_late(a.kept(), a.horizon(), ts_ns) {
        let n = &a.numerics;
        let c = a.live.constants();
        let rules = a.config.rules();
        let events = a.kept();
        let (sa, fa, ga) = choose|slot: int, full: Seq<EventView<N::Matrix>>, gated: int|
            #[trigger]
            put_in(a, ts_ns, kind, slot, full, gated, next_a);
        let (sb, fb, gb) = choose|slot: int, full: Seq<EventView<N::Matrix>>, gated: int|
            #[trigger]
            put_in(b, ts_ns, kind, slot, full, gated, next_b);
        lemma_one_slot(events, ts_ns, sa, sb);
        assert(sa > 0) by {
            if sa == 0 {
                assert(events[0].ts_ns > ts_ns);
                assert(events.last().ts_ns >= events[0].ts_ns);
            }
        }
        assert(fa.len() == log_of(fa).len());
        assert(fb.len() == log_of(fb).len());
        assert forall|i: int| 0 <= i < sa implies (#[trigger] fa[i]).left.fits(a.sources()) by {
            assert(fa.take(sa)[i] == events.take(sa)[i]);
            assert(events[i].left.fits(a.sources()));
        }
        assert forall|i: int| 0 <= i < fa.len() implies (#[trigger] fa[i]).kind.within(
            a.sources(),
        ) by {
            assert(log_of(fa)[i] == log_of(events).insert(sa, (ts_ns, kind))[i]);
            if i < sa {
                assert(events[i].kind.within(a.sources()));
            } else if i > sa {
                assert(events[i - 1].kind.within(a.sources()));
            }
        }
        lemma_replay_fits(n, c, rules, a.sources(), fa, sa, ga);
        lemma_replay_repeats(n, c, rules, a.sources(), fa, fb, sa, ga, gb);
        lemma_one_trim(fa, span(a.reach_ns, fa.last().ts_ns), next_a.kept(), next_b.kept());
    }
}

proof fn lemma_start_repeats<N: Numerics>(
    a: FusionCore<N>,
    b: FusionCore<N>,
    ts_ns: i64,
    world_from_body: Quaternion,
    bias: ImuBias,
    next_a: FusionCore<N>,
    next_b: FusionCore<N>,
)
    requires
        repeatable(&a.numerics),
        alike(a, b),
        started(a, ts_ns, world_from_body, bias, next_a),
        started(b, ts_ns, world_from_body, bias, next_b),
    ensures
        alike(next_a, next_b),
{
    let biases = seq![bias];
    lemma_diagonal_repeats(
        &a.numerics,
        spec_dim(biases.len() as int) as usize,
        seed_blocks(biases.len() as int, a.config.initial_stds),
        next_a.live.filter@.p_cov,
        next_b.live.filter@.p_cov,
    );
    assert(next_a.live.memory() == next_b.live.memory());
    assert(next_a.live.filter@.noise == next_b.live.filter@.noise);
}

/// Law: an IMU sample is taken the same way every time. Two cores that have seen the same are
/// alike after the same sample.
pub proof fn law_imu_sample_repeats<N: Numerics>(
    a: FusionCore<N>,
    b: FusionCore<N>,
    imu: ImuSample,
    again: ImuSample,
    base_from_imu: Pose,
    next_a: FusionCore<N>,
    next_b: FusionCore<N>,
)
    requires
        repeatable(&a.numerics),
        alike(a, b),
        same_sample(imu, again),
        a.well_formed(),
        imu_taken(a, imu, base_from_imu, next_a),
        imu_taken(b, again, base_from_imu, next_b),
    ensures
        alike(next_a, next_b),
{
    lemma_same_holds(
        a.config.imus.entries@,
        b.config.imus.entries@,
        (imu.frame_id@, Seq::empty()),
    );
    if imu_known(a, imu.frame_id@) {
        let (ia, sa) = choose|index: int, s: BodySample| #[trigger]
            imu_taken_by(a, imu, base_from_imu, index, s, next_a);
        let (ib, sb) = choose|index: int, s: BodySample| #[trigger]
            imu_taken_by(b, again, base_from_imu, index, s, next_b);
        let entries = a.config.imus.entries@;
        lemma_one_place(entries, b.config.imus.entries@, ia, ib);
        assert(sa.gyro == sb.gyro);
        assert(sa.turned == sb.turned);
        let dt_ns = span(a.lever_gyro_ns, imu.timestamp_ns);
        if a.lever_gyro_ns != 0 && dt_ns > 0 {
            lemma_smoothing_repeats(
                &a.numerics,
                a.lever_alpha,
                sa.gyro,
                a.lever_gyro,
                dt_ns,
                sa.alpha,
                sb.alpha,
            );
        }
        lemma_lever_repeats(
            &a.numerics,
            sa.turned,
            sa.gyro,
            sa.alpha,
            base_from_imu.translation,
            sa.accel,
            sb.accel,
        );
        let ts_ns = imu.timestamp_ns;
        let noise = entries[ia].1.spec_noise();
        let ra = with_sample(a, noise, ts_ns, sa);
        let rb = with_sample(b, noise, ts_ns, sb);
        assert(ra.kept() == a.kept());
        assert(rb.kept() == b.kept());
        assert(alike(ra, rb));
        if a.initialized {
            let kind = EventKind::Imu { gyro: sa.gyro, accel: sa.accel };
            let ta = choose|taken: FusionCore<N>|
                {
                    &&& #[trigger] taken_up(ra, ts_ns, kind, taken)
                    &&& next_a == (FusionCore {
                        counters: FusionCounters {
                            imu_samples: counted(taken.counters.imu_samples),
                            ..taken.counters
                        },
                        ..taken
                    })
                };
            let tb = choose|taken: FusionCore<N>|
                {
                    &&& #[trigger] taken_up(rb, ts_ns, kind, taken)
                    &&& next_b == (FusionCore {
                        counters: FusionCounters {
                            imu_samples: counted(taken.counters.imu_samples),
                            ..taken.counters
                        },
                        ..taken
                    })
                };
            lemma_taking_up_repeats(ra, rb, ts_ns, kind, ta, tb);
            assert(next_a.kept() == ta.kept());
            assert(next_b.kept() == tb.kept());
        } else {
            let (va, ga, aa, la) = choose|
                rate: Scalar,
                gyro_sum: Vector3,
                accel_sum: Vector3,
                level: Leveling,
            | #[trigger]
                calibrated(ra, ts_ns, sa, rate, gyro_sum, accel_sum, level, next_a);
            let (vb, gb, ab, lb) = choose|
                rate: Scalar,
                gyro_sum: Vector3,
                accel_sum: Vector3,
                level: Leveling,
            | #[trigger]
                calibrated(rb, ts_ns, sb, rate, gyro_sum, accel_sum, level, next_b);
            assert(va == vb);
            if a.config.imu_init_gyro_limit.below(va) {
                assert(next_a.kept() == ra.kept());
                assert(next_b.kept() == rb.kept());
            } else {
                assert(ga == gb);
                assert(aa == ab);
                let samples = (a.init_samples + 1) as u64;
                let ua = FusionCore {
                    init_gyro_sum: ga,
                    init_accel_sum: aa,
                    init_samples: samples,
                    ..ra
                };
                let ub = FusionCore {
                    init_gyro_sum: gb,
                    init_accel_sum: ab,
                    init_samples: samples,
                    ..rb
                };
                assert(ua.kept() == ra.kept());
                assert(ub.kept() == rb.kept());
                assert(alike(ua, ub));
                if samples >= samples_wanted(a.config.imu_init_samples) {
                    lemma_leveling_repeats(
                        &a.numerics,
                        aa,
                        ga,
                        samples as i64,
                        a.config.gravity,
                        la,
                        lb,
                    );
                    lemma_start_repeats(
                        ua,
                        ub,
                        ts_ns,
                        la.world_from_body,
                        ImuBias { gyro: la.gyro_bias, accel: la.accel_bias },
                        next_a,
                        next_b,
                    );
                }
            }
        }
    }
}

proof fn lemma_source_fusing_repeats<N: Numerics>(
    a: FusionCore<N>,
    b: FusionCore<N>,
    msg: OdometryEstimate,
    again: OdometryEstimate,
    next_a: FusionCore<N>,
    next_b: FusionCore<N>,
)
    requires
        repeatable(&a.numerics),
        alike(a, b),
        same_estimate(msg, again),
        a.well_formed(),
        a.initialized,
        source_fused(a, msg, next_a),
        source_fused(b, again, next_b),
    ensures
        alike(next_a, next_b),
{
    let (ia, ma, pa) = choose|index: int, m: Measurement, poses: Vec<Option<Pose>>| #[trigger]
        source_fused_by(a, msg, index, m, poses, next_a);
    let (ib, mb, pb) = choose|index: int, m: Measurement, poses: Vec<Option<Pose>>| #[trigger]
        source_fused_by(b, again, index, m, poses, next_b);
    let entries = a.config.sources.entries@;
    lemma_one_place(entries, b.config.sources.entries@, ia, ib);
    lemma_same_resolved(
        entries[ia].1.pose_variances,
        msg.pose_covariance,
        again.pose_covariance,
    );
    lemma_same_resolved(
        entries[ia].1.twist_variances,
        msg.twist_covariance,
        again.twist_covariance,
    );
    let previous = a.previous_source_pose@[ia];
    if pose_counts(ma.pose_variance, msg.pose) && previous is Some {
        assert(ma.delta->0 == mb.delta->0);
    }
    assert(ma.delta == mb.delta);
    assert(ma == mb);
    let ra = FusionCore { previous_source_pose: pa, ..a };
    let rb = FusionCore { previous_source_pose: pb, ..b };
    assert(ra.kept() == a.kept());
    assert(rb.kept() == b.kept());
    assert(alike(ra, rb));
    assert(ra.well_formed());
    let kind = EventKind::Measurement(ma);
    let ta = choose|taken: FusionCore<N>|
        {
            &&& #[trigger] taken_up(ra, msg.timestamp_ns, kind, taken)
            &&& next_a == (FusionCore {
                counters: FusionCounters {
                    measurements: counted(taken.counters.measurements),
                    ..taken.counters
                },
                ..taken
            })
        };
    let tb = choose|taken: FusionCore<N>|
        {
            &&& #[trigger] taken_up(rb, msg.timestamp_ns, kind, taken)
            &&& next_b == (FusionCore {
                counters: FusionCounters {
                    measurements: counted(taken.counters.measurements),
                    ..taken.counters
                },
                ..taken
            })
        };
    lemma_taking_up_repeats(ra, rb, msg.timestamp_ns, kind, ta, tb);
    assert(next_a.kept() == ta.kept());
    assert(next_b.kept() == tb.kept());
}

/// The variances depend on a covariance's entries alone.
proof fn lemma_same_resolved(configured: Six, x: Matrix6, y: Matrix6)
    requires
        x.entries@ == y.entries@,
    ensures
        resolved_six(configured, x) == resolved_six(configured, y),
{
    assert(x.entries@[0] == y.entries@[0]);
    assert(x.entries@[7] == y.entries@[7]);
    assert(x.entries@[14] == y.entries@[14]);
    assert(x.entries@[21] == y.entries@[21]);
    assert(x.entries@[28] == y.entries@[28]);
    assert(x.entries@[35] == y.entries@[35]);
    assert(x.at(0, 0) == y.at(0, 0));
    assert(x.at(1, 1) == y.at(1, 1));
    assert(x.at(2, 2) == y.at(2, 2));
    assert(x.at(3, 3) == y.at(3, 3));
    assert(x.at(4, 4) == y.at(4, 4));
    assert(x.at(5, 5) == y.at(5, 5));
}

/// A source that one core knows, the other knows.
proof fn lemma_same_known<N: Numerics>(
    a: FusionCore<N>,
    b: FusionCore<N>,
    msg: OdometryEstimate,
    again: OdometryEstimate,
)
    requires
        alike(a, b),
        same_estimate(msg, again),
    ensures
        source_known(a, msg) == source_known(b, again),
{
    if source_known(a, msg) {
        let i = choose|index: int| #[trigger] source_at(a, msg, index);
        assert(source_at(b, again, i));
    }
    if source_known(b, again) {
        let i = choose|index: int| #[trigger] source_at(b, again, index);
        assert(source_at(a, msg, i));
    }
}

/// Law: an odometry message is taken the same way every time. Two cores that have seen the same
/// are alike after the same message.
pub proof fn law_source_message_repeats<N: Numerics>(
    a: FusionCore<N>,
    b: FusionCore<N>,
    msg: OdometryEstimate,
    again: OdometryEstimate,
    next_a: FusionCore<N>,
    next_b: FusionCore<N>,
)
    requires
        repeatable(&a.numerics),
        alike(a, b),
        same_estimate(msg, again),
        a.well_formed(),
        source_taken(a, msg, next_a),
        source_taken(b, again, next_b),
    ensures
        alike(next_a, next_b),
{
    lemma_same_known(a, b, msg, again);
    if !source_known(a, msg) {
    } else if a.initialized {
        lemma_source_fusing_repeats(a, b, msg, again, next_a, next_b);
    } else if !a.config.use_imu {
        let q = Quaternion::identity();
        let bias = ImuBias { gyro: Vector3::zeros(), accel: Vector3::zeros() };
        let ra = choose|ready: FusionCore<N>|
            {
                &&& #[trigger] started(a, msg.timestamp_ns, q, bias, ready)
                &&& source_fused(ready, msg, next_a)
            };
        let rb = choose|ready: FusionCore<N>|
            {
                &&& #[trigger] started(b, msg.timestamp_ns, q, bias, ready)
                &&& source_fused(ready, again, next_b)
            };
        lemma_start_repeats(a, b, msg.timestamp_ns, q, bias, ra, rb);
        lemma_start_sound(a, msg.timestamp_ns, q, bias, ra);
        lemma_source_fusing_repeats(ra, rb, msg, again, next_a, next_b);
    }
}

proof fn lemma_start_sound<N: Numerics>(
    before: FusionCore<N>,
    ts_ns: i64,
    world_from_body: Quaternion,
    bias: ImuBias,
    after: FusionCore<N>,
)
    requires
        before.well_formed(),
        !before.initialized,
        started(before, ts_ns, world_from_body, bias, after),
    ensures
        after.well_formed(),
{
    assert(after.kept().len() == 1);
    assert(after.kept()[0] == after.kept().last());
}

/// Two estimates that say the same.
pub open spec fn same_estimate(a: OdometryEstimate, b: OdometryEstimate) -> bool {
    &&& a.timestamp_ns == b.timestamp_ns
    &&& a.frame_id@ == b.frame_id@
    &&& a.child_frame_id@ == b.child_frame_id@
    &&& a.pose == b.pose
    &&& a.pose_covariance.entries@ == b.pose_covariance.entries@
    &&& a.twist == b.twist
    &&& a.twist_covariance.entries@ == b.twist_covariance.entries@
}

/// Law: what is given out repeats bit for bit. Two cores that have seen the same give out the
/// same estimate, or none.
pub proof fn law_output_repeats<N: Numerics>(
    a: FusionCore<N>,
    b: FusionCore<N>,
    next_a: FusionCore<N>,
    next_b: FusionCore<N>,
    out_a: Option<OdometryEstimate>,
    out_b: Option<OdometryEstimate>,
)
    requires
        repeatable(&a.numerics),
        alike(a, b),
        published(a, next_a, out_a),
        published(b, next_b, out_b),
    ensures
        alike(next_a, next_b),
        out_a is Some == out_b is Some,
        out_a is Some ==> same_estimate(out_a->0, out_b->0),
{
    if a.initialized {
        let (pa, da) = choose|period_ns: i64, distance: Scalar| #[trigger]
            published_by(a, period_ns, distance, next_a, out_a);
        let (pb, db) = choose|period_ns: i64, distance: Scalar| #[trigger]
            published_by(b, period_ns, distance, next_b, out_b);
        lemma_period_repeats(&a.numerics, a.config.publish_rate, pa, pb);
        let latest = a.kept().last();
        assert(next_a.kept() == a.kept());
        assert(next_b.kept() == b.kept());
        if span(a.last_publish_ns, latest.ts_ns) >= pa {
            assert(da == db);
            if out_a is Some {
                lemma_estimate_repeats(a, b, latest, out_a->0, out_b->0);
            }
        }
    }
}

proof fn lemma_estimate_repeats<N: Numerics>(
    a: FusionCore<N>,
    b: FusionCore<N>,
    latest: EventView<N::Matrix>,
    x: OdometryEstimate,
    y: OdometryEstimate,
)
    requires
        repeatable(&a.numerics),
        alike(a, b),
        given_out(a, latest, x),
        given_out(b, latest, y),
    ensures
        same_estimate(x, y),
{
    let n = &a.numerics;
    let p = latest.left.p_cov;
    let (ma, wa, va) = choose|
        motion: BodyMotion,
        velocity_world: Matrix3,
        velocity_body: Matrix3,
    | #[trigger]
        given_out_by(a, latest, motion, velocity_world, velocity_body, x);
    let (mb, wb, vb) = choose|
        motion: BodyMotion,
        velocity_world: Matrix3,
        velocity_body: Matrix3,
    | #[trigger]
        given_out_by(b, latest, motion, velocity_world, velocity_body, y);
    lemma_body_motion_repeats(n, latest.left.x.q, latest.left.x.velocity, ma, mb);
    assert forall|row: int, col: int| 0 <= row < 3 && 0 <= col < 3 implies #[trigger] wa.row(
        row,
    ).axis(col) == wb.row(row).axis(col) by {
        assert(entry_of(n, p, 3 + row, 3 + col, wa.row(row).axis(col)));
        assert(entry_of(n, p, 3 + row, 3 + col, wb.row(row).axis(col)));
    }
    assert(wa == wb) by {
        assert(wa.row(0).axis(0) == wb.row(0).axis(0));
        assert(wa.row(0).axis(1) == wb.row(0).axis(1));
        assert(wa.row(0).axis(2) == wb.row(0).axis(2));
        assert(wa.row(1).axis(0) == wb.row(1).axis(0));
        assert(wa.row(1).axis(1) == wb.row(1).axis(1));
        assert(wa.row(1).axis(2) == wb.row(1).axis(2));
        assert(wa.row(2).axis(0) == wb.row(2).axis(0));
        assert(wa.row(2).axis(1) == wb.row(2).axis(1));
        assert(wa.row(2).axis(2) == wb.row(2).axis(2));
    }
    lemma_into_body_repeats(n, ma.body_from_world, wa, va, vb);
    assert forall|i: int| 0 <= i < 36 implies x.pose_covariance.entries@[i]
        == y.pose_covariance.entries@[i] by {
        let row = i / 6;
        let col = i % 6;
        assert(i == row * 6 + col);
        assert(entry_of(n, p, pose_place(row), pose_place(col), x.pose_covariance.at(row, col)));
        assert(entry_of(n, p, pose_place(row), pose_place(col), y.pose_covariance.at(row, col)));
    }
    assert(x.pose_covariance.entries@ =~= y.pose_covariance.entries@);
    assert forall|i: int| 0 <= i < 36 implies x.twist_covariance.entries@[i]
        == y.twist_covariance.entries@[i] by {
        let row = i / 6;
        let col = i % 6;
        assert(i == row * 6 + col);
        let s = x.twist_covariance.at(row, col);
        let t = y.twist_covariance.at(row, col);
        if row >= 3 && col >= 3 {
            assert(entry_of(n, p, 6 + row, 6 + col, s));
            assert(entry_of(n, p, 6 + row, 6 + col, t));
        }
    }
    assert(x.twist_covariance.entries@ =~= y.twist_covariance.entries@);
}

/// Law: a late arrival leaves what it would have left in time. Two cores with the same settings
/// whose buffers start from the same estimate and hold the same events have the same estimate now.
pub proof fn law_late_arrival_leaves_the_same_estimate<N: Numerics>(
    a: FusionCore<N>,
    b: FusionCore<N>,
)
    requires
        repeatable(&a.numerics),
        a.well_formed(),
        b.well_formed(),
        a.initialized,
        b.initialized,
        a.numerics == b.numerics,
        same_config(a.config, b.config),
        a.live.constants() == b.live.constants(),
        log_of(a.kept()) == log_of(b.kept()),
        a.kept()[0].left == b.kept()[0].left,
    ensures
        a.kept() == b.kept(),
        a.live.memory() == b.live.memory(),
{
    law_arrival_order_does_not_matter(
        &a.numerics,
        a.live.constants(),
        a.config.rules(),
        a.sources(),
        a.kept(),
        b.kept(),
    );
}

/// Law: every recording starts from the same. Two new cores with configurations that say the same
/// are alike.
pub proof fn law_new_cores_are_alike<N: Numerics>(a: FusionCore<N>, b: FusionCore<N>)
    requires
        repeatable(&a.numerics),
        a.numerics == b.numerics,
        same_config(a.config, b.config),
        a.well_formed(),
        b.well_formed(),
        unstarted(a),
        unstarted(b),
    ensures
        alike(a, b),
{
    lemma_nanoseconds_repeats(
        &a.numerics,
        a.config.replay_buffer_seconds,
        a.reach_ns,
        b.reach_ns,
    );
    lemma_square_repeats(
        &a.numerics,
        9,
        Seq::empty(),
        true,
        a.live.filter@.p_cov,
        b.live.filter@.p_cov,
    );
    assert(a.kept() =~= b.kept());
    assert(a.previous_source_pose@ =~= b.previous_source_pose@);
    assert(a.live.anchors@ =~= b.live.anchors@);
    assert(a.live.activity@ =~= b.live.activity@);
    assert(a.live.filter.noise@ =~= b.live.filter.noise@);
}

/// What a recording holds: samples, messages, and the times at which the output was asked for.
pub enum Arrival {
    Imu(ImuSample, Pose),
    Source(OdometryEstimate),
    Publish,
}

/// Two arrivals that say the same.
pub open spec fn same_arrival(a: Arrival, b: Arrival) -> bool {
    match (a, b) {
        (Arrival::Imu(x, mount), Arrival::Imu(y, other)) => same_sample(x, y) && mount == other,
        (Arrival::Source(x), Arrival::Source(y)) => same_estimate(x, y),
        (Arrival::Publish, Arrival::Publish) => true,
        _ => false,
    }
}

/// Two outputs that say the same.
pub open spec fn same_output(
    a: Option<OdometryEstimate>,
    b: Option<OdometryEstimate>,
) -> bool {
    match (a, b) {
        (Some(x), Some(y)) => same_estimate(x, y),
        (None, None) => true,
        _ => false,
    }
}

/// What the core does with an arrival, and what it gives out.
pub open spec fn handled<N: Numerics>(
    before: FusionCore<N>,
    arrival: Arrival,
    after: FusionCore<N>,
    out: Option<OdometryEstimate>,
) -> bool {
    match arrival {
        Arrival::Imu(imu, base_from_imu) => imu_taken(before, imu, base_from_imu, after)
            && out is None,
        Arrival::Source(msg) => source_taken(before, msg, after) && out is None,
        Arrival::Publish => published(before, after, out),
    }
}

/// A recording played through: the core before each arrival and after the last one, and what was
/// given out at each.
pub open spec fn played<N: Numerics>(
    cores: Seq<FusionCore<N>>,
    arrivals: Seq<Arrival>,
    outs: Seq<Option<OdometryEstimate>>,
) -> bool {
    &&& cores.len() == arrivals.len() + 1
    &&& outs.len() == arrivals.len()
    &&& unstarted(cores[0])
    &&& forall|i: int| 0 <= i < cores.len() ==> (#[trigger] cores[i]).well_formed()
    &&& forall|i: int|
        0 <= i < arrivals.len() ==> handled(
            cores[i],
            #[trigger] arrivals[i],
            cores[i + 1],
            outs[i],
        )
}

/// Law: replaying a recording is deterministic. Two cores with configurations that say the same
/// and the same repeatable arithmetic, given the same recording, are alike at every point of it
/// and give out the same, bit for bit.
pub proof fn law_recording_repeats<N: Numerics>(
    a: Seq<FusionCore<N>>,
    b: Seq<FusionCore<N>>,
    first: Seq<Arrival>,
    second: Seq<Arrival>,
    outs_a: Seq<Option<OdometryEstimate>>,
    outs_b: Seq<Option<OdometryEstimate>>,
    i: int,
)
    requires
        played(a, first, outs_a),
        played(b, second, outs_b),
        repeatable(&a[0].numerics),
        a[0].numerics == b[0].numerics,
        same_config(a[0].config, b[0].config),
        first.len() == second.len(),
        forall|k: int| 0 <= k < first.len() ==> same_arrival(#[trigger] first[k], second[k]),
        0 <= i <= first.len(),
    ensures
        alike(a[i], b[i]),
        repeatable(&a[i].numerics),
        forall|k: int| 0 <= k < i ==> same_output(#[trigger] outs_a[k], outs_b[k]),
    decreases i,
{
    if i == 0 {
        law_new_cores_are_alike(a[0], b[0]);
    } else {
        let k = i - 1;
        law_recording_repeats(a, b, first, second, outs_a, outs_b, k);
        assert(same_arrival(first[k], second[k]));
        assert(handled(a[k], first[k], a[i], outs_a[k]));
        assert(handled(b[k], second[k], b[i], outs_b[k]));
        assert(a[k].well_formed());
        match (first[k], second[k]) {
            (Arrival::Imu(x, mount), Arrival::Imu(y, other)) => {
                law_imu_sample_repeats(a[k], b[k], x, y, mount, a[i], b[i]);
            },
            (Arrival::Source(x), Arrival::Source(y)) => {
                law_source_message_repeats(a[k], b[k], x, y, a[i], b[i]);
            },
            _ => {
                law_output_repeats(a[k], b[k], a[i], b[i], outs_a[k], outs_b[k]);
            },
        }
        lemma_numerics_stay(a[k], first[k], a[i], outs_a[k]);
    }
}

/// The arithmetic is the core's for good.
proof fn lemma_numerics_stay<N: Numerics>(
    before: FusionCore<N>,
    arrival: Arrival,
    after: FusionCore<N>,
    out: Option<OdometryEstimate>,
)
    requires
        handled(before, arrival, after, out),
    ensures
        after.numerics == before.numerics,
{
}

/// Arrivals taken up one after the other, with nothing forgotten on the way.
pub open spec fn gathered<N: Numerics>(
    cores: Seq<FusionCore<N>>,
    arrivals: Seq<(i64, EventKind)>,
) -> bool {
    &&& cores.len() == arrivals.len() + 1
    &&& forall|i: int|
        0 <= i < cores.len() ==> (#[trigger] cores[i]).well_formed() && cores[i].initialized
    &&& forall|i: int|
        0 <= i < arrivals.len() ==> gathered_one(cores[i], #[trigger] arrivals[i], cores[i + 1])
}

/// See [`gathered`]: one arrival.
pub open spec fn gathered_one<N: Numerics>(
    before: FusionCore<N>,
    arrival: (i64, EventKind),
    after: FusionCore<N>,
) -> bool {
    &&& taken_up(before, arrival.0, arrival.1, after)
    &&& after.kept().len() == before.kept().len() + 1
}

/// No two events have the same stamp.
pub open spec fn stamps_differ(log: Seq<(i64, EventKind)>) -> bool {
    forall|i: int, j: int|
        0 <= i < log.len() && 0 <= j < log.len() && i != j ==> (#[trigger] log[i]).0 != (
        #[trigger] log[j]).0
}

/// The stamps strictly increase.
pub open spec fn strictly_in_order(log: Seq<(i64, EventKind)>) -> bool {
    forall|i: int, j: int|
        0 <= i < j < log.len() ==> (#[trigger] log[i]).0 < (#[trigger] log[j]).0
}

/// What one arrival does to the buffer when nothing is forgotten.
proof fn lemma_gathering_one<N: Numerics>(
    before: FusionCore<N>,
    arrival: (i64, EventKind),
    after: FusionCore<N>,
) -> (slot: int)
    requires
        before.well_formed(),
        before.initialized,
        gathered_one(before, arrival, after),
    ensures
        0 < slot <= before.kept().len(),
        log_of(after.kept()) == log_of(before.kept()).insert(slot, arrival),
        after.kept()[0] == before.kept()[0],
        after.live.constants() == before.live.constants(),
        after.numerics == before.numerics,
        after.config == before.config,
{
    let (ts_ns, kind) = arrival;
    let events = before.kept();
    assert(!too_late(events, before.horizon(), ts_ns));
    let (slot, full, gated) = choose|slot: int, full: Seq<EventView<N::Matrix>>, gated: int|
        #[trigger]
        put_in(before, ts_ns, kind, slot, full, gated, after);
    assert(slot > 0) by {
        if slot == 0 {
            assert(events[0].ts_ns > ts_ns);
            assert(events.last().ts_ns >= events[0].ts_ns);
        }
    }
    assert(full.len() == log_of(full).len());
    assert(log_of(full).len() == events.len() + 1);
    let horizon = span(before.reach_ns, full.last().ts_ns);
    let gone = choose|gone: int|
        {
            &&& 0 <= gone < full.len()
            &&& after.kept() == #[trigger] full.skip(gone)
            &&& forall|i: int| 0 < i <= gone ==> (#[trigger] full[i]).ts_ns <= horizon
            &&& gone + 1 == full.len() || full[gone + 1].ts_ns > horizon
        };
    assert(gone == 0);
    assert(after.kept() =~= full);
    assert(full.take(slot)[0] == events.take(slot)[0]);
    slot
}

/// What a run of arrivals does to the buffer when nothing is forgotten.
proof fn lemma_gathering<N: Numerics>(
    cores: Seq<FusionCore<N>>,
    arrivals: Seq<(i64, EventKind)>,
    i: int,
)
    requires
        gathered(cores, arrivals),
        0 <= i <= arrivals.len(),
    ensures
        log_of(cores[i].kept()).to_multiset() == log_of(cores[0].kept()).to_multiset().add(
            arrivals.take(i).to_multiset(),
        ),
        cores[i].kept()[0] == cores[0].kept()[0],
        cores[i].live.constants() == cores[0].live.constants(),
        cores[i].numerics == cores[0].numerics,
        cores[i].config == cores[0].config,
    decreases i,
{
    let start = log_of(cores[0].kept());
    if i == 0 {
        assert(arrivals.take(0) =~= Seq::empty());
        Seq::<(i64, EventKind)>::empty().to_multiset_ensures();
        assert(start.to_multiset() =~= start.to_multiset().add(
            Seq::<(i64, EventKind)>::empty().to_multiset(),
        ));
    } else {
        let k = i - 1;
        lemma_gathering(cores, arrivals, k);
        assert(cores[k].well_formed());
        assert(gathered_one(cores[k], arrivals[k], cores[k + 1]));
        let slot = lemma_gathering_one(cores[k], arrivals[k], cores[i]);
        let held = log_of(cores[k].kept());
        held.insert_ensures(slot, arrivals[k]);
        held.to_multiset_ensures();
        arrivals.take(k).to_multiset_ensures();
        assert(arrivals.take(i) =~= arrivals.take(k).push(arrivals[k]));
        lemma_insert_counts(held, slot, arrivals[k]);
        assert(log_of(cores[i].kept()).to_multiset() =~= start.to_multiset().add(
            arrivals.take(i).to_multiset(),
        ));
    }
}

/// Law: the order in which events arrive does not matter. The same events, no two with the same
/// stamp and all within the buffer's reach, leave the same buffer and the same estimate whatever
/// order they arrive in.
pub proof fn law_any_order_leaves_the_same_estimate<N: Numerics>(
    a: Seq<FusionCore<N>>,
    b: Seq<FusionCore<N>>,
    first: Seq<(i64, EventKind)>,
    second: Seq<(i64, EventKind)>,
)
    requires
        gathered(a, first),
        gathered(b, second),
        alike(a[0], b[0]),
        repeatable(&a[0].numerics),
        first.to_multiset() == second.to_multiset(),
        stamps_differ(log_of(a[0].kept()) + first),
    ensures
        a.last().kept() == b.last().kept(),
        a.last().live.memory() == b.last().live.memory(),
{
    let start = log_of(a[0].kept());
    let whole = start + first;
    let x = a.last();
    let y = b.last();
    lemma_gathering(a, first, first.len() as int);
    lemma_gathering(b, second, second.len() as int);
    assert(first.take(first.len() as int) =~= first);
    assert(second.take(second.len() as int) =~= second);
    let log_a = log_of(x.kept());
    let log_b = log_of(y.kept());
    assert(log_a.to_multiset() == log_b.to_multiset());
    vstd::seq_lib::lemma_multiset_commutative(start, first);
    assert(log_a.to_multiset() == whole.to_multiset());
    lemma_sorted_without_repeats(x.kept(), whole);
    lemma_sorted_without_repeats(y.kept(), whole);
    lemma_one_order(log_a, log_b);
    assert(x.well_formed() && y.well_formed());
    assert(x.initialized && y.initialized);
    law_late_arrival_leaves_the_same_estimate(x, y);
}

/// Inserting adds one.
proof fn lemma_insert_counts(log: Seq<(i64, EventKind)>, slot: int, entry: (i64, EventKind))
    requires
        0 <= slot <= log.len(),
    ensures
        log.insert(slot, entry).to_multiset() == log.to_multiset().insert(entry),
{
    let before = log.take(slot);
    let after = log.skip(slot);
    assert(log =~= before + after);
    assert(log.insert(slot, entry) =~= before.push(entry) + after);
    vstd::seq_lib::lemma_multiset_commutative(before, after);
    vstd::seq_lib::lemma_multiset_commutative(before.push(entry), after);
    before.to_multiset_ensures();
    assert(log.insert(slot, entry).to_multiset() =~= log.to_multiset().insert(entry));
}

/// A buffer is in the order of its stamps, and strictly so if no two are the same.
proof fn lemma_sorted_without_repeats<M>(
    events: Seq<EventView<M>>,
    whole: Seq<(i64, EventKind)>,
)
    requires
        in_stamp_order(events),
        log_of(events).to_multiset() == whole.to_multiset(),
        stamps_differ(whole),
    ensures
        strictly_in_order(log_of(events)),
{
    let log = log_of(events);
    assert forall|i: int, j: int| 0 <= i < j < log.len() implies (#[trigger] log[i]).0 < (
    #[trigger] log[j]).0 by {
        assert(events[i].ts_ns <= events[j].ts_ns);
        if log[i].0 == log[j].0 {
            lemma_repeats_show(log, whole, i, j);
        }
    }
}

/// Two entries with one stamp stay two in any other order.
proof fn lemma_repeats_show(
    log: Seq<(i64, EventKind)>,
    whole: Seq<(i64, EventKind)>,
    i: int,
    j: int,
)
    requires
        log.to_multiset() == whole.to_multiset(),
        0 <= i < j < log.len(),
        log[i].0 == log[j].0,
    ensures
        !stamps_differ(whole),
{
    log.to_multiset_ensures();
    whole.to_multiset_ensures();
    let x = log[i];
    let y = log[j];
    assert(log.contains(x) && log.contains(y));
    assert(whole.to_multiset().count(x) > 0 && whole.to_multiset().count(y) > 0);
    assert(whole.contains(x) && whole.contains(y));
    let k = choose|k: int| 0 <= k < whole.len() && whole[k] == x;
    let l = choose|l: int| 0 <= l < whole.len() && whole[l] == y;
    if k == l {
        assert(x == y);
        let rest = log.remove(j);
        log.to_multiset_ensures();
        assert(rest.to_multiset() =~= log.to_multiset().remove(x));
        rest.to_multiset_ensures();
        assert(rest[i] == x);
        assert(rest.contains(x));
        assert(rest.to_multiset().count(x) > 0);
        let less = whole.remove(k);
        assert(less.to_multiset() =~= whole.to_multiset().remove(x));
        less.to_multiset_ensures();
        assert(less.to_multiset().count(x) > 0);
        assert(less.contains(x));
        let m = choose|m: int| 0 <= m < less.len() && less[m] == x;
        let n = if m < k {
            m
        } else {
            m + 1
        };
        assert(whole[n] == x);
        assert(n != k);
    }
}

/// A log without repeats has one order.
proof fn lemma_one_order(a: Seq<(i64, EventKind)>, b: Seq<(i64, EventKind)>)
    requires
        strictly_in_order(a),
        strictly_in_order(b),
        a.to_multiset() == b.to_multiset(),
    ensures
        a == b,
    decreases a.len(),
{
    a.to_multiset_ensures();
    b.to_multiset_ensures();
    assert(a.len() == b.len());
    if a.len() == 0 {
        assert(a =~= b);
    } else {
        let x = a.last();
        let y = b.last();
        assert(a.contains(x));
        assert(b.contains(y));
        assert(b.to_multiset().count(x) > 0);
        assert(a.to_multiset().count(y) > 0);
        assert(b.contains(x));
        assert(a.contains(y));
        let i = choose|i: int| 0 <= i < b.len() && b[i] == x;
        let j = choose|j: int| 0 <= j < a.len() && a[j] == y;
        if i < b.len() - 1 {
            assert(b[i].0 < b[b.len() - 1].0);
            if j < a.len() - 1 {
                assert(a[j].0 < a[a.len() - 1].0);
            }
        }
        assert(x == y);
        let c = a.drop_last();
        let d = b.drop_last();
        assert(a.remove(a.len() - 1) =~= c);
        assert(b.remove(b.len() - 1) =~= d);
        assert(c.to_multiset() =~= d.to_multiset());
        lemma_one_order(c, d);
        assert(a =~= c.push(x));
        assert(b =~= d.push(y));
    }
}

} // verus!
