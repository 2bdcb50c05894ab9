//! Fusion of odometry sources, with or without an IMU.
//!
//! Measurements may arrive late. Every step taken within the last while is kept with the estimate
//! it left behind, so that a late one is put in its place and everything after it done again.

use std::collections::VecDeque;

use vstd::prelude::*;

use crate::eskf::{Filter, ImuBias, Noise, State};
use crate::estimator::{stepped, Constants, Estimator, EventKind, Measurement, SourceActivity};
use crate::estimator::StepRules;
use crate::formulas::{body_motion, into_body, leveled, nanoseconds, nanoseconds_of, period};
use crate::formulas::{smoothed, without_lever, Leveling};
use crate::fusion_config::{resolve_variance, OdometryFusionConfig};
use crate::fusion_model::{calibrated, counted_by, entry_of, given_out_by, imu_known, imu_taken};
use crate::fusion_model::{imu_taken_by, in_stamp_order, kept, linked, log_of, measured};
use crate::fusion_model::{pose_counts, pose_part, pose_place, publishable, published};
use crate::fusion_model::{published_by, put_in, replayed_from, replayed_with, resolved_six};
use crate::fusion_model::{sampled, slot_for, source_at, source_fused, source_fused_by};
use crate::fusion_model::{source_known, source_taken, started, taken_up, trimmed, twist_part};
use crate::fusion_model::{unstarted, velocity_part, with_sample, BodySample, Event, EventView};
use crate::fusion_model::{FusionCore, FusionCounters};
use crate::numerics::Numerics;
use crate::ordered_map::FrameKey;
use crate::scalar::Scalar;
use crate::source_key::SourceKey;
use crate::stamp::{count_up, span_ns};
use crate::types::{ImuSample, Matrix3, Matrix6, OdometryEstimate, Pose, Quaternion, Six, Twist};
use crate::types::Vector3;

verus! {

fn count_by(count: u64, more: u64) -> (r: u64)
    ensures
        r == counted_by(count, more as int),
{
    if more < u64::MAX - count {
        count + more
    } else {
        u64::MAX
    }
}

proof fn lemma_counted_by(count: u64, a: int, b: int)
    requires
        a >= 0,
        b >= 0,
    ensures
        counted_by(counted_by(count, a), b) == counted_by(count, a + b),
{
}

fn resolve_six(configured: Six, from_message: &Matrix6) -> (r: Six)
    ensures
        r == resolved_six(configured, *from_message),
{
    Six {
        linear: Vector3 {
            x: resolve_variance(configured.linear.x, from_message.entry(0, 0)),
            y: resolve_variance(configured.linear.y, from_message.entry(1, 1)),
            z: resolve_variance(configured.linear.z, from_message.entry(2, 2)),
        },
        angular: Vector3 {
            x: resolve_variance(configured.angular.x, from_message.entry(3, 3)),
            y: resolve_variance(configured.angular.y, from_message.entry(4, 4)),
            z: resolve_variance(configured.angular.z, from_message.entry(5, 5)),
        },
    }
}

fn does_pose_count(variance: Six, pose: &Pose) -> (r: bool)
    ensures
        r == pose_counts(variance, *pose),
{
    let mut dim: usize = 0;
    while dim < 6
        invariant
            dim <= 6,
            forall|d: int| 0 <= d < dim ==> !(#[trigger] variance.at(d)).positive(),
        decreases 6 - dim,
    {
        if variance.get(dim).is_positive() {
            assert(variance.at(dim as int).positive());
            return pose.is_finite();
        }
        dim += 1;
    }
    false
}

impl OdometryFusionConfig {
    fn step_rules(&self) -> (r: StepRules)
        ensures
            r == self.rules(),
    {
        StepRules {
            use_imu: self.use_imu,
            mahalanobis_gate: self.mahalanobis_gate,
            constraint_twist_variances: self.constraint_twist_variances,
        }
    }
}

impl<N: Numerics> FusionCore<N> {
    /// A core that has seen nothing yet.
    pub fn new(config: OdometryFusionConfig, numerics: N) -> (r: Self)
        requires
            config.well_formed(),
        ensures
            r.well_formed(),
            r.numerics == numerics,
            r.config == config,
            unstarted(r),
    {
        let filter = Filter::new(&numerics);
        let reach_ns: i64 = nanoseconds(&numerics, config.replay_buffer_seconds);
        let previous_source_pose: Vec<Option<Pose>> = vec![None; config.sources.len()];
        FusionCore {
            numerics,
            config,
            live: Estimator {
                filter,
                anchors: Vec::new(),
                activity: Vec::new(),
                last_imu_ns: 0,
                last_gyro: Vector3::zeros(),
            },
            imu_noise: Noise::default(),
            initialized: false,
            init_gyro_sum: Vector3::zeros(),
            init_accel_sum: Vector3::zeros(),
            init_samples: 0,
            events: VecDeque::new(),
            lever_gyro: Vector3::zeros(),
            lever_gyro_ns: 0,
            lever_alpha: Vector3::zeros(),
            previous_source_pose,
            last_publish_ns: 0,
            reach_ns,
            counters: FusionCounters {
                imu_samples: 0,
                measurements: 0,
                gated: 0,
                replayed: 0,
                too_late: 0,
            },
        }
    }

    /// Takes the step of an event that is not older than the last one, on what that one left.
    fn process(&mut self, ts_ns: i64, kind: EventKind) -> (gated: Ghost<int>)
        requires
            old(self).buffer_sound(),
            ts_ns >= old(self).kept().last().ts_ns,
            kind.within(old(self).sources()),
        ensures
            final(self).buffer_sound(),
            final(self).live.constants() == old(self).live.constants(),
            final(self).kept() == old(self).kept().push(
                EventView { ts_ns, kind, left: final(self).live.memory() },
            ),
            stepped(
                &old(self).numerics,
                old(self).live.constants(),
                old(self).config.rules(),
                old(self).kept().last().left,
                ts_ns,
                kind,
                final(self).live.memory(),
                gated@,
            ),
            gated@ >= 0,
            *final(self) == (FusionCore {
                live: final(self).live,
                events: final(self).events,
                counters: FusionCounters {
                    gated: counted_by(old(self).counters.gated, gated@),
                    ..old(self).counters
                },
                ..*old(self)
            }),
    {
        let ghost before = self.kept();
        let last: usize = self.events.len() - 1;
        assert(before[last as int] == self.events@[last as int]@);
        assert(before[last as int].left.fits(self.sources()));
        self.live.restore(&self.events[last].left);
        let rules = self.config.step_rules();
        let gated: u64 = self.live.step(&self.numerics, rules, ts_ns, kind);
        self.counters.gated = count_by(self.counters.gated, gated);
        let left = self.live.snapshot();
        self.events.push_back(Event { ts_ns, kind, left });
        proof {
            let after = self.kept();
            assert(after =~= before.push(
                EventView { ts_ns, kind, left: self.live.memory() },
            ));
            let n = &self.numerics;
            let c = self.live.constants();
            let k = before.len() as int;
            assert(stepped(
                n,
                c,
                rules,
                after[k - 1].left,
                after[k].ts_ns,
                after[k].kind,
                after[k].left,
                gated as int,
            ));
            assert(linked(n, c, rules, after, k));
            assert forall|i: int| 0 < i < after.len() implies #[trigger] linked(
                n,
                c,
                rules,
                after,
                i,
            ) by {
                if i < before.len() {
                    assert(linked(n, c, rules, before, i));
                    lemma_linked_moves(n, c, rules, before, i, after, i);
                }
            }
        }
        Ghost(gated as int)
    }

    /// Where an event of this stamp goes.
    fn find_slot(&self, ts_ns: i64) -> (slot: usize)
        requires
            in_stamp_order(self.kept()),
        ensures
            slot_for(self.kept(), ts_ns, slot as int),
    {
        let ghost events = self.kept();
        let mut slot: usize = self.events.len();
        while slot > 0 && self.events[slot - 1].ts_ns > ts_ns
            invariant
                events == self.kept(),
                slot <= events.len(),
                forall|i: int| slot <= i < events.len() ==> (#[trigger] events[i]).ts_ns > ts_ns,
            decreases slot,
        {
            assert(events[slot - 1] == self.events@[slot - 1]@);
            slot -= 1;
        }
        proof {
            if slot > 0 {
                assert(events[slot - 1] == self.events@[slot - 1]@);
                assert forall|i: int| 0 <= i < slot implies (#[trigger] events[i]).ts_ns
                    <= ts_ns by {
                    assert(events[i].ts_ns <= events[slot - 1].ts_ns);
                }
            }
        }
        slot
    }

    /// Forgets the events that nothing within the horizon needs any more.
    fn trim(&mut self, horizon: i64)
        requires
            old(self).buffer_sound(),
        ensures
            final(self).buffer_sound(),
            trimmed(old(self).kept(), horizon, final(self).kept()),
            final(self).kept().last() == old(self).kept().last(),
            *final(self) == (FusionCore { events: final(self).events, ..*old(self) }),
    {
        let ghost start = *self;
        let ghost before = self.kept();
        let ghost mut gone: int = 0;
        assert(before.skip(0) =~= before);
        assert(before[0] == self.events@[0]@);
        while self.events.len() > 1 && self.events[1].ts_ns <= horizon
            invariant
                *self == (FusionCore { events: self.events, ..start }),
                before == start.kept(),
                start.buffer_sound(),
                0 <= gone < before.len(),
                self.kept() == before.skip(gone),
                forall|i: int| 0 < i <= gone ==> (#[trigger] before[i]).ts_ns <= horizon,
            decreases self.events@.len(),
        {
            assert(self.kept()[1] == self.events@[1]@);
            assert(before.skip(gone).len() == before.len() - gone);
            assert(before.skip(gone)[1] == before[gone + 1]);
            assert(before[gone + 1].ts_ns <= horizon);
            let ghost held = self.events@;
            let _ = self.events.pop_front();
            proof {
                assert(self.events@ =~= held.skip(1));
                assert(self.kept() =~= kept(held).skip(1));
                assert(before.skip(gone).skip(1) =~= before.skip(gone + 1));
                gone = gone + 1;
            }
        }
        proof {
            if self.events@.len() > 1 {
                assert(self.kept()[1] == self.events@[1]@);
                assert(self.kept()[1] == before.skip(gone)[1]);
                assert(before[gone + 1].ts_ns > horizon);
            }
            assert(trimmed(before, horizon, self.kept()));
            let n = &self.numerics;
            let c = self.live.constants();
            let rules = self.config.rules();
            let after = self.kept();
            assert forall|i: int| 0 < i < after.len() implies #[trigger] linked(
                n,
                c,
                rules,
                after,
                i,
            ) by {
                assert(linked(n, c, rules, before, i + gone));
                lemma_linked_moves(n, c, rules, before, i + gone, after, i);
            }
        }
    }

    /// Takes up an arrival.
    pub fn insert(&mut self, ts_ns: i64, kind: EventKind)
        requires
            old(self).well_formed(),
            old(self).initialized,
            kind.within(old(self).sources()),
        ensures
            final(self).well_formed(),
            taken_up(*old(self), ts_ns, kind, *final(self)),
    {
        let ghost start = *self;
        let ghost before = self.kept();
        let ghost n = &start.numerics;
        let ghost c = start.live.constants();
        let ghost rules = start.config.rules();
        let last: usize = self.events.len() - 1;
        assert(before[last as int] == self.events@[last as int]@);
        assert(before[0] == self.events@[0]@);
        let newest_ns: i64 = self.events[last].ts_ns;
        let reached: i64 = span_ns(self.reach_ns, newest_ns);
        if ts_ns < newest_ns && (ts_ns < reached || ts_ns < self.events[0].ts_ns) {
            self.counters.too_late = count_up(self.counters.too_late);
            return;
        }
        let slot: usize = self.find_slot(ts_ns);
        let late: bool = slot < self.events.len();
        let ghost whole = self.events@;
        let mut tail = self.events.split_off(slot);
        let ghost mut done: int = 0;
        let ghost mut gated: int = 0;
        proof {
            assert(slot > 0) by {
                if slot == 0 {
                    assert(before[0].ts_ns > ts_ns);
                }
            }
            assert(self.kept() =~= before.take(slot as int));
            assert forall|i: int| 0 < i < slot implies #[trigger] linked(
                n,
                c,
                rules,
                self.kept(),
                i,
            ) by {
                assert(linked(n, c, rules, before, i));
                lemma_linked_moves(n, c, rules, before, i, self.kept(), i);
            }
            assert(self.kept().last() == before[slot - 1]);
        }
        let more = self.process(ts_ns, kind);
        proof {
            gated = more@;
            lemma_replay_grows(
                n,
                c,
                rules,
                before.take(slot as int),
                slot as int,
                0,
                EventView { ts_ns, kind, left: self.live.memory() },
                gated,
            );
            assert(self.kept().take(slot as int) =~= before.take(slot as int));
            assert(log_of(self.kept()) =~= log_of(before).take(slot as int).push((ts_ns, kind)));
        }
        while tail.len() > 0
            invariant
                self.buffer_sound(),
                *self == (FusionCore {
                    live: self.live,
                    events: self.events,
                    counters: FusionCounters {
                        gated: counted_by(start.counters.gated, gated),
                        ..start.counters
                    },
                    ..start
                }),
                start.well_formed(),
                start.initialized,
                before == start.kept(),
                before == kept(whole),
                n == &start.numerics,
                c == start.live.constants(),
                rules == start.config.rules(),
                self.live.constants() == c,
                gated >= 0,
                0 < slot,
                slot_for(before, ts_ns, slot as int),
                0 <= done,
                slot + done <= before.len(),
                tail@ == whole.skip(slot + done),
                self.kept().len() == slot + 1 + done,
                self.kept().take(slot as int) == before.take(slot as int),
                log_of(self.kept()) == log_of(before).take(slot as int).push((ts_ns, kind))
                    + log_of(before).subrange(slot as int, slot + done),
                self.kept().last().ts_ns <= if done == 0 {
                    ts_ns
                } else {
                    before[slot + done - 1].ts_ns
                },
                self.live.memory() == self.kept().last().left,
                replayed_from(n, c, rules, self.kept(), slot as int, gated),
            decreases tail@.len(),
        {
            let ghost held = self.kept();
            let ghost k = slot + done;
            assert(tail@[0] == whole[k]);
            assert(before[k] == whole[k]@);
            match tail.pop_front() {
                Some(event) => {
                    assert(event@ == before[k]);
                    assert(before[k].kind.within(start.sources()));
                    let more = self.process(event.ts_ns, event.kind);
                    proof {
                        lemma_counted_by(start.counters.gated, gated, more@);
                        lemma_replay_grows(
                            n,
                            c,
                            rules,
                            held,
                            slot as int,
                            gated,
                            self.kept().last(),
                            more@,
                        );
                        gated = gated + more@;
                        done = done + 1;
                        assert(tail@ =~= whole.skip(slot + done));
                        assert(self.kept().take(slot as int) =~= held.take(slot as int));
                        assert(log_of(self.kept()) =~= log_of(held).push(
                            (before[k].ts_ns, before[k].kind),
                        ));
                        assert(log_of(before).subrange(slot as int, slot + done) =~= log_of(
                            before,
                        ).subrange(slot as int, k).push(log_of(before)[k]));
                        assert(log_of(self.kept()) =~= log_of(before).take(slot as int).push(
                            (ts_ns, kind),
                        ) + log_of(before).subrange(slot as int, slot + done));
                    }
                },
                None => {},
            }
        }
        let ghost full = self.kept();
        proof {
            assert(slot + done == before.len());
            assert(log_of(full) =~= log_of(before).insert(slot as int, (ts_ns, kind)));
            assert(replayed_with(n, c, rules, before, ts_ns, kind, slot as int, full, gated));
        }
        if late {
            self.counters.replayed = count_up(self.counters.replayed);
        }
        let newest: usize = self.events.len() - 1;
        assert(full[newest as int] == self.events@[newest as int]@);
        let horizon: i64 = span_ns(self.reach_ns, self.events[newest].ts_ns);
        self.trim(horizon);
        proof {
            assert(put_in(start, ts_ns, kind, slot as int, full, gated, *self));
            assert(full[0] == full.take(slot as int)[0]);
            assert(before[0] == before.take(slot as int)[0]);
            assert(full.last().ts_ns >= before.last().ts_ns) by {
                if late {
                    assert(log_of(full).last() == log_of(before).last());
                }
            }
            lemma_base_stays(before[0], start.horizon(), full, horizon, self.kept());
        }
    }

    fn initialize(
        &mut self,
        timestamp_ns: i64,
        world_from_body: Quaternion,
        gyro_bias: Vector3,
        accel_bias: Vector3,
    )
        requires
            old(self).config.well_formed(),
            old(self).previous_source_pose@.len() == old(self).sources(),
            nanoseconds_of(
                &old(self).numerics,
                old(self).config.replay_buffer_seconds,
                old(self).reach_ns,
            ),
            old(self).kept().len() == 0,
        ensures
            final(self).well_formed(),
            started(
                *old(self),
                timestamp_ns,
                world_from_body,
                ImuBias { gyro: gyro_bias, accel: accel_bias },
                *final(self),
            ),
    {
        let ghost before = *self;
        let mut noise: Vec<Noise> = Vec::new();
        noise.push(self.imu_noise);
        assert(noise@ =~= seq![self.imu_noise]);
        self.live.filter.noise = noise;
        self.live.filter.gravity = self.config.gravity;
        let mut biases: Vec<ImuBias> = Vec::new();
        biases.push(ImuBias { gyro: gyro_bias, accel: accel_bias });
        assert(biases@ =~= seq![ImuBias { gyro: gyro_bias, accel: accel_bias }]);
        self.live.filter.init(&self.numerics, world_from_body, biases, self.config.initial_stds);
        let sources: usize = self.config.sources.len();
        self.live.anchors = vec![None; sources];
        self.live.activity = vec![SourceActivity::default(); sources];
        assert(self.live.anchors@ =~= Seq::new(before.sources() as nat, |i: int| None::<Pose>));
        assert(self.live.activity@ =~= Seq::new(
            before.sources() as nat,
            |i: int| SourceActivity::spec_none(),
        ));
        self.initialized = true;
        self.last_publish_ns = timestamp_ns;
        let left = self.live.snapshot();
        self.events.push_back(Event { ts_ns: timestamp_ns, kind: EventKind::Seed, left });
        assert(self.kept() =~= before.kept().push(
            EventView {
                ts_ns: timestamp_ns,
                kind: EventKind::Seed,
                left: self.live.memory(),
            },
        ));
    }

    /// Takes an IMU sample, mounted at `base_from_imu`. The filter's body frame is base_frame, so
    /// both IMU vectors are rotated through the mount.
    pub fn handle_imu(&mut self, imu: &ImuSample, base_from_imu: &Pose)
        requires
            old(self).well_formed(),
            !old(self).initialized && imu_known(*old(self), imu.frame_id@) ==> old(
                self,
            ).config.usable(),
        ensures
            final(self).well_formed(),
            imu_taken(*old(self), *imu, *base_from_imu, *final(self)),
    {
        let ghost before = *self;
        let index: usize = match self.config.imus.position(&imu.frame_id) {
            Some(index) => index,
            None => return,
        };
        let noise = self.config.imus.entries[index].1.noise();
        let ts_ns: i64 = imu.timestamp_ns;
        let gyro = self.numerics.rotate(&base_from_imu.rotation, &imu.angular_velocity);
        let turned = self.numerics.rotate(&base_from_imu.rotation, &imu.linear_acceleration);
        let mut alpha: Vector3 = self.lever_alpha;
        if self.lever_gyro_ns != 0 {
            let dt_ns: i64 = span_ns(self.lever_gyro_ns, ts_ns);
            if dt_ns > 0 {
                alpha = smoothed(
                    &self.numerics,
                    &self.lever_alpha,
                    &gyro,
                    &self.lever_gyro,
                    dt_ns,
                );
            }
        }
        let accel = without_lever(
            &self.numerics,
            &turned,
            &gyro,
            &alpha,
            &base_from_imu.translation,
        );
        self.imu_noise = noise;
        self.lever_gyro = gyro;
        self.lever_gyro_ns = ts_ns;
        self.lever_alpha = alpha;
        let ghost s = BodySample { gyro, turned, alpha, accel };
        let ghost ready = *self;
        assert(sampled(before, *imu, *base_from_imu, s));
        assert(before.kept() == ready.kept());
        assert(before.config.imus.entries@[index as int].0.parts() == imu.frame_id.parts());
        assert(before.config.imus.entries@[index as int].0@ == imu.frame_id@);
        assert(imu_known(before, imu.frame_id@));
        assert(ready == with_sample(before, noise, ts_ns, s));
        if self.initialized {
            self.insert(ts_ns, EventKind::Imu { gyro, accel });
            self.counters.imu_samples = count_up(self.counters.imu_samples);
            assert(imu_taken_by(before, *imu, *base_from_imu, index as int, s, *self));
            return;
        }
        let rate: Scalar = self.numerics.norm(&gyro);
        let ghost mut level_seen: Leveling = arbitrary();
        if self.config.imu_init_gyro_limit.lt(rate) {
            self.init_gyro_sum = Vector3::zeros();
            self.init_accel_sum = Vector3::zeros();
            self.init_samples = 0;
            assert(calibrated(
                ready,
                ts_ns,
                s,
                rate,
                self.init_gyro_sum,
                self.init_accel_sum,
                level_seen,
                *self,
            ));
            assert(imu_taken_by(before, *imu, *base_from_imu, index as int, s, *self));
            return;
        }
        self.init_gyro_sum = self.numerics.plus(&self.init_gyro_sum, &gyro);
        self.init_accel_sum = self.numerics.plus(&self.init_accel_sum, &accel);
        self.init_samples = self.init_samples + 1;
        let ghost gyro_sum = self.init_gyro_sum;
        let ghost accel_sum = self.init_accel_sum;
        let wanted: u64 = if self.config.imu_init_samples < 1 {
            1
        } else {
            self.config.imu_init_samples as u64
        };
        if self.init_samples >= wanted {
            let level = leveled(
                &self.numerics,
                &self.init_accel_sum,
                &self.init_gyro_sum,
                self.init_samples as i64,
                self.config.gravity,
            );
            proof {
                level_seen = level;
            }
            self.initialize(ts_ns, level.world_from_body, level.gyro_bias, level.accel_bias);
        }
        assert(calibrated(ready, ts_ns, s, rate, gyro_sum, accel_sum, level_seen, *self));
        assert(imu_taken_by(before, *imu, *base_from_imu, index as int, s, *self));
    }

    /// Where the source of this message stands among the configured ones.
    fn find_source(&self, msg: &OdometryEstimate) -> (r: Option<usize>)
        requires
            self.config.well_formed(),
        ensures
            match r {
                Some(index) => source_at(*self, *msg, index as int),
                None => !source_known(*self, *msg),
            },
    {
        let key = SourceKey {
            parent_frame: msg.frame_id.clone(),
            child_frame: msg.child_frame_id.clone(),
        };
        self.config.sources.position(&key)
    }

    /// Fuses a message of the source at `index` once the fusion has started.
    fn fuse_source(&mut self, msg: &OdometryEstimate, index: usize)
        requires
            old(self).well_formed(),
            old(self).initialized,
            source_at(*old(self), *msg, index as int),
        ensures
            final(self).well_formed(),
            source_fused(*old(self), *msg, *final(self)),
    {
        let ghost before = *self;
        let settings = self.config.sources.entries[index].1;
        let pose_variance = resolve_six(settings.pose_variances, &msg.pose_covariance);
        let twist_variance = resolve_six(settings.twist_variances, &msg.twist_covariance);
        let mut delta: Option<Pose> = None;
        if does_pose_count(pose_variance, &msg.pose) {
            if let Some(previous) = self.previous_source_pose[index] {
                let undone = self.numerics.inverse(&previous);
                delta = Some(self.numerics.compose(&undone, &msg.pose));
            }
            self.previous_source_pose.set(index, Some(msg.pose));
        }
        let m = Measurement {
            source: index,
            delta,
            pose_variance,
            twist_variance,
            linear: msg.twist.linear,
            angular: msg.twist.angular,
        };
        let ghost poses = self.previous_source_pose;
        assert(before.kept() == self.kept());
        assert(measured(before, *msg, index as int, m));
        assert(*self == (FusionCore { previous_source_pose: poses, ..before }));
        self.insert(msg.timestamp_ns, EventKind::Measurement(m));
        self.counters.measurements = count_up(self.counters.measurements);
        assert(source_fused_by(before, *msg, index as int, m, poses, *self));
    }

    /// Takes an odometry message.
    pub fn handle_source(&mut self, msg: &OdometryEstimate)
        requires
            old(self).well_formed(),
        ensures
            final(self).well_formed(),
            source_taken(*old(self), *msg, *final(self)),
    {
        let ghost before = *self;
        let index: usize = match self.find_source(msg) {
            Some(index) => index,
            None => return,
        };
        assert(source_known(before, *msg));
        if !self.initialized {
            if self.config.use_imu {
                return;
            }
            self.initialize(
                msg.timestamp_ns,
                Quaternion::identity(),
                Vector3::zeros(),
                Vector3::zeros(),
            );
        }
        assert(source_at(*self, *msg, index as int));
        self.fuse_source(msg, index);
    }

    /// Whether an estimate may be given out.
    fn state_is_publishable(&self, state: &State, distance: Scalar) -> (r: bool)
        ensures
            r == publishable(state@, distance, self.config.max_position_m),
    {
        let finite: bool = state.position.is_finite() && state.velocity.is_finite()
            && state.q.is_finite();
        let capped: bool = self.config.max_position_m.le(Scalar::zero()) || distance.le(
            self.config.max_position_m,
        );
        finite && capped
    }

    /// One row of the covariance of the velocity in the world's axes.
    fn velocity_row(&self, covariance: &N::Matrix, row: usize) -> (r: Vector3)
        requires
            row < 3,
        ensures
            forall|col: int|
                0 <= col < 3 ==> entry_of(
                    &self.numerics,
                    *covariance,
                    3 + row,
                    3 + col,
                    #[trigger] r.axis(col),
                ),
    {
        Vector3 {
            x: self.numerics.entry(covariance, 3 + row, 3),
            y: self.numerics.entry(covariance, 3 + row, 4),
            z: self.numerics.entry(covariance, 3 + row, 5),
        }
    }

    fn pose_covariance(&self, covariance: &N::Matrix) -> (r: Matrix6)
        ensures
            pose_part(&self.numerics, *covariance, r),
    {
        let mut r = Matrix6::zeros();
        let mut k: usize = 0;
        while k < 36
            invariant
                k <= 36,
                forall|i: int|
                    0 <= i < k ==> entry_of(
                        &self.numerics,
                        *covariance,
                        pose_place(i / 6),
                        pose_place(i % 6),
                        #[trigger] r.entries[i],
                    ),
            decreases 36 - k,
        {
            let row: usize = if k / 6 < 3 {
                k / 6
            } else {
                k / 6 + 3
            };
            let col: usize = if k % 6 < 3 {
                k % 6
            } else {
                k % 6 + 3
            };
            let value: Scalar = self.numerics.entry(covariance, row, col);
            assert(entry_of(
                &self.numerics,
                *covariance,
                pose_place(k as int / 6),
                pose_place(k as int % 6),
                value,
            ));
            r.entries[k] = value;
            k += 1;
        }
        assert forall|row: int, col: int| 0 <= row < 6 && 0 <= col < 6 implies entry_of(
            &self.numerics,
            *covariance,
            pose_place(row),
            pose_place(col),
            #[trigger] r.at(row, col),
        ) by {
            let i = row * 6 + col;
            assert(i / 6 == row && i % 6 == col);
            assert(r.entries[i] == r.at(row, col));
        }
        r
    }

    fn twist_covariance(&self, covariance: &N::Matrix, velocity: &Matrix3) -> (r: Matrix6)
        ensures
            twist_part(&self.numerics, *covariance, *velocity, r),
    {
        let mut r = Matrix6::zeros();
        let mut k: usize = 0;
        while k < 36
            invariant
                k <= 36,
                forall|i: int|
                    0 <= i < k ==> {
                        let row = i / 6;
                        let col = i % 6;
                        let value = #[trigger] r.entries[i];
                        if row < 3 && col < 3 {
                            value == velocity.row(row).axis(col)
                        } else if row >= 3 && col >= 3 {
                            entry_of(&self.numerics, *covariance, 6 + row, 6 + col, value)
                        } else {
                            value == Scalar::zero()
                        }
                    },
            decreases 36 - k,
        {
            let row: usize = k / 6;
            let col: usize = k % 6;
            let value: Scalar = if row < 3 && col < 3 {
                velocity.row_at(row).component(col)
            } else if row >= 3 && col >= 3 {
                self.numerics.entry(covariance, 6 + row, 6 + col)
            } else {
                Scalar::zero()
            };
            r.entries[k] = value;
            k += 1;
        }
        assert forall|row: int, col: int| 0 <= row < 6 && 0 <= col < 6 implies {
            let value = #[trigger] r.at(row, col);
            if row < 3 && col < 3 {
                value == velocity.row(row).axis(col)
            } else if row >= 3 && col >= 3 {
                entry_of(&self.numerics, *covariance, 6 + row, 6 + col, value)
            } else {
                value == Scalar::zero()
            }
        } by {
            let i = row * 6 + col;
            assert(i / 6 == row && i % 6 == col);
            assert(r.entries[i] == r.at(row, col));
        }
        r
    }

    /// The latest estimate, once a publishing period has passed since the last.
    pub fn maybe_publish(&mut self) -> (r: Option<OdometryEstimate>)
        requires
            old(self).well_formed(),
        ensures
            final(self).well_formed(),
            published(*old(self), *final(self), r),
    {
        let ghost before = *self;
        if self.events.len() == 0 {
            return None;
        }
        let last: usize = self.events.len() - 1;
        let ghost latest = self.kept().last();
        assert(latest == self.events@[last as int]@);
        assert(before.kept()[last as int].left.fits(before.sources()));
        let ts_ns: i64 = self.events[last].ts_ns;
        let period_ns: i64 = period(&self.numerics, self.config.publish_rate);
        if span_ns(self.last_publish_ns, ts_ns) < period_ns {
            assert(published_by(before, period_ns, Scalar::zero(), *self, None));
            return None;
        }
        self.last_publish_ns = ts_ns;
        assert(self.kept() == before.kept());
        let state = self.events[last].left.state.copy();
        let covariance: &N::Matrix = &*self.events[last].left.covariance;
        let last_gyro: Vector3 = self.events[last].left.last_gyro;
        let distance: Scalar = self.numerics.norm(&state.position);
        if !self.state_is_publishable(&state, distance) {
            assert(published_by(before, period_ns, distance, *self, None));
            return None;
        }
        let motion = body_motion(&self.numerics, &state.q, &state.velocity);
        let bias: Vector3 = state.biases[0].gyro;
        let angular = self.numerics.minus(&last_gyro, &bias);
        let velocity_world = Matrix3 {
            first: self.velocity_row(covariance, 0),
            second: self.velocity_row(covariance, 1),
            third: self.velocity_row(covariance, 2),
        };
        let velocity_body = into_body(
            &self.numerics,
            &motion.body_from_world,
            &velocity_world,
        );
        let out = OdometryEstimate {
            timestamp_ns: ts_ns,
            frame_id: self.config.odom_frame.clone(),
            child_frame_id: self.config.base_frame.clone(),
            pose: Pose { translation: state.position, rotation: state.q },
            pose_covariance: self.pose_covariance(covariance),
            twist: Twist { linear: motion.velocity, angular },
            twist_covariance: self.twist_covariance(covariance, &velocity_body),
        };
        proof {
            assert(velocity_part(&self.numerics, *covariance, velocity_world));
            assert(given_out_by(before, latest, motion, velocity_world, velocity_body, out));
            assert(published_by(before, period_ns, distance, *self, Some(out)));
        }
        Some(out)
    }

    /// What has been seen and done so far.
    pub fn report(&self) -> (r: FusionCounters)
        ensures
            r == self.counters,
    {
        self.counters
    }
}

/// One more step at the end.
proof fn lemma_replay_grows<N: Numerics>(
    n: &N,
    c: Constants,
    rules: StepRules,
    events: Seq<EventView<N::Matrix>>,
    from: int,
    gated: int,
    e: EventView<N::Matrix>,
    last: int,
)
    requires
        replayed_from(n, c, rules, events, from, gated),
        0 < events.len(),
        from <= events.len(),
        stepped(n, c, rules, events.last().left, e.ts_ns, e.kind, e.left, last),
    ensures
        replayed_from(n, c, rules, events.push(e), from, gated + last),
{
    let after = events.push(e);
    assert(after.drop_last() =~= events);
    assert(after[after.len() - 2] == events.last());
    assert(stepped(
        n,
        c,
        rules,
        after[after.len() - 2].left,
        after.last().ts_ns,
        after.last().kind,
        after.last().left,
        last,
    ));
    assert(replayed_from(n, c, rules, after.drop_last(), from, gated + last - last));
}

/// Once there is a base that everything within reach can be replayed from, there stays one.
proof fn lemma_base_stays<M>(
    base: EventView<M>,
    earlier: i64,
    full: Seq<EventView<M>>,
    horizon: i64,
    after: Seq<EventView<M>>,
)
    requires
        trimmed(full, horizon, after),
        full.len() > 0,
        full[0] == base,
        base.kind is Seed || base.ts_ns <= earlier,
        earlier <= horizon,
    ensures
        after.len() > 0,
        after.last() == full.last(),
        after[0].kind is Seed || after[0].ts_ns <= horizon,
{
    let gone = choose|gone: int|
        {
            &&& 0 <= gone < full.len()
            &&& after == #[trigger] full.skip(gone)
            &&& forall|i: int| 0 < i <= gone ==> (#[trigger] full[i]).ts_ns <= horizon
            &&& gone + 1 == full.len() || full[gone + 1].ts_ns > horizon
        };
    assert(after[0] == full[gone]);
}

/// A link depends on nothing but its two events.
proof fn lemma_linked_moves<N: Numerics>(
    n: &N,
    c: Constants,
    rules: StepRules,
    a: Seq<EventView<N::Matrix>>,
    i: int,
    b: Seq<EventView<N::Matrix>>,
    j: int,
)
    requires
        linked(n, c, rules, a, i),
        a[i - 1].left == b[j - 1].left,
        a[i].ts_ns == b[j].ts_ns,
        a[i].kind == b[j].kind,
        a[i].left == b[j].left,
    ensures
        linked(n, c, rules, b, j),
{
    let g = choose|g: int| #[trigger]
        stepped(n, c, rules, a[i - 1].left, a[i].ts_ns, a[i].kind, a[i].left, g);
    assert(stepped(n, c, rules, b[j - 1].left, b[j].ts_ns, b[j].kind, b[j].left, g));
}

} // verus!
