//! Stamps, keys, text, rate limits and what crosses the edge.

use std::sync::atomic::{AtomicU64, Ordering};

use dim_slam::eskf::{accel_bias_col, gyro_bias_col};
use dim_slam::fusion_config::{resolve_variance, OdometryFusionConfig};
use dim_slam::log::{check_and_record, is_due};
use dim_slam::ordered_map::OrderedMap;
use dim_slam::scalar::{larger, smaller, Scalar};
use dim_slam::source_key::SourceKey;
use dim_slam::stamp::{span_ns, stamp_to_ns, to_stamp};
use dim_slam::types::{Matrix6, OdometryEstimate, Pose, Vector3};
use dim_slam::wire::{matrix_from_row_major, matrix_to_row_major, to_message, transforms};
use dim_slam::wire::{transform_to_isometry, StampedTransform};

fn s(value: f64) -> Scalar {
    Scalar::from_bits(value.to_bits())
}

#[test]
fn stamp_round_trip() {
    let stamp = to_stamp(1_234_567_890_123_456_789);
    assert_eq!(stamp.sec, 1_234_567_890);
    assert_eq!(stamp.nsec, 123_456_789);
    assert_eq!(stamp_to_ns(&stamp), 1_234_567_890_123_456_789);
}

#[test]
fn a_negative_stamp_splits_towards_zero() {
    let stamp = to_stamp(-1_500_000_000);
    assert_eq!((stamp.sec, stamp.nsec), (-1, -500_000_000));
    assert_eq!(stamp_to_ns(&stamp), -1_500_000_000);
}

#[test]
fn a_span_is_held_at_the_ends_of_its_range() {
    assert_eq!(span_ns(3, 10), 7);
    assert_eq!(span_ns(i64::MIN, i64::MAX), i64::MAX);
    assert_eq!(span_ns(i64::MAX, i64::MIN), i64::MIN);
}

#[test]
fn throttles_within_the_interval_then_fires_again() {
    let last = AtomicU64::new(0);
    let interval_ns = 50_000_000;
    assert!(check_and_record(&last, interval_ns, 0));
    assert!(!check_and_record(&last, interval_ns, 1_000));
    assert!(check_and_record(&last, interval_ns, 75_000_000));
    assert_eq!(last.load(Ordering::Relaxed), 75_000_000);
}

#[test]
fn the_first_event_is_not_recorded_as_never() {
    let last = AtomicU64::new(0);
    assert!(check_and_record(&last, 10, 0));
    assert_eq!(last.load(Ordering::Relaxed), 1);
    assert!(is_due(0, 5, 1_000));
    assert!(!is_due(5, 14, 10));
    assert!(is_due(5, 15, 10));
    // A clock that went back is as good as one that stood still.
    assert!(!is_due(15, 5, 10));
}

#[test]
fn bias_columns_follow_one_another() {
    assert_eq!(gyro_bias_col(0), 9);
    assert_eq!(accel_bias_col(0), 12);
    assert_eq!(gyro_bias_col(1), 15);
    assert_eq!(accel_bias_col(1), 18);
}

#[test]
fn a_variance_below_zero_takes_the_message_and_an_unusable_one_is_dropped() {
    assert_eq!(resolve_variance(s(-1.0), s(0.25)), s(0.25));
    assert_eq!(resolve_variance(s(0.5), s(0.25)), s(0.5));
    assert_eq!(resolve_variance(s(0.0), s(0.25)), s(0.0));
    assert_eq!(resolve_variance(s(-1.0), s(f64::NAN)), s(0.0));
    assert_eq!(resolve_variance(s(-1.0), s(-0.25)), s(0.0));
    assert_eq!(resolve_variance(s(f64::INFINITY), s(0.25)), s(0.0));
    assert_eq!(resolve_variance(s(f64::NAN), s(0.25)), s(0.0));
}

#[test]
fn numbers_compare_by_their_bits_as_they_do_as_floats() {
    let values = [
        f64::NEG_INFINITY,
        -2.5,
        -1e-310,
        -0.0,
        0.0,
        1e-310,
        1.0,
        1.5,
        f64::MAX,
        f64::INFINITY,
        f64::NAN,
        -f64::NAN,
    ];
    for a in values {
        assert_eq!(s(a).is_nan(), a.is_nan());
        assert_eq!(s(a).is_finite(), a.is_finite());
        assert_eq!(s(a).is_positive(), a > 0.0);
        assert_eq!(s(a).is_negative(), a < 0.0);
        assert_eq!(s(a).is_zero(), a == 0.0);
        assert_eq!(s(a).negated().bits, (-a).to_bits());
        for b in values {
            assert_eq!(s(a).lt(s(b)), a < b, "{a} {b}");
            assert_eq!(s(a).le(s(b)), a <= b, "{a} {b}");
            if !(a == b || (a.is_nan() && b.is_nan())) {
                assert_eq!(larger(s(a), s(b)).bits, a.max(b).to_bits(), "{a} {b}");
                assert_eq!(smaller(s(a), s(b)).bits, a.min(b).to_bits(), "{a} {b}");
            }
        }
    }
}

#[test]
fn a_key_is_trimmed_at_its_first_arrow() {
    let key = SourceKey::from_str(" odom -> base->link ").expect("a key");
    assert_eq!(key.parent_frame, "odom");
    assert_eq!(key.child_frame, "base->link");
    assert_eq!(key.to_text(), "odom->base->link");
}

#[test]
fn a_bad_key_is_quoted_in_its_message() {
    assert_eq!(
        SourceKey::from_str("od\"om").err().expect("no arrow"),
        "odometry source key \"od\\\"om\" must be written \"parent_frame->child_frame\""
    );
    assert_eq!(
        SourceKey::from_str(" ->base").err().expect("no parent"),
        "odometry source key \" ->base\" has an empty frame"
    );
    assert!(SourceKey::from_str("odom->\t").is_err());
}

#[test]
fn a_map_keeps_its_keys_in_order_and_once() {
    let mut map: OrderedMap<String, u8> = OrderedMap::new();
    for (key, value) in [("b", 1), ("a", 2), ("ab", 3), ("b", 4)] {
        map.insert(key.to_string(), value);
    }
    let entries: Vec<(&str, u8)> =
        map.entries.iter().map(|(key, value)| (key.as_str(), *value)).collect();
    assert_eq!(entries, vec![("a", 2), ("ab", 3), ("b", 4)]);
    assert_eq!(map.position(&"ab".to_string()), Some(1));
    assert_eq!(map.position(&"c".to_string()), None);
}

#[test]
fn the_default_config_is_the_documented_one() {
    let config = OdometryFusionConfig::default();
    assert_eq!(config.odom_frame, "odom");
    assert_eq!(config.base_frame, "base_link");
    assert_eq!(config.publish_rate, s(100.0));
    assert_eq!(config.replay_buffer_seconds, s(0.5));
    assert_eq!(config.mahalanobis_gate, s(5.0));
    assert_eq!(config.max_position_m, s(0.0));
    assert_eq!(config.gravity, s(9.80665));
    assert_eq!(config.imu_init_samples, 200);
    assert_eq!(config.imu_init_gyro_limit, s(0.05));
    assert_eq!(config.initial_stds.position, s(0.1));
    assert_eq!(config.initial_stds.velocity, s(0.1));
    assert_eq!(config.initial_stds.rotation, s(0.05));
    assert_eq!(config.initial_stds.bias, s(0.01));
}

#[test]
fn a_covariance_crosses_row_by_row() {
    let values: Vec<Scalar> = (0..36).map(|i| s(i as f64)).collect();
    let m = matrix_from_row_major(Some(values.clone())).expect("thirty-six values");
    assert_eq!(m.entry(1, 2), s(8.0));
    assert_eq!(matrix_to_row_major(&m), values);
    let zeros = matrix_from_row_major(None).expect("none is all zeros");
    assert!(zeros.entries.iter().all(|value| *value == s(0.0)));
    let error = matrix_from_row_major(Some(vec![s(0.0); 12])).err().expect("too few");
    assert_eq!(error, "covariance needs 36 row-major values, got 12");
    let flipped = m.transpose();
    assert_eq!(flipped.entry(2, 1), s(8.0));
}

#[test]
fn an_estimate_is_sent_with_its_stamp_split_and_its_transforms() {
    let mut covariance = Matrix6::zeros();
    covariance.entries[7] = s(0.5);
    let estimate = OdometryEstimate {
        timestamp_ns: 3_000_000_001,
        frame_id: "odom".to_string(),
        child_frame_id: "base_link".to_string(),
        pose_covariance: covariance,
        ..Default::default()
    };
    let message = to_message(&estimate);
    assert_eq!((message.stamp.sec, message.stamp.nsec), (3, 1));
    assert_eq!(message.pose_covariance[7], s(0.5));
    assert!(transforms(&estimate, false, true, "map").is_empty());
    let own = transforms(&estimate, true, false, "map");
    assert_eq!(own.len(), 1);
    assert_eq!((own[0].parent.as_str(), own[0].child.as_str()), ("odom", "base_link"));
    let both = transforms(&estimate, true, true, "map");
    assert_eq!(both.len(), 2);
    assert_eq!((both[1].parent.as_str(), both[1].child.as_str()), ("map", "odom"));
    assert_eq!(both[1].timestamp_ns, 3_000_000_001);
}

#[test]
fn a_transform_gives_its_pose() {
    let pose = Pose {
        translation: Vector3 { x: s(1.0), y: s(-2.0), z: s(3.5) },
        ..Pose::identity()
    };
    let transform = StampedTransform {
        parent: "odom".to_string(),
        child: "base".to_string(),
        timestamp_ns: 7,
        pose,
    };
    assert_eq!(transform_to_isometry(&transform), pose);
}

#[test]
fn firings_are_an_interval_apart() {
    let last = AtomicU64::new(0);
    let mut fired = Vec::new();
    for now_ns in (0..1_000).step_by(7) {
        if check_and_record(&last, 50, now_ns) {
            fired.push(last.load(Ordering::Relaxed));
        }
    }
    assert_eq!(fired[0], 1);
    assert_eq!(fired.len(), 18);
    assert!(fired.windows(2).all(|pair| pair[1] - pair[0] >= 50));
}
