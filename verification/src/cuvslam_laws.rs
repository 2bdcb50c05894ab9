//! What holds of the visual odometry as a whole.

use vstd::prelude::*;

use crate::cuvslam_config::CuvslamOdometryConfig;
use crate::cuvslam_model::{advanced, aligned, aligned_at, camera_at, camera_info_taken};
use crate::cuvslam_model::{cloud_given, config_fault, config_usable, covariance_holds};
use crate::cuvslam_model::{depth_model, depth_taken, emitted, frame_seen, frames_wanted};
use crate::cuvslam_model::{image_placed, image_put, image_taken, imu_refused, located_by};
use crate::cuvslam_model::{off_rig, or_identity, rebased, replied, requested, requested_at};
use crate::cuvslam_model::{rig_sought, rig_sought_among, scales_refused, sent, stamps_span};
use crate::cuvslam_model::{units_of, CuvslamCore, DepthChoice, FrameTrace, Step, TrackReply};
use crate::cuvslam_model::TrackerState;
use crate::depth_pixels::whole;
use crate::numerics::Numerics;
use crate::ordered_map::{holds, FrameKey, OrderedMap};
use crate::rig::{arranged, listed_by, placements, rig_of, Placement};
use crate::scalar::Scalar;
use crate::tracker::{CuvPose, Mode};
use crate::types::{CameraModel, ImageFrame, Matrix6, OdometryEstimate, PointCloud, Pose};
use crate::types::TfLookup;

verus! {

/// Law: a configuration is refused if and only if it is not usable in any mode.
pub proof fn law_faulty_is_not_usable(config: CuvslamOdometryConfig)
    ensures
        (exists|mode: Mode| #[trigger] config_usable(config, mode)) <==> !(exists|
            fault: Seq<char>,
        | #[trigger] config_fault(config, fault)),
{
    reveal_strlit("stereo");
    reveal_strlit("mono");
    reveal_strlit("rgbd");
    let name = config.camera_mode@;
    let scales = config.frame_id_to_depth_units_per_meter.entries@.len();
    assert("mono"@[0] != "rgbd"@[0]);
    if forall|mode: Mode| name != #[trigger] mode.name() {
        assert(config_fault(config, Mode::unknown(name)));
    } else {
        let mode = choose|mode: Mode| name == #[trigger] mode.name();
        if config.enable_imu && name != Mode::Stereo.name() {
            assert(config_fault(config, imu_refused(name)));
        } else if name == Mode::Rgbd.name() && scales != 1 {
            assert(config_fault(config, scales_refused(scales)));
        } else {
            assert(config_usable(config, mode));
        }
    }
}

/// Law: the rig is all or nothing. Looking for one that is not there yet either places every
/// camera that it is to have, or none.
pub proof fn law_rig_is_all_or_nothing<N: Numerics, T: TfLookup>(
    before: CuvslamCore<N>,
    tf: &T,
    after: CuvslamCore<N>,
)
    requires
        before.cameras@.len() == 0,
        rig_sought(before, tf, after),
    ensures
        after.cameras@.len() == 0 || after.cameras@.len() == frames_wanted(before).len(),
{
    if after != before {
        let discovered = before.config.camera_frames@.len() == 0;
        let frames = frames_wanted(before);
        assert(rig_sought_among(before, tf, frames, discovered, after));
        let rig = choose|rig: Option<Seq<Placement>>|
            {
                &&& #[trigger] rig_of(
                    &before.numerics,
                    tf,
                    before.config.rig_frame_name(),
                    before.camera_info_by_frame,
                    frames,
                    discovered,
                    rig,
                )
                &&& match rig {
                    Some(placed) => placements(after.cameras@) == placed,
                    None => after == before,
                }
            };
        let listed = choose|listed: Seq<Placement>|
            {
                &&& #[trigger] listed_by(
                    tf,
                    before.config.rig_frame_name(),
                    before.camera_info_by_frame,
                    frames,
                    listed,
                )
                &&& match rig {
                    Some(r) => listed.len() == frames.len() && arranged(
                        &before.numerics,
                        discovered,
                        listed,
                        r,
                    ),
                    None => true,
                }
            };
        assert(placements(after.cameras@).len() == after.cameras@.len());
    }
}

/// Law: the rig is fixed once there is a tracker.
pub proof fn law_rig_is_fixed_with_the_tracker<N: Numerics, T: TfLookup>(
    before: CuvslamCore<N>,
    info: CameraModel,
    tf: &T,
    after: CuvslamCore<N>,
)
    requires
        before.tracker.exists_now(),
        camera_info_taken(before, info, tf, after),
    ensures
        after == before,
{
}

/// Law: what goes to the tracker is in order. The frame set is strictly newer than the last one
/// and its stamps lie within the skew limit, and no IMU reading that goes with it is newer.
pub proof fn law_frame_sets_are_in_order<N: Numerics, T: TfLookup>(
    before: CuvslamCore<N>,
    tf: &T,
    after: CuvslamCore<N>,
    step: Step,
)
    requires
        requested(before, tf, after, step),
        step is Track,
    ensures
        after.tracker is Tracking,
        before.last_ts_ns matches Some(last) ==> last < after.tracker->newest_ns,
        exists|oldest: i64| #[trigger]
            stamps_span(before.cameras@, oldest, after.tracker->newest_ns)
                && after.tracker->newest_ns - oldest <= before.max_skew_ns,
        forall|i: int|
            0 <= i < (step->Track_0).imu@.len() ==> (#[trigger] (
            step->Track_0).imu@[i]).timestamp_ns <= after.tracker->newest_ns,
        forall|i: int|
            0 <= i < (step->Track_0).images@.len() ==> (#[trigger] (
            step->Track_0).images@[i]).timestamp_ns == after.tracker->newest_ns,
{
    let (oldest, newest) = choose|oldest: i64, newest: i64| #[trigger]
        stamps_span(before.cameras@, oldest, newest) && requested_at(
            before,
            tf,
            oldest,
            newest,
            after,
            step,
        );
    if before.mode is Rgbd {
        let (mid, choice) = choose|mid: CuvslamCore<N>, choice: Option<DepthChoice>| #[trigger]
            aligned(before, tf, mid, choice) && if choice is Some {
                sent(mid, newest, choice, after, step)
            } else {
                step is Idle && after == mid
            };
        assert(sent(mid, newest, choice, after, step));
    }
    assert(after.tracker == (TrackerState::Tracking { newest_ns: newest }));
    assert(stamps_span(before.cameras@, oldest, after.tracker->newest_ns));
}

/// Law: nothing is given out unless the tracker has a pose, and then something is.
pub proof fn law_nothing_is_given_out_while_lost<N: Numerics>(
    before: CuvslamCore<N>,
    newest_ns: i64,
    reply: TrackReply,
    after: CuvslamCore<N>,
    r: Option<OdometryEstimate>,
)
    requires
        replied(before, newest_ns, reply, after, r),
    ensures
        r is Some <==> (reply matches TrackReply::Estimate { world_from_rig, .. }
            && world_from_rig is Some),
{
}

/// Law: a held frame keeps the output. Its motion is dropped: what is given out is where the
/// output was before.
pub proof fn law_held_frame_keeps_the_pose<N: Numerics>(
    seen: CuvslamCore<N>,
    timestamp_ns: i64,
    cuv: CuvPose,
    rig_covariance: Matrix6,
    t: FrameTrace,
    after: CuvslamCore<N>,
    out: OdometryEstimate,
)
    requires
        located_by(seen, timestamp_ns, cuv, rig_covariance, t, after),
        covariance_holds(seen, after.covariance, t.std) || t.too_fast,
        emitted(after, timestamp_ns, out),
    ensures
        out.pose == or_identity(seen.world_from_base),
{
}

/// Law: a depth image smaller than its header claims changes nothing and gives nothing.
pub proof fn law_short_depth_is_dropped<N: Numerics, T: TfLookup>(
    before: CuvslamCore<N>,
    img: ImageFrame,
    tf: &T,
    after: CuvslamCore<N>,
    cloud: Option<PointCloud>,
    step: Step,
)
    requires
        !whole(img),
        depth_taken(before, img, tf, after, cloud, step),
    ensures
        after == before,
        cloud is None,
        step is Idle,
{
}

/// Law: recovery continues from the held pose. After a held frame, the next one that is taken
/// moves the output by its own motion since the held frame's raw pose, wherever the tracker had
/// jumped to.
pub proof fn law_recovery_starts_from_the_held_pose<N: Numerics>(
    seen: CuvslamCore<N>,
    held_ns: i64,
    held_cuv: CuvPose,
    held_covariance: Matrix6,
    h: FrameTrace,
    held: CuvslamCore<N>,
    newest_ns: i64,
    next_ns: i64,
    next_cuv: CuvPose,
    next_covariance: Matrix6,
    t: FrameTrace,
    next: CuvslamCore<N>,
)
    requires
        located_by(seen, held_ns, held_cuv, held_covariance, h, held),
        covariance_holds(seen, held.covariance, h.std) || h.too_fast,
        located_by(
            frame_seen(held, newest_ns),
            next_ns,
            next_cuv,
            next_covariance,
            t,
            next,
        ),
        !covariance_holds(frame_seen(held, newest_ns), next.covariance, t.std),
        !t.too_fast,
    ensures
        exists|onto: Pose|
            {
                &&& #[trigger] rebased(
                    &seen.numerics,
                    or_identity(seen.world_from_base),
                    h.raw,
                    onto,
                )
                &&& next.world_from_base is Some
                &&& call_ensures(
                    N::compose,
                    (&seen.numerics, &onto, &t.raw),
                    next.world_from_base->0,
                )
            },
{
    let onto = held.rebase->0;
    assert(rebased(&seen.numerics, or_identity(seen.world_from_base), h.raw, onto));
}

/// Law: a depth image whose frame has no entry in the table of scales gives no cloud.
pub proof fn law_unlisted_depth_gives_no_cloud<N: Numerics>(
    core: CuvslamCore<N>,
    depth: ImageFrame,
    r: Option<PointCloud>,
)
    requires
        !holds(
            core.config.frame_id_to_depth_units_per_meter.entries@,
            (depth.frame_id@, Seq::empty()),
        ),
        cloud_given(core, depth, r),
    ensures
        r is None,
{
    let table = core.config.frame_id_to_depth_units_per_meter;
    let (info, units) = choose|info: Option<CameraModel>, units: Option<Scalar>|
        {
            &&& #[trigger] depth_model(core, depth, info)
            &&& #[trigger] units_of(table, depth.frame_id@, units)
            &&& match (info, units) {
                (Some(model), Some(units_per_meter)) => r is Some,
                _ => r is None,
            }
        };
    lemma_unlisted_has_no_units(table, depth.frame_id@, units);
}

/// A frame without an entry has no scale.
pub proof fn lemma_unlisted_has_no_units(
    table: OrderedMap<String, Scalar>,
    frame: Seq<char>,
    units: Option<Scalar>,
)
    requires
        !holds(table.entries@, (frame, Seq::empty())),
        units_of(table, frame, units),
    ensures
        units is None,
{
    if units is Some {
        let i = choose|i: int|
            {
                &&& 0 <= i < table.entries@.len()
                &&& (#[trigger] table.entries@[i]).0@ == frame
                &&& table.entries@[i].1 == units->0
            };
        assert(table.entries@[i].0.parts() == (frame, Seq::<char>::empty()));
    }
}

/// The core holds no depth from a frame that has an entry in the table of scales.
pub open spec fn depth_unlisted<N: Numerics>(core: CuvslamCore<N>) -> bool {
    core.depth matches Some(depth) ==> !holds(
        core.config.frame_id_to_depth_units_per_meter.entries@,
        (depth.frame_id@, Seq::empty()),
    )
}

/// The step hands no depth to the tracker, and in rgbd, which cannot do without, no frame set.
pub open spec fn without_depth(mode: Mode, step: Step) -> bool {
    step matches Step::Track(request) ==> !(mode is Rgbd) && request.depths@.len() == 0
}

/// Law: depth from a frame without an entry in the table of scales never reaches the tracker, not
/// even from the rig camera's own frame.
pub proof fn law_unlisted_depth_is_not_requested<N: Numerics, T: TfLookup>(
    before: CuvslamCore<N>,
    tf: &T,
    after: CuvslamCore<N>,
    step: Step,
)
    requires
        depth_unlisted(before),
        before.frame_set_complete(),
        requested(before, tf, after, step),
    ensures
        without_depth(before.mode, step),
{
    let (oldest, newest) = choose|oldest: i64, newest: i64| #[trigger]
        stamps_span(before.cameras@, oldest, newest) && requested_at(
            before,
            tf,
            oldest,
            newest,
            after,
            step,
        );
    if step is Track && before.mode is Rgbd {
        let (mid, choice) = choose|mid: CuvslamCore<N>, choice: Option<DepthChoice>| #[trigger]
            aligned(before, tf, mid, choice) && if choice is Some {
                sent(mid, newest, choice, after, step)
            } else {
                step is Idle && after == mid
            };
        let table = before.config.frame_id_to_depth_units_per_meter;
        let frame = (before.depth->0).frame_id@;
        let units = choose|units: Option<Scalar>|
            {
                &&& #[trigger] units_of(table, frame, units)
                &&& match units {
                    None => mid == before && choice is None,
                    Some(per_meter) => aligned_at(before, tf, per_meter, mid, choice),
                }
            };
        lemma_unlisted_has_no_units(table, frame, units);
    }
}

/// Law: see [`law_unlisted_depth_is_not_requested`]; so it is whatever arrives next.
pub proof fn law_unlisted_depth_reaches_no_tracker<N: Numerics, T: TfLookup>(
    before: CuvslamCore<N>,
    tf: &T,
    after: CuvslamCore<N>,
    step: Step,
)
    requires
        depth_unlisted(before),
        advanced(before, tf, after, step),
    ensures
        without_depth(before.mode, step),
{
    if before.frame_set_complete() && step is Track {
        law_unlisted_depth_is_not_requested(before, tf, after, step);
    }
}

/// Law: an image does not bring depth from a frame without an entry in the table of scales to the
/// tracker.
pub proof fn law_image_brings_no_unlisted_depth<N: Numerics, T: TfLookup>(
    before: CuvslamCore<N>,
    img: ImageFrame,
    tf: &T,
    after: CuvslamCore<N>,
    step: Step,
)
    requires
        depth_unlisted(before),
        image_taken(before, img, tf, after, step),
    ensures
        without_depth(before.mode, step),
{
    let sought = choose|sought: CuvslamCore<N>| #[trigger]
        rig_sought(before, tf, sought) && image_placed(sought, img, tf, after, step);
    if !off_rig(sought.cameras@, img.frame_id@) {
        let (index, put) = choose|index: int, put: CuvslamCore<N>|
            {
                &&& camera_at(sought.cameras@, img.frame_id@, index)
                &&& #[trigger] image_put(sought, index, img, put)
                &&& advanced(put, tf, after, step)
            };
        law_unlisted_depth_reaches_no_tracker(put, tf, after, step);
    }
}

/// Law: a depth image from a frame without an entry in the table of scales gives nothing, neither
/// a cloud nor a frame set with its depth.
pub proof fn law_unlisted_depth_image_gives_nothing<N: Numerics, T: TfLookup>(
    before: CuvslamCore<N>,
    img: ImageFrame,
    tf: &T,
    after: CuvslamCore<N>,
    cloud: Option<PointCloud>,
    step: Step,
)
    requires
        !holds(
            before.config.frame_id_to_depth_units_per_meter.entries@,
            (img.frame_id@, Seq::empty()),
        ),
        depth_taken(before, img, tf, after, cloud, step),
    ensures
        cloud is None,
        without_depth(before.mode, step),
{
    if whole(img) {
        law_unlisted_depth_gives_no_cloud(before, img, cloud);
        law_unlisted_depth_reaches_no_tracker(
            CuvslamCore { depth: Some(img), ..before },
            tf,
            after,
            step,
        );
    }
}

} // verus!
