//! What holds of the visual odometry over runs of arrivals and frames.

use vstd::prelude::*;

use crate::cuvslam_laws::law_frame_sets_are_in_order;
use crate::cuvslam_model::{advanced, aligned, build_failed, built, camera_at, camera_info_taken};
use crate::cuvslam_model::{covariance_holds, depth_taken, emitted, frame_seen, frame_set_cleared};
use crate::cuvslam_model::{frames_wanted, image_placed, image_put, image_taken, imu_info_taken};
use crate::cuvslam_model::{imu_planned, imu_queued, located_by, lost, mount_of, off_rig};
use crate::cuvslam_model::{or_identity, planned_on, rebased, replied, requested, requested_at};
use crate::cuvslam_model::{rig_sought, sent, stamps_span, tracker_sought, CuvslamCore};
use crate::cuvslam_model::{CuvslamCounters, DepthChoice, FrameTrace, ImuCalibration, RigMount};
use crate::cuvslam_model::{Step, TrackReply, TrackerConfig, TrackerPlan, TrackerState};
use crate::depth_pixels::whole;
use crate::numerics::Numerics;
use crate::ordered_map::FrameKey;
use crate::rig::{arranged, cameras_wanted, info_known, listed_by, not_placed, placed_at};
use crate::rig::{placements, rig_of, CameraInfos, Placement, RigCamera};
use crate::stamp::counted;
use crate::tracker::CuvPose;
use crate::types::{looked_up, placed_in, CameraModel, ImageFrame, ImuNoiseModel, ImuSample};
use crate::types::{Matrix6, OdometryEstimate, PointCloud, Pose, TfLookup};

verus! {

/// What the output, the gates and the order of the stamps go by is the same.
pub open spec fn undisturbed<N: Numerics>(a: CuvslamCore<N>, b: CuvslamCore<N>) -> bool {
    &&& a.numerics == b.numerics
    &&& a.config == b.config
    &&& a.mode == b.mode
    &&& a.max_skew_ns == b.max_skew_ns
    &&& a.last_ts_ns == b.last_ts_ns
    &&& a.world_from_base == b.world_from_base
    &&& a.rebase == b.rebase
    &&& a.covariance == b.covariance
    &&& a.previous_raw == b.previous_raw
    &&& a.previous_raw_ns == b.previous_raw_ns
    &&& a.was_tracking == b.was_tracking
}

/// The rig, if there is one, is the same.
pub open spec fn rig_stays<N: Numerics>(a: CuvslamCore<N>, b: CuvslamCore<N>) -> bool {
    a.cameras@.len() > 0 ==> placements(b.cameras@) == placements(a.cameras@)
}

/// The stamps run between one pair of bounds only.
pub proof fn lemma_one_span(
    cameras: Seq<RigCamera>,
    oldest: i64,
    newest: i64,
    least: i64,
    most: i64,
)
    requires
        stamps_span(cameras, oldest, newest),
        stamps_span(cameras, least, most),
    ensures
        oldest == least,
        newest == most,
{
    let i = choose|i: int|
        0 <= i < cameras.len() && ((#[trigger] cameras[i]).image->0).timestamp_ns == oldest;
    let j = choose|i: int|
        0 <= i < cameras.len() && ((#[trigger] cameras[i]).image->0).timestamp_ns == newest;
    let k = choose|i: int|
        0 <= i < cameras.len() && ((#[trigger] cameras[i]).image->0).timestamp_ns == least;
    let l = choose|i: int|
        0 <= i < cameras.len() && ((#[trigger] cameras[i]).image->0).timestamp_ns == most;
    assert(least <= (cameras[i].image->0).timestamp_ns);
    assert((cameras[j].image->0).timestamp_ns <= most);
    assert(oldest <= (cameras[k].image->0).timestamp_ns);
    assert((cameras[l].image->0).timestamp_ns <= newest);
}

/// What is asked of the tracker is what the stamps call for.
proof fn lemma_requested_at<N: Numerics, T: TfLookup>(
    before: CuvslamCore<N>,
    tf: &T,
    oldest: i64,
    newest: i64,
    after: CuvslamCore<N>,
    step: Step,
)
    requires
        requested(before, tf, after, step),
        stamps_span(before.cameras@, oldest, newest),
    ensures
        requested_at(before, tf, oldest, newest, after, step),
{
    let (least, most) = choose|least: i64, most: i64| #[trigger]
        stamps_span(before.cameras@, least, most) && requested_at(
            before,
            tf,
            least,
            most,
            after,
            step,
        );
    lemma_one_span(before.cameras@, oldest, newest, least, most);
}

/// Law: unless a spread above zero is configured, the stamps of a frame set may be a millisecond
/// apart.
pub proof fn law_no_spread_keeps_a_millisecond<N: Numerics>(core: CuvslamCore<N>)
    requires
        core.well_formed(),
        !core.config.max_skew_ms.positive(),
    ensures
        core.max_skew_ns == 1_000_000,
{
}

/// Law: a frame set whose stamps are too far apart is kept and counted. The next image of one of
/// its cameras can complete it.
pub proof fn law_skewed_set_is_kept<N: Numerics, T: TfLookup>(
    before: CuvslamCore<N>,
    tf: &T,
    oldest: i64,
    newest: i64,
    after: CuvslamCore<N>,
    step: Step,
)
    requires
        requested(before, tf, after, step),
        stamps_span(before.cameras@, oldest, newest),
        newest - oldest > before.max_skew_ns,
    ensures
        step is Idle,
        after == (CuvslamCore {
            counters: CuvslamCounters {
                skew_rejects: counted(before.counters.skew_rejects),
                ..before.counters
            },
            ..before
        }),
{
    lemma_requested_at(before, tf, oldest, newest, after, step);
}

/// Law: a frame set that is not strictly newer than the last one is dropped, images and depth.
pub proof fn law_stale_set_is_dropped<N: Numerics, T: TfLookup>(
    before: CuvslamCore<N>,
    tf: &T,
    oldest: i64,
    newest: i64,
    after: CuvslamCore<N>,
    step: Step,
)
    requires
        requested(before, tf, after, step),
        stamps_span(before.cameras@, oldest, newest),
        newest - oldest <= before.max_skew_ns,
        before.last_ts_ns matches Some(last) && newest <= last,
    ensures
        step is Idle,
        frame_set_cleared(before, after),
        after.counters == before.counters,
{
    lemma_requested_at(before, tf, oldest, newest, after, step);
}

/// Law: a frame set within the skew limit, the limit itself included, that is newer than the last
/// one goes to the tracker, once depth that the mode needs is aligned.
pub proof fn law_fresh_set_is_tracked<N: Numerics, T: TfLookup>(
    before: CuvslamCore<N>,
    tf: &T,
    oldest: i64,
    newest: i64,
    after: CuvslamCore<N>,
    step: Step,
)
    requires
        requested(before, tf, after, step),
        stamps_span(before.cameras@, oldest, newest),
        newest - oldest <= before.max_skew_ns,
        before.last_ts_ns matches Some(last) ==> newest > last,
    ensures
        after.counters.skew_rejects == before.counters.skew_rejects,
        if before.mode is Rgbd {
            exists|mid: CuvslamCore<N>, choice: Option<DepthChoice>| #[trigger]
                aligned(before, tf, mid, choice) && (step is Track <==> choice is Some)
        } else {
            step is Track
        },
        step is Track ==> after.tracker == (TrackerState::Tracking { newest_ns: newest }),
{
    lemma_requested_at(before, tf, oldest, newest, after, step);
}

/// Aligning depth leaves all else alone.
proof fn lemma_aligning_is_quiet<N: Numerics, T: TfLookup>(
    before: CuvslamCore<N>,
    tf: &T,
    after: CuvslamCore<N>,
    choice: Option<DepthChoice>,
)
    requires
        aligned(before, tf, after, choice),
    ensures
        after == (CuvslamCore {
            camera_from_depth: after.camera_from_depth,
            counters: after.counters,
            ..before
        }),
        before.camera_from_depth is Some ==> after.camera_from_depth == before.camera_from_depth,
{
}

/// Asking for tracking leaves the rig and all that the track goes by alone.
pub proof fn lemma_request_is_quiet<N: Numerics, T: TfLookup>(
    before: CuvslamCore<N>,
    tf: &T,
    after: CuvslamCore<N>,
    step: Step,
)
    requires
        requested(before, tf, after, step),
    ensures
        undisturbed(before, after),
        after.mount == before.mount,
        placements(after.cameras@) == placements(before.cameras@),
        !(step is Build),
{
    let (oldest, newest) = choose|oldest: i64, newest: i64| #[trigger]
        stamps_span(before.cameras@, oldest, newest) && requested_at(
            before,
            tf,
            oldest,
            newest,
            after,
            step,
        );
    if newest - oldest <= before.max_skew_ns && !(before.last_ts_ns matches Some(last) && newest
        <= last) && before.mode is Rgbd {
        let (mid, choice) = choose|mid: CuvslamCore<N>, choice: Option<DepthChoice>| #[trigger]
            aligned(before, tf, mid, choice) && if choice is Some {
                sent(mid, newest, choice, after, step)
            } else {
                step is Idle && after == mid
            };
        lemma_aligning_is_quiet(before, tf, mid, choice);
    }
}

/// Whatever an arrival leads to leaves the rig and all that the track goes by alone.
proof fn lemma_advance_is_quiet<N: Numerics, T: TfLookup>(
    before: CuvslamCore<N>,
    tf: &T,
    after: CuvslamCore<N>,
    step: Step,
)
    requires
        advanced(before, tf, after, step),
    ensures
        undisturbed(before, after),
        !(before.tracker is Absent) ==> after.mount == before.mount,
        placements(after.cameras@) == placements(before.cameras@),
{
    if before.frame_set_complete() && !(before.tracker is Unbuildable) && !(
    before.tracker is Absent) {
        lemma_request_is_quiet(before, tf, after, step);
    }
}

/// Law: an image leaves the output, the gates and the last stamp alone, and a rig that is there.
pub proof fn law_image_leaves_the_track_alone<N: Numerics, T: TfLookup>(
    before: CuvslamCore<N>,
    img: ImageFrame,
    tf: &T,
    after: CuvslamCore<N>,
    step: Step,
)
    requires
        image_taken(before, img, tf, after, step),
    ensures
        undisturbed(before, after),
        rig_stays(before, after),
        !(before.tracker is Absent) ==> after.mount == before.mount,
{
    let sought = choose|sought: CuvslamCore<N>| #[trigger]
        rig_sought(before, tf, sought) && image_placed(sought, img, tf, after, step);
    if !off_rig(sought.cameras@, img.frame_id@) {
        let (index, put) = choose|index: int, put: CuvslamCore<N>|
            {
                &&& camera_at(sought.cameras@, img.frame_id@, index)
                &&& #[trigger] image_put(sought, index, img, put)
                &&& advanced(put, tf, after, step)
            };
        assert(placements(put.cameras@) =~= placements(sought.cameras@));
        lemma_advance_is_quiet(put, tf, after, step);
    }
}

/// Law: a depth image leaves the output, the gates, the last stamp and the rig alone.
pub proof fn law_depth_leaves_the_track_alone<N: Numerics, T: TfLookup>(
    before: CuvslamCore<N>,
    img: ImageFrame,
    tf: &T,
    after: CuvslamCore<N>,
    cloud: Option<PointCloud>,
    step: Step,
)
    requires
        depth_taken(before, img, tf, after, cloud, step),
    ensures
        undisturbed(before, after),
        placements(after.cameras@) == placements(before.cameras@),
        !(before.tracker is Absent) ==> after.mount == before.mount,
{
    if whole(img) {
        lemma_advance_is_quiet(CuvslamCore { depth: Some(img), ..before }, tf, after, step);
    }
}

/// Law: an IMU sample leaves the output, the gates, the last stamp and the rig alone.
pub proof fn law_imu_leaves_the_track_alone<N: Numerics>(
    before: CuvslamCore<N>,
    msg: ImuSample,
    after: CuvslamCore<N>,
)
    requires
        imu_queued(before, msg, after),
    ensures
        undisturbed(before, after),
        after.cameras == before.cameras,
        after.mount == before.mount,
        after.tracker == before.tracker,
{
}

/// Law: what is known of a camera leaves the output, the gates, the last stamp and a rig that is
/// there alone, and makes no tracker.
pub proof fn law_camera_info_leaves_the_track_alone<N: Numerics, T: TfLookup>(
    before: CuvslamCore<N>,
    info: CameraModel,
    tf: &T,
    after: CuvslamCore<N>,
)
    requires
        camera_info_taken(before, info, tf, after),
    ensures
        undisturbed(before, after),
        rig_stays(before, after),
        after.mount == before.mount,
        after.tracker == before.tracker,
{
}

/// Law: the IMU's noise model leaves the output, the gates, the last stamp and a rig that is there
/// alone, and makes no tracker.
pub proof fn law_imu_info_leaves_the_track_alone<N: Numerics, T: TfLookup>(
    before: CuvslamCore<N>,
    info: ImuNoiseModel,
    tf: &T,
    after: CuvslamCore<N>,
)
    requires
        imu_info_taken(before, info, tf, after),
    ensures
        undisturbed(before, after),
        rig_stays(before, after),
        after.mount == before.mount,
        after.tracker == before.tracker,
{
}

/// Law: once both backends have failed no image and no depth asks for a tracker or for tracking
/// again, and the tracker stays unbuildable.
pub proof fn law_unbuildable_is_for_ever<N: Numerics, T: TfLookup>(
    before: CuvslamCore<N>,
    img: ImageFrame,
    tf: &T,
    after: CuvslamCore<N>,
    cloud: Option<PointCloud>,
    step: Step,
)
    requires
        before.tracker is Unbuildable,
        image_taken(before, img, tf, after, step) || depth_taken(
            before,
            img,
            tf,
            after,
            cloud,
            step,
        ),
    ensures
        after.tracker is Unbuildable,
        step is Idle,
{
    if image_taken(before, img, tf, after, step) {
        let sought = choose|sought: CuvslamCore<N>| #[trigger]
            rig_sought(before, tf, sought) && image_placed(sought, img, tf, after, step);
        assert(sought.tracker is Unbuildable);
        if !off_rig(sought.cameras@, img.frame_id@) {
            let (index, put) = choose|index: int, put: CuvslamCore<N>|
                {
                    &&& camera_at(sought.cameras@, img.frame_id@, index)
                    &&& #[trigger] image_put(sought, index, img, put)
                    &&& advanced(put, tf, after, step)
                };
            assert(put.tracker is Unbuildable);
        }
    }
}

/// Law: a tracker is asked for if and only if the rig is placed against the body and, where the
/// tracker uses an IMU, that is known and placed on the rig. No frame set needs to wait for it.
pub proof fn law_tracker_is_asked_for_once_placed<N: Numerics, T: TfLookup>(
    before: CuvslamCore<N>,
    tf: &T,
    after: CuvslamCore<N>,
    step: Step,
)
    requires
        answers_repeat(tf),
        before.tracker is Absent,
        tracker_sought(before, tf, after, step),
    ensures
        step is Build <==> {
            &&& placed_in(tf, before.config.output_frame_id@, before.config.rig_frame_name())
            &&& before.config.enable_imu ==> (before.imu_model matches Some(model) && placed_in(
                tf,
                before.config.rig_frame_name(),
                model.frame_id@,
            ))
        },
        !(step is Track),
{
    let (body, rig) = (before.config.output_frame_id@, before.config.rig_frame_name());
    let pose = choose|pose: Option<Pose>|
        {
            &&& #[trigger] looked_up(tf, body, rig, pose)
            &&& match pose {
                None => after == before && step is Idle,
                Some(base_from_rig) => exists|m: RigMount| #[trigger]
                    mount_of(&before.numerics, base_from_rig, m) && planned_on(
                        CuvslamCore { mount: Some(m), ..before },
                        tf,
                        after,
                        step,
                    ),
            }
        };
    match pose {
        None => {
            if placed_in(tf, body, rig) {
                let other = choose|p: Pose| #[trigger] looked_up(tf, body, rig, Some(p));
                assert(None::<Pose> == Some(other));
            }
        },
        Some(base_from_rig) => {
            assert(placed_in(tf, body, rig));
            let m = choose|m: RigMount| #[trigger]
                mount_of(&before.numerics, base_from_rig, m) && planned_on(
                    CuvslamCore { mount: Some(m), ..before },
                    tf,
                    after,
                    step,
                );
            let mounted = CuvslamCore { mount: Some(m), ..before };
            let imu = choose|imu: Option<Option<ImuCalibration>>|
                {
                    &&& #[trigger] imu_planned(mounted, tf, imu)
                    &&& match imu {
                        None => after == mounted && step is Idle,
                        Some(calibration) => step is Build,
                    }
                };
            if before.config.enable_imu && before.imu_model is Some {
                let model = before.imu_model->0;
                let place = choose|place: Option<Pose>|
                    {
                        &&& #[trigger] looked_up(tf, rig, model.frame_id@, place)
                        &&& place is None <==> imu is None
                    };
                if place is None && placed_in(tf, rig, model.frame_id@) {
                    let other = choose|p: Pose| #[trigger]
                        looked_up(tf, rig, model.frame_id@, Some(p));
                    assert(None::<Pose> == Some(other));
                }
                if place is Some {
                    assert(looked_up(tf, rig, model.frame_id@, Some(place->0)));
                }
            }
        },
    }
}

/// What a try of a backend left: the core, and what is asked for next.
pub struct Try<N: Numerics> {
    pub core: CuvslamCore<N>,
    pub step: Step,
}

/// Law: each backend is tried once. The first plan has the configured one; if it fails, there is
/// one more with the other backend and all else the same; there is a tracker as soon as a try
/// succeeds, and if both fail there is none, and looking for one does not ask for it again.
pub proof fn law_each_backend_is_tried_once<N: Numerics, T: TfLookup>(
    before: CuvslamCore<N>,
    tf: &T,
    asked: CuvslamCore<N>,
    plan: TrackerPlan,
    first_made: Try<N>,
    first_failed: Try<N>,
    second_made: Try<N>,
    second_failed: Try<N>,
    later: Try<N>,
)
    requires
        before.tracker is Absent,
        tracker_sought(before, tf, asked, Step::Build(plan)),
        built(asked, tf, first_made.core, first_made.step),
        build_failed(asked, plan, first_failed.core, first_failed.step),
        built(first_failed.core, tf, second_made.core, second_made.step),
        build_failed(
            first_failed.core,
            first_failed.step->Build_0,
            second_failed.core,
            second_failed.step,
        ),
        tracker_sought(second_failed.core, tf, later.core, later.step),
    ensures
        plan.config.use_gpu == before.config.use_gpu,
        first_made.core.tracker.exists_now(),
        first_failed.step == Step::Build(
            TrackerPlan {
                config: TrackerConfig { use_gpu: !plan.config.use_gpu, ..plan.config },
                ..plan
            },
        ),
        !first_failed.core.tracker.exists_now(),
        second_made.core.tracker.exists_now(),
        second_failed.core.tracker is Unbuildable,
        second_failed.step is Idle,
        later.core == second_failed.core,
        later.step is Idle,
{
    lemma_built_has_a_tracker(asked, tf, first_made.core, first_made.step);
    lemma_built_has_a_tracker(first_failed.core, tf, second_made.core, second_made.step);
}

/// There is a tracker once it has been made.
proof fn lemma_built_has_a_tracker<N: Numerics, T: TfLookup>(
    before: CuvslamCore<N>,
    tf: &T,
    after: CuvslamCore<N>,
    step: Step,
)
    requires
        built(before, tf, after, step),
    ensures
        after.tracker.exists_now(),
{
    let ready = CuvslamCore { tracker: TrackerState::Ready, ..before };
    if ready.frame_set_complete() {
        let (oldest, newest) = choose|oldest: i64, newest: i64| #[trigger]
            stamps_span(ready.cameras@, oldest, newest) && requested_at(
                ready,
                tf,
                oldest,
                newest,
                after,
                step,
            );
        if newest - oldest <= ready.max_skew_ns && !(ready.last_ts_ns matches Some(last) && newest
            <= last) && ready.mode is Rgbd {
            let (mid, choice) = choose|mid: CuvslamCore<N>, choice: Option<DepthChoice>| #[trigger]
                aligned(ready, tf, mid, choice) && if choice is Some {
                    sent(mid, newest, choice, after, step)
                } else {
                    step is Idle && after == mid
                };
            lemma_aligning_is_quiet(ready, tf, mid, choice);
        }
    }
}

/// A frame set that was tracked: the core before and after it was asked for, when the reply came,
/// and after it.
pub struct TrackedSet<N: Numerics> {
    pub before: CuvslamCore<N>,
    pub asked: CuvslamCore<N>,
    pub step: Step,
    pub answered: CuvslamCore<N>,
    pub reply: TrackReply,
    pub after: CuvslamCore<N>,
    pub out: Option<OdometryEstimate>,
}

/// The frame set was asked for and answered. IMU samples may have come in between.
pub open spec fn tracked_set<N: Numerics, T: TfLookup>(tf: &T, s: TrackedSet<N>) -> bool {
    &&& requested(s.before, tf, s.asked, s.step)
    &&& s.step is Track
    &&& s.answered.tracker == s.asked.tracker
    &&& replied(s.answered, s.answered.tracker->newest_ns, s.reply, s.after, s.out)
}

/// The set with this number was asked for and answered, and after the one before it nothing else
/// was.
pub open spec fn tracked_next<N: Numerics, T: TfLookup>(
    tfs: Seq<T>,
    sets: Seq<TrackedSet<N>>,
    k: int,
) -> bool {
    &&& tracked_set(&tfs[k], sets[k])
    &&& k > 0 ==> sets[k].before.last_ts_ns == sets[k - 1].after.last_ts_ns
}

/// The reply makes the set's stamp the last one.
proof fn lemma_reply_sets_the_stamp<N: Numerics, T: TfLookup>(tf: &T, s: TrackedSet<N>)
    requires
        tracked_set(tf, s),
    ensures
        s.after.last_ts_ns == Some(s.answered.tracker->newest_ns),
        s.asked.tracker->newest_ns == s.answered.tracker->newest_ns,
{
}

/// A set that is tracked is newer than the last one.
proof fn lemma_tracked_set_is_newer<N: Numerics, T: TfLookup>(tf: &T, s: TrackedSet<N>)
    requires
        tracked_set(tf, s),
    ensures
        s.before.last_ts_ns matches Some(last) ==> last < s.asked.tracker->newest_ns,
{
    law_frame_sets_are_in_order(s.before, tf, s.asked, s.step);
}

/// Law: the stamps given to the tracker strictly increase over any run of frame sets, whatever
/// arrives between them.
pub proof fn law_tracked_stamps_increase<N: Numerics, T: TfLookup>(
    tfs: Seq<T>,
    sets: Seq<TrackedSet<N>>,
    i: int,
    j: int,
)
    requires
        tfs.len() == sets.len(),
        forall|k: int| 0 <= k < sets.len() ==> #[trigger] tracked_next(tfs, sets, k),
        0 <= i < j < sets.len(),
    ensures
        sets[i].asked.tracker->newest_ns < sets[j].asked.tracker->newest_ns,
    decreases j - i,
{
    assert(tracked_next(tfs, sets, j - 1));
    assert(tracked_next(tfs, sets, j));
    lemma_reply_sets_the_stamp(&tfs[j - 1], sets[j - 1]);
    lemma_tracked_set_is_newer(&tfs[j], sets[j]);
    if i < j - 1 {
        law_tracked_stamps_increase(tfs, sets, i, j - 1);
    }
}

/// A frame that a gate held: the core when the tracker's pose came in, the pose, and the core
/// after it.
pub struct HeldFrame<N: Numerics> {
    pub seen: CuvslamCore<N>,
    pub timestamp_ns: i64,
    pub cuv: CuvPose,
    pub rig_covariance: Matrix6,
    pub trace: FrameTrace,
    pub after: CuvslamCore<N>,
}

/// A gate held the frame.
pub open spec fn held_back<N: Numerics>(f: HeldFrame<N>) -> bool {
    &&& located_by(f.seen, f.timestamp_ns, f.cuv, f.rig_covariance, f.trace, f.after)
    &&& covariance_holds(f.seen, f.after.covariance, f.trace.std) || f.trace.too_fast
}

/// The frame with this number was held, with nothing since the one before it that moved the output.
pub open spec fn held_next<N: Numerics>(frames: Seq<HeldFrame<N>>, i: int) -> bool {
    &&& held_back(frames[i])
    &&& i > 0 ==> frames[i].seen.world_from_base == frames[i - 1].after.world_from_base
}

/// The frames were held one after the other, with nothing in between that moved the output.
pub open spec fn held_run<N: Numerics>(frames: Seq<HeldFrame<N>>) -> bool {
    forall|i: int| 0 <= i < frames.len() ==> #[trigger] held_next(frames, i)
}

/// Law: however many frames are held in a row, the output stays where it was before the first.
pub proof fn law_run_of_held_frames_keeps_the_pose<N: Numerics>(
    frames: Seq<HeldFrame<N>>,
    i: int,
)
    requires
        held_run(frames),
        0 <= i < frames.len(),
    ensures
        frames[i].after.world_from_base == frames[0].seen.world_from_base,
        forall|out: OdometryEstimate| #[trigger]
            emitted(frames[i].after, frames[i].timestamp_ns, out) ==> out.pose == or_identity(
                frames[0].seen.world_from_base,
            ),
    decreases i,
{
    assert(held_next(frames, i));
    if i > 0 {
        law_run_of_held_frames_keeps_the_pose(frames, i - 1);
    }
}

/// Law: after any run of held frames the next one that is taken moves the output from where it
/// was before the first held frame, by the motion since the last held frame's raw pose.
pub proof fn law_recovery_after_a_run_starts_from_the_held_pose<N: Numerics>(
    frames: Seq<HeldFrame<N>>,
    seen: CuvslamCore<N>,
    next_ns: i64,
    next_cuv: CuvPose,
    next_covariance: Matrix6,
    t: FrameTrace,
    next: CuvslamCore<N>,
)
    requires
        frames.len() > 0,
        held_run(frames),
        undisturbed(frames.last().after, CuvslamCore {
            last_ts_ns: frames.last().after.last_ts_ns,
            ..seen
        }),
        located_by(seen, next_ns, next_cuv, next_covariance, t, next),
        !covariance_holds(seen, next.covariance, t.std),
        !t.too_fast,
    ensures
        exists|onto: Pose|
            {
                &&& #[trigger] rebased(
                    &seen.numerics,
                    or_identity(frames[0].seen.world_from_base),
                    frames.last().trace.raw,
                    onto,
                )
                &&& next.world_from_base is Some
                &&& call_ensures(
                    N::compose,
                    (&seen.numerics, &onto, &t.raw),
                    next.world_from_base->0,
                )
            },
{
    let last = frames.len() - 1;
    law_run_of_held_frames_keeps_the_pose(frames, last);
    assert(held_next(frames, last));
    if last > 0 {
        law_run_of_held_frames_keeps_the_pose(frames, last - 1);
    }
    let onto = frames[last].after.rebase->0;
    assert(rebased(
        &seen.numerics,
        or_identity(frames[0].seen.world_from_base),
        frames[last].trace.raw,
        onto,
    ));
}

/// Law: a loss ends tracking, and one after it changes nothing more than the count of frames.
pub proof fn law_loss_ends_tracking<N: Numerics>(
    before: CuvslamCore<N>,
    newest_ns: i64,
    timestamp_ns: i64,
    after: CuvslamCore<N>,
    r: Option<OdometryEstimate>,
)
    requires
        before.well_formed(),
        replied(
            before,
            newest_ns,
            TrackReply::Estimate { timestamp_ns, world_from_rig: None },
            after,
            r,
        ),
    ensures
        r is None,
        !after.was_tracking,
        after.previous_raw is None,
        after.world_from_base == before.world_from_base,
        after.rebase == before.rebase,
        !before.was_tracking ==> after == frame_seen(before, newest_ns),
{
}

/// Law: while nothing is being tracked, at the start or after however many losses and failures, no
/// gate holds the next frame. There is no pose to be too fast against, and an unsure tracker is
/// only doubted while tracking.
pub proof fn law_first_frame_after_losses_is_taken<N: Numerics>(
    before: CuvslamCore<N>,
    next_ns: i64,
    timestamp_ns: i64,
    cuv: CuvPose,
    rig_covariance: Matrix6,
    t: FrameTrace,
    after: CuvslamCore<N>,
)
    requires
        before.well_formed(),
        !before.was_tracking,
        located_by(
            frame_seen(before, next_ns),
            timestamp_ns,
            cuv,
            rig_covariance,
            t,
            after,
        ),
    ensures
        !t.too_fast,
        !covariance_holds(frame_seen(before, next_ns), after.covariance, t.std),
        after.rebase == before.rebase,
        after.world_from_base is Some,
        call_ensures(
            N::compose,
            (&before.numerics, &or_identity(before.rebase), &t.raw),
            after.world_from_base->0,
        ),
        after.counters.speed_gated == before.counters.speed_gated,
        after.counters.covariance_gated == before.counters.covariance_gated,
{
}

/// A run of losses and failures, from one core to the next; what arrives in between does not touch
/// the track.
pub open spec fn losing_run<N: Numerics>(cores: Seq<CuvslamCore<N>>) -> bool {
    forall|i: int| 0 < i < cores.len() ==> #[trigger] lost_next(cores, i)
}

/// The core with this number came from the one before it by one step of a run of losses.
pub open spec fn lost_next<N: Numerics>(cores: Seq<CuvslamCore<N>>, i: int) -> bool {
    lost_or_quiet(cores[i - 1], cores[i])
}

/// One step of a run of losses: a loss, a failure, or something that does not touch the track.
pub open spec fn lost_or_quiet<N: Numerics>(a: CuvslamCore<N>, b: CuvslamCore<N>) -> bool {
    ||| exists|newest_ns: i64| b == #[trigger] frame_seen(a, newest_ns)
    ||| exists|newest_ns: i64| b == lost(#[trigger] frame_seen(a, newest_ns))
    ||| undisturbed(a, b)
}

/// Law: a run of losses and failures that starts with a loss leaves nothing tracked, however long
/// it is, so that no gate holds the frame that ends it.
pub proof fn law_run_of_losses_leaves_nothing_tracked<N: Numerics>(
    cores: Seq<CuvslamCore<N>>,
    i: int,
)
    requires
        losing_run(cores),
        0 <= i < cores.len(),
        !cores[0].was_tracking,
        cores[0].previous_raw is None,
    ensures
        !cores[i].was_tracking,
        cores[i].previous_raw is None,
        cores[i].world_from_base == cores[0].world_from_base,
        cores[i].rebase == cores[0].rebase,
    decreases i,
{
    if i > 0 {
        law_run_of_losses_leaves_nothing_tracked(cores, i - 1);
        assert(lost_next(cores, i));
    }
}

/// The transforms give one answer for each pair of frames.
pub open spec fn answers_repeat<T: TfLookup>(tf: &T) -> bool {
    forall|parent: Seq<char>, child: Seq<char>, a: Option<Pose>, b: Option<Pose>|
        #[trigger] looked_up(tf, parent, child, a) && #[trigger] looked_up(tf, parent, child, b)
            ==> a == b
}

/// The camera can be placed: the transforms have it, and something is known of it.
pub open spec fn placeable<T: TfLookup>(
    tf: &T,
    rig_frame: Seq<char>,
    infos: CameraInfos,
    frame: Seq<char>,
) -> bool {
    info_known(infos, frame) && placed_in(tf, rig_frame, frame)
}

/// Law: once there are as many cameras as the mode wants, or they are configured, the rig is
/// placed if and only if every one of them can be placed.
pub proof fn law_rig_is_placed_when_all_cameras_are<N: Numerics, T: TfLookup>(
    before: CuvslamCore<N>,
    tf: &T,
    after: CuvslamCore<N>,
)
    requires
        answers_repeat(tf),
        before.cameras@.len() == 0,
        rig_sought(before, tf, after),
        before.config.camera_frames@.len() == 0 ==> before.camera_info_by_frame.entries@.len()
            == cameras_wanted(before.mode),
    ensures
        after.cameras@.len() > 0 <==> forall|i: int|
            0 <= i < frames_wanted(before).len() ==> placeable(
                tf,
                before.config.rig_frame_name(),
                before.camera_info_by_frame,
                #[trigger] frames_wanted(before)[i],
            ),
{
    let discovered = before.config.camera_frames@.len() == 0;
    let frames = frames_wanted(before);
    let rig_frame = before.config.rig_frame_name();
    let infos = before.camera_info_by_frame;
    assert(frames.len() > 0);
    let rig = choose|rig: Option<Seq<Placement>>|
        {
            &&& #[trigger] rig_of(
                &before.numerics,
                tf,
                rig_frame,
                infos,
                frames,
                discovered,
                rig,
            )
            &&& match rig {
                Some(placed) => placements(after.cameras@) == placed,
                None => after == before,
            }
        };
    let listed = choose|listed: Seq<Placement>|
        {
            &&& #[trigger] listed_by(tf, rig_frame, infos, frames, listed)
            &&& match rig {
                Some(r) => listed.len() == frames.len() && arranged(
                    &before.numerics,
                    discovered,
                    listed,
                    r,
                ),
                None => listed.len() < frames.len() && not_placed(
                    tf,
                    rig_frame,
                    infos,
                    frames[listed.len() as int],
                ),
            }
        };
    if rig is Some {
        assert(placements(after.cameras@).len() == after.cameras@.len());
        assert forall|i: int| 0 <= i < frames.len() implies placeable(
            tf,
            rig_frame,
            infos,
            #[trigger] frames[i],
        ) by {
            let p = listed[i];
            assert(placed_at(tf, rig_frame, infos, frames[i], p));
            assert(looked_up(tf, rig_frame, frames[i], Some(p.rig_from_camera)));
            let k = choose|k: int|
                {
                    &&& 0 <= k < infos.entries@.len()
                    &&& (#[trigger] infos.entries@[k]).0@ == frames[i]
                    &&& infos.entries@[k].1@ == p.info
                };
            assert(infos.entries@[k].0.parts() == (frames[i], Seq::<char>::empty()));
        }
    } else {
        let frame = frames[listed.len() as int];
        if placeable(tf, rig_frame, infos, frame) {
            let pose = choose|pose: Pose| #[trigger] looked_up(tf, rig_frame, frame, Some(pose));
            assert(looked_up(tf, rig_frame, frame, None));
            assert(None::<Pose> == Some(pose));
        }
    }
}

} // verus!
