//! What the formulas do, where arithmetic does not round.

use vstd::prelude::*;

use crate::cuvslam_model::{covariance_holds, frame_seen, located_by, mount_of, or_identity};
use crate::cuvslam_model::{raw_pose_of, rebased, CuvslamCore, FrameTrace, RigMount};
use crate::exact::{exact, small, turns_lawful, Meaning, Vec3};
use crate::formulas::{nudged_by, nudged_of, pose_residual_of, turn_of, NudgeTrace};
use crate::fusion_model::moved_since;
use crate::numerics::Numerics;
use crate::tracker::{pose_between, pose_of_cuv, swap_wanted, CuvPose};
use crate::types::{Matrix6, Pose, Quaternion, Six, Vector3};

verus! {

/// Law: the residual takes the estimate to the target. Shifted and turned by it, the position and
/// attitude are the target's; and a target that is the attitude turned by a small axis of the body
/// has just that axis for its residual.
pub proof fn law_residual_takes_the_estimate_to_the_target<N: Numerics>(
    n: &N,
    m: Meaning,
    target: Pose,
    position: Vector3,
    q: Quaternion,
    r: Six,
    axis: Vec3,
)
    requires
        exact(n, m),
        pose_residual_of(n, target, position, q, r),
    ensures
        m.vec(position).plus(m.vec(r.linear)) == m.vec(target.translation),
        m.turns_from(q, target.rotation, m.vec(r.angular)),
        m.turns_from(q, target.rotation, axis) && small(axis) ==> m.vec(r.angular) == axis,
{
    let between = choose|between: Quaternion|
        {
            &&& #[trigger] call_ensures(N::turned, (n, &q.back(), &target.rotation), between)
            &&& call_ensures(N::scaled_axis, (n, &between), r.angular)
        };
    assert forall|v: Vec3| #[trigger]
        m.turn(target.rotation, v) == m.turn(q, m.swing(m.vec(r.angular), v)) by {
        let aimed = m.turn(target.rotation, v);
        assert(m.swing(m.vec(r.angular), v) == m.turn(between, v));
        assert(m.turn(between, v) == m.turn(q.back(), aimed));
        assert(m.turn(q, m.turn(q.back(), aimed)) == aimed);
    }
    if m.turns_from(q, target.rotation, axis) && small(axis) {
        assert(m.turns_by(between, axis)) by {
            assert forall|v: Vec3| #[trigger] m.turn(between, v) == m.swing(axis, v) by {
                assert(m.turn(target.rotation, v) == m.turn(q, m.swing(axis, v)));
                assert(m.turn(q.back(), m.turn(q, m.swing(axis, v))) == m.swing(axis, v));
            }
        }
    }
}

/// A factor of one changes nothing.
pub proof fn lemma_times_one(a: real, b: real)
    requires
        a == 1real,
    ensures
        a * b == b,
        b * a == b,
{
    assert(a * b == b && b * a == b) by (nonlinear_arith)
        requires
            a == 1real,
    ;
}

/// What times a number that is not zero is that number, is one.
pub proof fn lemma_whole_share(a: real, b: real)
    requires
        a * b == b,
        b != 0real,
    ensures
        a == 1real,
{
    assert(a == 1real) by (nonlinear_arith)
        requires
            a * b == b,
            b != 0real,
    ;
}

/// Law: a turn is about the body's own axis.
pub proof fn law_turn_is_about_the_bodys_axis<N: Numerics>(
    n: &N,
    m: Meaning,
    q: Quaternion,
    by: Vector3,
    r: Quaternion,
)
    requires
        exact(n, m),
        turn_of(n, q, by, r),
    ensures
        m.turns_from(q, r, m.vec(by)),
{
    let step = choose|step: Quaternion|
        {
            &&& call_ensures(N::from_scaled_axis, (n, &by), step)
            &&& #[trigger] call_ensures(N::turned, (n, &q, &step), r)
        };
    assert forall|v: Vec3| #[trigger] m.turn(r, v) == m.turn(q, m.swing(m.vec(by), v)) by {
        assert(m.turn(step, v) == m.swing(m.vec(by), v));
    }
}

/// Law: of a source's pose only its motion counts. Its previous pose, moved by the motion, is the
/// pose it has now.
pub proof fn law_source_motion_leads_to_its_pose<N: Numerics>(
    n: &N,
    m: Meaning,
    previous: Pose,
    pose: Pose,
    delta: Pose,
)
    requires
        exact(n, m),
        moved_since(n, previous, pose, delta),
    ensures
        m.is_after(pose, previous, delta),
{
    let undone = choose|undone: Pose|
        {
            &&& call_ensures(N::inverse, (n, &previous), undone)
            &&& #[trigger] call_ensures(N::compose, (n, &undone, &pose), delta)
        };
    assert forall|v: Vec3| #[trigger]
        m.moves(pose, v) == m.moves(previous, m.moves(delta, v)) by {
        let there = m.moves(pose, v);
        assert(m.moves(delta, v) == m.moves(undone, there));
        assert(m.moves(previous, m.moves(undone, there)) == there);
    }
}

/// Law: the rebase takes the raw pose of the held frame to the held pose. A frame after it that
/// has moved on from that raw pose comes out as far on from the held one.
pub proof fn law_rebase_takes_the_raw_pose_to_the_held_one<N: Numerics>(
    n: &N,
    m: Meaning,
    held: Pose,
    raw: Pose,
    rebase: Pose,
    step: Pose,
    next_raw: Pose,
    next: Pose,
)
    requires
        exact(n, m),
        rebased(n, held, raw, rebase),
        m.is_after(next_raw, raw, step),
        call_ensures(N::compose, (n, &rebase, &next_raw), next),
    ensures
        m.is_after(held, rebase, raw),
        m.is_after(next, held, step),
        m.same_motion(next_raw, raw) ==> m.same_motion(next, held),
{
    let undone = choose|undone: Pose|
        {
            &&& call_ensures(N::inverse, (n, &raw), undone)
            &&& #[trigger] call_ensures(N::compose, (n, &held, &undone), rebase)
        };
    assert forall|v: Vec3| #[trigger] m.moves(held, v) == m.moves(rebase, m.moves(raw, v)) by {
        assert(m.moves(undone, m.moves(raw, v)) == v);
    }
    assert forall|v: Vec3| #[trigger] m.moves(next, v) == m.moves(held, m.moves(step, v)) by {
        assert(m.moves(next_raw, v) == m.moves(raw, m.moves(step, v)));
        assert(m.moves(held, m.moves(step, v)) == m.moves(
            rebase,
            m.moves(raw, m.moves(step, v)),
        ));
    }
    if m.same_motion(next_raw, raw) {
        assert forall|v: Vec3| #[trigger] m.moves(next, v) == m.moves(held, v) by {
            assert(m.moves(next_raw, v) == m.moves(raw, v));
        }
    }
}

/// Law: recovery adds only what moved since. After a frame was held, the next one that is taken
/// moves the output by the raw motion since the held frame, in the body's axes.
pub proof fn law_recovery_adds_only_the_motion_since<N: Numerics>(
    m: Meaning,
    seen: CuvslamCore<N>,
    held_ns: i64,
    held_cuv: CuvPose,
    held_covariance: Matrix6,
    h: FrameTrace,
    held: CuvslamCore<N>,
    newest_ns: i64,
    next_ns: i64,
    next_cuv: CuvPose,
    next_covariance: Matrix6,
    t: FrameTrace,
    next: CuvslamCore<N>,
    step: Pose,
)
    requires
        exact(&seen.numerics, m),
        located_by(seen, held_ns, held_cuv, held_covariance, h, held),
        covariance_holds(seen, held.covariance, h.std) || h.too_fast,
        located_by(
            frame_seen(held, newest_ns),
            next_ns,
            next_cuv,
            next_covariance,
            t,
            next,
        ),
        !covariance_holds(frame_seen(held, newest_ns), next.covariance, t.std),
        !t.too_fast,
        m.is_after(t.raw, h.raw, step),
    ensures
        next.world_from_base is Some,
        m.is_after(next.world_from_base->0, or_identity(seen.world_from_base), step),
{
    law_rebase_takes_the_raw_pose_to_the_held_one(
        &seen.numerics,
        m,
        or_identity(seen.world_from_base),
        h.raw,
        held.rebase->0,
        step,
        t.raw,
        next.world_from_base->0,
    );
}

/// Law: frames that are taken one after the other, from the start on or after a rebase, move the
/// output as the raw poses move.
pub proof fn law_taken_frames_move_as_the_raw_poses<N: Numerics>(
    m: Meaning,
    seen: CuvslamCore<N>,
    first_ns: i64,
    first_cuv: CuvPose,
    first_covariance: Matrix6,
    f: FrameTrace,
    first: CuvslamCore<N>,
    newest_ns: i64,
    next_ns: i64,
    next_cuv: CuvPose,
    next_covariance: Matrix6,
    t: FrameTrace,
    next: CuvslamCore<N>,
    step: Pose,
)
    requires
        exact(&seen.numerics, m),
        located_by(seen, first_ns, first_cuv, first_covariance, f, first),
        !covariance_holds(seen, first.covariance, f.std) && !f.too_fast,
        located_by(
            frame_seen(first, newest_ns),
            next_ns,
            next_cuv,
            next_covariance,
            t,
            next,
        ),
        !covariance_holds(frame_seen(first, newest_ns), next.covariance, t.std) && !t.too_fast,
        m.is_after(t.raw, f.raw, step),
    ensures
        first.world_from_base is Some && next.world_from_base is Some,
        m.is_after(next.world_from_base->0, first.world_from_base->0, step),
{
    let w = first.world_from_base->0;
    let onto = or_identity(seen.rebase);
    assert forall|v: Vec3| #[trigger]
        m.moves(next.world_from_base->0, v) == m.moves(w, m.moves(step, v)) by {
        assert(m.moves(t.raw, v) == m.moves(f.raw, m.moves(step, v)));
        assert(m.moves(w, m.moves(step, v)) == m.moves(onto, m.moves(f.raw, m.moves(step, v))));
    }
}

/// Law: the mount carries the rig's motion over to the body. Where the rig's pose takes a point
/// that is given on the rig, the body's raw pose takes the same point given on the body.
pub proof fn law_raw_pose_is_the_rigs_seen_through_the_mount<N: Numerics>(
    n: &N,
    m: Meaning,
    base_from_rig: Pose,
    mount: RigMount,
    cuv: CuvPose,
    raw: Pose,
)
    requires
        exact(n, m),
        mount_of(n, base_from_rig, mount),
        raw_pose_of(n, mount, cuv, raw),
    ensures
        exists|rig: Pose| #[trigger]
            pose_of_cuv(n, cuv, rig) && (forall|v: Vec3| #[trigger]
                m.moves(raw, m.moves(base_from_rig, v)) == m.moves(base_from_rig, m.moves(rig, v))),
{
    let (rig, half) = choose|rig: Pose, half: Pose|
        {
            &&& #[trigger] pose_of_cuv(n, cuv, rig)
            &&& #[trigger] call_ensures(N::compose, (n, &mount.base_from_rig, &rig), half)
            &&& call_ensures(N::compose, (n, &half, &mount.rig_from_base), raw)
        };
    assert forall|v: Vec3| #[trigger]
        m.moves(raw, m.moves(base_from_rig, v)) == m.moves(base_from_rig, m.moves(rig, v)) by {
        assert(m.moves(mount.rig_from_base, m.moves(base_from_rig, v)) == v);
        assert(m.moves(half, v) == m.moves(base_from_rig, m.moves(rig, v)));
    }
}

/// Law: the left camera comes first. What is told between the two is where the second stands as
/// the first sees it, and they are swapped if and only if that is to the left.
pub proof fn law_second_camera_is_seen_from_the_first<N: Numerics>(
    n: &N,
    m: Meaning,
    first: Pose,
    second: Pose,
    swap: bool,
)
    requires
        exact(n, m),
        swap_wanted(n, first, second, swap),
    ensures
        exists|between: Pose| #[trigger]
            m.is_after(second, first, between) && (swap ==> m.vec(between.translation).x < 0real)
                && (!swap && !between.translation.x.nan() ==> m.vec(between.translation).x
                >= 0real),
{
    let between = choose|between: Pose| #[trigger]
        pose_between(n, first, second, between) && swap == between.translation.x.negative();
    let undone = choose|undone: Pose|
        {
            &&& call_ensures(N::inverse, (n, &first), undone)
            &&& #[trigger] call_ensures(N::compose, (n, &undone, &second), between)
        };
    assert forall|v: Vec3| #[trigger]
        m.moves(second, v) == m.moves(first, m.moves(between, v)) by {
        let there = m.moves(second, v);
        assert(m.moves(first, m.moves(undone, there)) == there);
    }
    assert(m.is_after(second, first, between));
}

/// Law: a source that has the whole share of each dimension moves the estimate by its own motion.
pub proof fn law_whole_share_moves_by_the_increment<N: Numerics>(
    n: &N,
    m: Meaning,
    position: Vector3,
    q: Quaternion,
    increment: Pose,
    share: Six,
    r: Pose,
)
    requires
        exact(n, m),
        nudged_of(n, position, q, increment, share, r),
        forall|dim: int| 0 <= dim < 6 ==> m.num(#[trigger] share.at(dim)) == 1real,
    ensures
        m.is_after(r, Pose { translation: position, rotation: q }, increment),
{
    let start = Pose { translation: position, rotation: q };
    let t = choose|t: NudgeTrace| #[trigger]
        nudged_by(n, position, q, increment, share, t, r);
    assert(m.num(share.at(0)) == 1real && m.num(share.at(1)) == 1real && m.num(share.at(2))
        == 1real && m.num(share.at(3)) == 1real && m.num(share.at(4)) == 1real && m.num(
        share.at(5),
    ) == 1real);
    lemma_times_one(m.num(share.linear.x), m.num(increment.translation.x));
    lemma_times_one(m.num(share.linear.y), m.num(increment.translation.y));
    lemma_times_one(m.num(share.linear.z), m.num(increment.translation.z));
    lemma_times_one(m.num(share.angular.x), m.num(t.axis.x));
    lemma_times_one(m.num(share.angular.y), m.num(t.axis.y));
    lemma_times_one(m.num(share.angular.z), m.num(t.axis.z));
    assert(m.vec(t.step) == m.vec(increment.translation));
    assert(m.vec(t.twist) == m.vec(t.axis));
    law_turn_is_about_the_bodys_axis(n, m, q, t.twist, r.rotation);
    assert forall|v: Vec3| #[trigger] m.moves(r, v) == m.moves(start, m.moves(increment, v)) by {
        let inner = m.turn(increment.rotation, v);
        assert(m.swing(m.vec(t.axis), v) == inner);
        assert(m.turn(r.rotation, v) == m.turn(q, m.swing(m.vec(t.twist), v)));
        assert(m.turns_sums(q, inner, m.vec(increment.translation)));
    }
}

/// Law: a source without a share moves nothing.
pub proof fn law_no_share_moves_nothing<N: Numerics>(
    n: &N,
    m: Meaning,
    position: Vector3,
    q: Quaternion,
    increment: Pose,
    share: Six,
    r: Pose,
)
    requires
        exact(n, m),
        nudged_of(n, position, q, increment, share, r),
        forall|dim: int| 0 <= dim < 6 ==> m.num(#[trigger] share.at(dim)) == 0real,
    ensures
        m.same_motion(r, Pose { translation: position, rotation: q }),
{
    let start = Pose { translation: position, rotation: q };
    let t = choose|t: NudgeTrace| #[trigger]
        nudged_by(n, position, q, increment, share, t, r);
    assert(m.num(share.at(0)) == 0real && m.num(share.at(1)) == 0real && m.num(share.at(2))
        == 0real && m.num(share.at(3)) == 0real && m.num(share.at(4)) == 0real && m.num(
        share.at(5),
    ) == 0real);
    lemma_times_zero(m.num(share.linear.x), m.num(increment.translation.x));
    lemma_times_zero(m.num(share.linear.y), m.num(increment.translation.y));
    lemma_times_zero(m.num(share.linear.z), m.num(increment.translation.z));
    lemma_times_zero(m.num(share.angular.x), m.num(t.axis.x));
    lemma_times_zero(m.num(share.angular.y), m.num(t.axis.y));
    lemma_times_zero(m.num(share.angular.z), m.num(t.axis.z));
    assert(m.vec(t.step) == Vec3::zero());
    assert(m.vec(t.twist) == Vec3::zero());
    law_turn_is_about_the_bodys_axis(n, m, q, t.twist, r.rotation);
    assert(m.turn(q, Vec3::zero()) == Vec3::zero()) by {
        lemma_zero_stays(m, q);
    }
    assert forall|v: Vec3| #[trigger] m.moves(r, v) == m.moves(start, v) by {
        assert(m.turn(r.rotation, v) == m.turn(q, m.swing(m.vec(t.twist), v)));
    }
}

/// A factor of zero leaves nothing.
pub proof fn lemma_times_zero(a: real, b: real)
    requires
        a == 0real,
    ensures
        a * b == 0real,
        b * a == 0real,
{
    assert(a * b == 0real && b * a == 0real) by (nonlinear_arith)
        requires
            a == 0real,
    ;
}

/// The origin is not turned anywhere.
pub proof fn lemma_zero_stays(m: Meaning, q: Quaternion)
    requires
        turns_lawful(m),
    ensures
        m.turn(q, Vec3::zero()) == Vec3::zero(),
{
    let z = Vec3::zero();
    assert(z.minus(z) == z);
    assert(m.turns_differences(q, z, z));
}

} // verus!
