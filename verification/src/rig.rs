//! The cameras of the rig: finding them, and placing them all at once.

use vstd::prelude::*;

use crate::numerics::Numerics;
use crate::ordered_map::{holds, FrameKey, OrderedMap};
use crate::tracker::{needs_left_swap, swap_wanted, Mode};
use crate::types::{look_up, looked_up, CameraModel, CameraView, ImageFrame, Pose, TfLookup};

verus! {

/// A camera that has its place on the rig.
pub struct RigCamera {
    pub frame: String,
    pub rig_from_camera: Pose,
    pub info: CameraModel,
    /// The image that waits to be tracked.
    pub image: Option<ImageFrame>,
}

/// A camera's place on the rig.
pub struct Placement {
    pub frame: Seq<char>,
    pub rig_from_camera: Pose,
    pub info: CameraView,
}

impl RigCamera {
    pub open spec fn placement(&self) -> Placement {
        Placement {
            frame: self.frame@,
            rig_from_camera: self.rig_from_camera,
            info: self.info@,
        }
    }
}

/// Where the cameras are.
pub open spec fn placements(cameras: Seq<RigCamera>) -> Seq<Placement> {
    cameras.map_values(|c: RigCamera| c.placement())
}

/// The texts of a list.
pub open spec fn names(list: Seq<String>) -> Seq<Seq<char>> {
    list.map_values(|s: String| s@)
}

/// What is known of the cameras, by frame.
pub type CameraInfos = OrderedMap<String, CameraModel>;

/// The frames of the cameras that something is known of, in order.
pub open spec fn frames_known(infos: CameraInfos) -> Seq<Seq<char>> {
    infos.entries@.map_values(|e: (String, CameraModel)| e.0@)
}

/// `info` is what is known of the camera with this frame.
pub open spec fn info_of(infos: CameraInfos, frame: Seq<char>, info: CameraView) -> bool {
    exists|i: int|
        {
            &&& 0 <= i < infos.entries@.len()
            &&& (#[trigger] infos.entries@[i]).0@ == frame
            &&& infos.entries@[i].1@ == info
        }
}

/// Something is known of the camera with this frame.
pub open spec fn info_known(infos: CameraInfos, frame: Seq<char>) -> bool {
    holds(infos.entries@, (frame, Seq::empty()))
}

/// The camera is placed where the transforms have it, with what is known of it.
pub open spec fn placed_at<T: TfLookup>(
    tf: &T,
    rig_frame: Seq<char>,
    infos: CameraInfos,
    frame: Seq<char>,
    p: Placement,
) -> bool {
    &&& p.frame == frame
    &&& looked_up(tf, rig_frame, frame, Some(p.rig_from_camera))
    &&& info_of(infos, frame, p.info)
}

/// The camera cannot be placed yet.
pub open spec fn not_placed<T: TfLookup>(
    tf: &T,
    rig_frame: Seq<char>,
    infos: CameraInfos,
    frame: Seq<char>,
) -> bool {
    looked_up(tf, rig_frame, frame, None) || !info_known(infos, frame)
}

/// Cameras in the order that the tracker wants: two that were discovered have the left one first.
pub open spec fn arranged<N: Numerics>(
    n: &N,
    discovered: bool,
    listed: Seq<Placement>,
    rig: Seq<Placement>,
) -> bool {
    if discovered && listed.len() == 2 {
        exists|swap: bool|
            {
                &&& #[trigger] swap_wanted(
                    n,
                    listed[0].rig_from_camera,
                    listed[1].rig_from_camera,
                    swap,
                )
                &&& rig == if swap {
                    seq![listed[1], listed[0]]
                } else {
                    listed
                }
            }
    } else {
        rig == listed
    }
}

/// The cameras' frames and places, up to the first that cannot be placed.
pub open spec fn listed_by<T: TfLookup>(
    tf: &T,
    rig_frame: Seq<char>,
    infos: CameraInfos,
    frames: Seq<Seq<char>>,
    listed: Seq<Placement>,
) -> bool {
    &&& listed.len() <= frames.len()
    &&& forall|i: int|
        0 <= i < listed.len() ==> placed_at(
            tf,
            rig_frame,
            infos,
            frames[i],
            #[trigger] listed[i],
        )
}

/// `r` is the rig of these frames: all cameras or none. None means that one of them could not be
/// placed.
pub open spec fn rig_of<N: Numerics, T: TfLookup>(
    n: &N,
    tf: &T,
    rig_frame: Seq<char>,
    infos: CameraInfos,
    frames: Seq<Seq<char>>,
    discovered: bool,
    r: Option<Seq<Placement>>,
) -> bool {
    exists|listed: Seq<Placement>|
        {
            &&& #[trigger] listed_by(tf, rig_frame, infos, frames, listed)
            &&& match r {
                Some(rig) => listed.len() == frames.len() && arranged(n, discovered, listed, rig),
                None => listed.len() < frames.len() && not_placed(
                    tf,
                    rig_frame,
                    infos,
                    frames[listed.len() as int],
                ),
            }
        }
}

/// No camera has an image yet.
pub open spec fn imageless(cameras: Seq<RigCamera>) -> bool {
    forall|i: int| 0 <= i < cameras.len() ==> (#[trigger] cameras[i]).image is None
}

/// The placements of a rig, if there is one.
pub open spec fn rig_placements(r: Option<Vec<RigCamera>>) -> Option<Seq<Placement>> {
    match r {
        Some(cameras) => Some(placements(cameras@)),
        None => None,
    }
}

/// Places all cameras, or none.
pub fn place_cameras<N: Numerics, T: TfLookup>(
    n: &N,
    tf: &T,
    rig_frame: &str,
    infos: &CameraInfos,
    frames: &Vec<String>,
    discovered: bool,
) -> (r: Option<Vec<RigCamera>>)
    requires
        infos.well_formed(),
    ensures
        rig_of(n, tf, rig_frame@, *infos, names(frames@), discovered, rig_placements(r)),
        r matches Some(cameras) ==> imageless(cameras@) && cameras@.len()
            == frames@.len(),
{
    let mut cameras: Vec<RigCamera> = Vec::new();
    let mut i: usize = 0;
    while i < frames.len()
        invariant
            infos.well_formed(),
            i <= frames@.len(),
            cameras@.len() == i,
            imageless(cameras@),
            listed_by(tf, rig_frame@, *infos, names(frames@), placements(cameras@)),
        decreases frames@.len() - i,
    {
        let ghost listed = placements(cameras@);
        let frame: &String = &frames[i];
        let rig_from_camera = match look_up(tf, rig_frame, frame.as_str()) {
            Some(pose) => pose,
            None => {
                assert(not_placed(tf, rig_frame@, *infos, names(frames@)[listed.len() as int]));
                return None;
            },
        };
        let index: usize = match infos.position(frame) {
            Some(index) => index,
            None => {
                assert(not_placed(tf, rig_frame@, *infos, names(frames@)[listed.len() as int]));
                return None;
            },
        };
        assert(infos.entries@[index as int].0.parts() == frame.parts());
        assert(infos.entries@[index as int].0@ == frame@);
        let info = infos.entries[index].1.copy();
        let camera = RigCamera { frame: frame.clone(), rig_from_camera, info, image: None };
        assert(placed_at(tf, rig_frame@, *infos, frames@[i as int]@, camera.placement()));
        cameras.push(camera);
        assert(placements(cameras@) =~= listed.push(camera.placement()));
        i += 1;
    }
    let ghost listed = placements(cameras@);
    if discovered && cameras.len() == 2 {
        let swap: bool = needs_left_swap(
            n,
            &cameras[0].rig_from_camera,
            &cameras[1].rig_from_camera,
        );
        if swap {
            let first = cameras.remove(0);
            cameras.push(first);
            assert(placements(cameras@) =~= seq![listed[1], listed[0]]);
        }
        assert(swap_wanted(n, listed[0].rig_from_camera, listed[1].rig_from_camera, swap));
    }
    assert(arranged(n, discovered, listed, placements(cameras@)));
    Some(cameras)
}

/// The number of cameras that a mode tracks with.
pub open spec fn cameras_wanted(mode: Mode) -> nat {
    if mode is Stereo {
        2
    } else {
        1
    }
}

} // verus!
