//! Depth seen from another camera.

use vstd::prelude::*;

use crate::depth_pixels::{pixel, pixel_at, whole, ByteOrder};
use crate::formulas::{projected, projected_of, Projection};
use crate::numerics::Numerics;
use crate::scalar::Scalar;
use crate::types::{CameraModel, ImageFrame, Matrix3, Pose};

verus! {

/// An image of this camera's size, at two bytes a pixel, can be made.
pub open spec fn depth_sized(info: CameraModel) -> bool {
    &&& 0 <= info.width
    &&& 0 <= info.height
    &&& 2 * info.width <= i32::MAX
    &&& (2 * info.width) * info.height <= isize::MAX
}

/// Whether an image of this camera's size, at two bytes a pixel, can be made.
pub fn can_be_made(info: &CameraModel) -> (r: bool)
    ensures
        r == depth_sized(*info),
{
    if info.width < 0 || info.height < 0 || info.width > i32::MAX / 2 {
        return false;
    }
    let ghost w = info.width as int;
    let ghost h = info.height as int;
    assert(0 <= (2 * w) * h <= 0x7fff_ffff * 0x7fff_ffff) by (nonlinear_arith)
        requires
            0 <= 2 * w <= 0x7fff_ffff,
            0 <= h <= 0x7fff_ffff,
    ;
    let bytes: u64 = 2 * info.width as u64 * info.height as u64;
    bytes <= isize::MAX as u64
}

/// The raw depth that a projection stores: what does not fit is held at the largest.
pub open spec fn stored(raw: i64) -> u16 {
    if raw > 0xffff {
        0xffff
    } else {
        raw as u16
    }
}

/// The projection lands on the pixel with this number, counted row by row: it is in front of the
/// camera and within the image.
pub open spec fn lands_on(p: Projection, info: CameraModel, index: int) -> bool {
    &&& !p.depth.at_most(Scalar::zero())
    &&& 0 <= p.u < info.width
    &&& 0 <= p.v < info.height
    &&& p.v * info.width + p.u == index
}

/// What is kept of a pixel's depth when another lands on it: the nearer one. Zero is no depth.
pub open spec fn nearer(slot: u16, value: u16) -> u16 {
    if slot == 0 || value < slot {
        value
    } else {
        slot
    }
}

/// The depth of a pixel after the first `count` of the landings.
pub open spec fn landed(
    landings: Seq<Option<Projection>>,
    info: CameraModel,
    index: int,
    count: nat,
) -> u16
    decreases count,
{
    if count == 0 {
        0
    } else {
        let before = landed(landings, info, index, (count - 1) as nat);
        match landings[count - 1] {
            Some(p) => if lands_on(p, info, index) {
                nearer(before, stored(p.raw))
            } else {
                before
            },
            None => before,
        }
    }
}

/// How the pixels of a depth image were projected, row by row; those without depth were not.
pub open spec fn landings_of<N: Numerics>(
    n: &N,
    depth: ImageFrame,
    order: ByteOrder,
    depth_info: CameraModel,
    camera_info: CameraModel,
    rotation: Matrix3,
    camera_from_depth: Pose,
    units_per_meter: Scalar,
    landings: Seq<Option<Projection>>,
) -> bool {
    forall|u: int, v: int|
        #![trigger pixel(depth, order, u, v)]
        0 <= u < depth.width && 0 <= v < depth.height && v * depth.width + u < landings.len() ==> {
            let raw = pixel(depth, order, u, v);
            match landings[v * depth.width + u] {
                None => raw == 0,
                Some(p) => raw != 0 && projected_of(
                    n,
                    depth_info,
                    camera_info,
                    rotation,
                    camera_from_depth.translation,
                    units_per_meter,
                    u as i32,
                    v as i32,
                    raw,
                    p,
                ),
            }
        }
}

/// The number of pixels, or zero if there are none.
pub open spec fn pixel_count(img: ImageFrame) -> int {
    if img.width <= 0 || img.height <= 0 {
        0
    } else {
        img.width * img.height
    }
}

/// `out` is the depth image as the camera sees it, with these landings.
pub open spec fn reprojected_with(
    depth: ImageFrame,
    order: ByteOrder,
    camera_info: CameraModel,
    landings: Seq<Option<Projection>>,
    out: ImageFrame,
) -> bool {
    &&& landings.len() == pixel_count(depth)
    &&& out.timestamp_ns == depth.timestamp_ns
    &&& out.frame_id@ == camera_info.frame_id@
    &&& out.width == camera_info.width
    &&& out.height == camera_info.height
    &&& out.encoding@ == depth.encoding@
    &&& out.step == 2 * camera_info.width
    &&& out.data@.len() == (2 * camera_info.width) * camera_info.height
    &&& forall|index: int|
        0 <= index < camera_info.width * camera_info.height ==> #[trigger] word(
            out.data@,
            order,
            index,
        ) == landed(landings, camera_info, index, landings.len())
}

/// See [`landings_of`] and [`reprojected_with`].
pub open spec fn reprojected<N: Numerics>(
    n: &N,
    depth: ImageFrame,
    order: ByteOrder,
    depth_info: CameraModel,
    camera_info: CameraModel,
    camera_from_depth: Pose,
    units_per_meter: Scalar,
    out: ImageFrame,
) -> bool {
    exists|rotation: Matrix3, landings: Seq<Option<Projection>>|
        {
            &&& call_ensures(N::rotation_matrix, (n, &camera_from_depth.rotation), rotation)
            &&& #[trigger] landings_of(
                n,
                depth,
                order,
                depth_info,
                camera_info,
                rotation,
                camera_from_depth,
                units_per_meter,
                landings,
            )
            &&& reprojected_with(depth, order, camera_info, landings, out)
        }
}

/// The two bytes with this number.
pub open spec fn word(data: Seq<u8>, order: ByteOrder, index: int) -> u16 {
    order.value(data[2 * index], data[2 * index + 1])
}

/// Puts one landing in its place.
fn land(
    data: &mut Vec<u8>,
    order: ByteOrder,
    info: &CameraModel,
    p: Projection,
    landings: Ghost<Seq<Option<Projection>>>,
)
    requires
        depth_sized(*info),
        old(data)@.len() == (2 * info.width) * info.height,
        forall|index: int|
            0 <= index < info.width * info.height ==> #[trigger] word(old(data)@, order, index)
                == landed(landings@, *info, index, landings@.len()),
    ensures
        final(data)@.len() == old(data)@.len(),
        forall|index: int|
            0 <= index < info.width * info.height ==> #[trigger] word(final(data)@, order, index)
                == landed(landings@.push(Some(p)), *info, index, (landings@.len() + 1) as nat),
{
    let ghost before = data@;
    let ghost longer = landings@.push(Some(p));
    let ghost count = landings@.len();
    proof {
        assert forall|index: int| 0 <= index < info.width * info.height implies #[trigger] landed(
            longer,
            *info,
            index,
            count,
        ) == landed(landings@, *info, index, count) by {
            lemma_landed_prefix(landings@, longer, *info, index, count);
        }
    }
    if p.depth.le(Scalar::zero()) || p.u < 0 || p.u >= info.width as i64 || p.v < 0 || p.v
        >= info.height as i64 {
        assert forall|index: int| 0 <= index < info.width * info.height implies #[trigger] word(
            data@,
            order,
            index,
        ) == landed(longer, *info, index, (count + 1) as nat) by {
            assert(landed(longer, *info, index, count) == landed(landings@, *info, index, count));
            assert(longer[count as int] == Some(p));
        }
        return;
    }
    let ghost at = p.v * info.width + p.u;
    proof {
        let w = info.width as int;
        let h = info.height as int;
        let v = p.v as int;
        assert(0 <= v * w && v * w + w <= w * h) by (nonlinear_arith)
            requires
                0 <= v < h,
                0 <= w,
        ;
        assert((2 * w) * h == 2 * (w * h)) by (nonlinear_arith);
        assert(p.v as usize * info.width as usize == p.v * info.width);
        assert(data.len() <= usize::MAX);
    }
    let value: u16 = if p.raw > 0xffff {
        0xffff
    } else {
        #[verifier::truncate]
        (p.raw as u16)
    };
    let slot_start: usize = (p.v as usize * info.width as usize + p.u as usize) * 2;
    let slot: u16 = order.join(data[slot_start], data[slot_start + 1]);
    assert(slot == word(data@, order, at));
    if slot == 0 || value < slot {
        let (first, second) = order.split(value);
        data.set(slot_start, first);
        data.set(slot_start + 1, second);
    }
    assert forall|index: int| 0 <= index < info.width * info.height implies #[trigger] word(
        data@,
        order,
        index,
    ) == landed(longer, *info, index, (count + 1) as nat) by {
        assert(landed(longer, *info, index, count) == landed(landings@, *info, index, count));
        assert(word(before, order, index) == landed(landings@, *info, index, count));
        assert(longer[count as int] == Some(p));
        assert(lands_on(p, *info, index) == (index == at));
    }
}

/// Later landings do not change what the earlier ones left.
proof fn lemma_landed_prefix(
    a: Seq<Option<Projection>>,
    b: Seq<Option<Projection>>,
    info: CameraModel,
    index: int,
    count: nat,
)
    requires
        count <= a.len(),
        count <= b.len(),
        forall|i: int| 0 <= i < count ==> a[i] == b[i],
    ensures
        landed(a, info, index, count) == landed(b, info, index, count),
    decreases count,
{
    if count > 0 {
        lemma_landed_prefix(a, b, info, index, (count - 1) as nat);
    }
}

/// The depth image as another camera sees it. The nearest surface wins where several land on one
/// pixel; pixels that nothing lands on stay zero, which is no depth.
pub fn reproject_depth<N: Numerics>(
    n: &N,
    order: ByteOrder,
    depth: &ImageFrame,
    depth_info: &CameraModel,
    camera_info: &CameraModel,
    camera_from_depth: &Pose,
    units_per_meter: Scalar,
    out: &mut ImageFrame,
)
    requires
        whole(*depth),
        depth_sized(*camera_info),
    ensures
        reprojected(
            n,
            *depth,
            order,
            *depth_info,
            *camera_info,
            *camera_from_depth,
            units_per_meter,
            *final(out),
        ),
{
    out.timestamp_ns = depth.timestamp_ns;
    out.frame_id = camera_info.frame_id.clone();
    out.width = camera_info.width;
    out.height = camera_info.height;
    out.encoding = depth.encoding.clone();
    out.step = camera_info.width * 2;
    let ghost w = camera_info.width as int;
    let ghost h = camera_info.height as int;
    proof {
        assert((2 * w) * h == 2 * (w * h)) by (nonlinear_arith);
        assert(0 <= w * h) by (nonlinear_arith)
            requires
                0 <= w,
                0 <= h,
        ;
        assert(out.step as usize * camera_info.height as usize == (2 * w) * h);
    }
    let mut data: Vec<u8> = vec![0u8; out.step as usize * camera_info.height as usize];
    let rotation = n.rotation_matrix(&camera_from_depth.rotation);
    let ghost mut landings: Seq<Option<Projection>> = Seq::empty();
    let ghost dw = depth.width as int;
    assert(0 * dw == 0) by (nonlinear_arith);
    let mut v: i32 = 0;
    while v < depth.height
        invariant
            0 <= v,
            depth.height > 0 ==> v <= depth.height,
            v > 0 ==> depth.height > 0,
            whole(*depth),
            depth_sized(*camera_info),
            dw == depth.width,
            w == camera_info.width,
            h == camera_info.height,
            landings.len() == if depth.width > 0 {
                v * dw
            } else {
                0
            },
            data@.len() == (2 * camera_info.width) * camera_info.height,
            forall|index: int|
                0 <= index < camera_info.width * camera_info.height ==> #[trigger] word(
                    data@,
                    order,
                    index,
                ) == landed(landings, *camera_info, index, landings.len()),
            landings_of(
                n,
                *depth,
                order,
                *depth_info,
                *camera_info,
                rotation,
                *camera_from_depth,
                units_per_meter,
                landings,
            ),
        decreases depth.height - v,
    {
        let mut u: i32 = 0;
        while u < depth.width
            invariant
                0 <= u,
                depth.width > 0 ==> u <= depth.width,
                depth.width <= 0 ==> u == 0,
                0 <= v < depth.height,
                whole(*depth),
                depth_sized(*camera_info),
                dw == depth.width,
                landings.len() == if depth.width > 0 {
                    v * dw + u
                } else {
                    0
                },
                data@.len() == (2 * camera_info.width) * camera_info.height,
                forall|index: int|
                    0 <= index < camera_info.width * camera_info.height ==> #[trigger] word(
                        data@,
                        order,
                        index,
                    ) == landed(landings, *camera_info, index, landings.len()),
                landings_of(
                    n,
                    *depth,
                    order,
                    *depth_info,
                    *camera_info,
                    rotation,
                    *camera_from_depth,
                    units_per_meter,
                    landings,
                ),
            decreases depth.width - u,
        {
            let raw: u16 = pixel_at(depth, order, u, v);
            let ghost here = landings;
            if raw != 0 {
                let p = projected(
                    n,
                    depth_info,
                    camera_info,
                    &rotation,
                    &camera_from_depth.translation,
                    units_per_meter,
                    u,
                    v,
                    raw,
                );
                land(&mut data, order, camera_info, p, Ghost(landings));
                proof {
                    landings = landings.push(Some(p));
                }
            } else {
                proof {
                    landings = landings.push(None);
                    assert forall|index: int|
                        0 <= index < camera_info.width * camera_info.height implies #[trigger] word(
                        data@,
                        order,
                        index,
                    ) == landed(landings, *camera_info, index, landings.len()) by {
                        lemma_landed_prefix(here, landings, *camera_info, index, here.len());
                    }
                }
            }
            proof {
                assert forall|x: int, y: int|
                    #![trigger pixel(*depth, order, x, y)]
                    0 <= x < depth.width && 0 <= y < depth.height && y * depth.width + x
                        < landings.len() implies {
                    let raw = pixel(*depth, order, x, y);
                    match landings[y * depth.width + x] {
                        None => raw == 0,
                        Some(p) => raw != 0 && projected_of(
                            n,
                            *depth_info,
                            *camera_info,
                            rotation,
                            camera_from_depth.translation,
                            units_per_meter,
                            x as i32,
                            y as i32,
                            raw,
                            p,
                        ),
                    }
                } by {
                    let i = y * dw + x;
                    assert(0 <= i) by (nonlinear_arith)
                        requires
                            i == y * dw + x,
                            0 <= y,
                            0 <= x < dw,
                    ;
                    if i == here.len() {
                        lemma_same_pixel(dw, u as int, v as int, x, y);
                    }
                }
            }
            u += 1;
        }
        proof {
            assert((v + 1) * dw == v * dw + dw) by (nonlinear_arith);
        }
        v += 1;
    }
    out.data = data;
    proof {
        if depth.width > 0 && depth.height > 0 {
            assert(v == depth.height);
            assert(depth.height * dw == dw * depth.height) by (nonlinear_arith);
        } else if depth.height <= 0 {
            assert(v == 0);
            assert(v * dw == 0) by (nonlinear_arith)
                requires
                    v == 0,
            ;
        }
        assert(landings.len() == pixel_count(*depth));
        assert(reprojected_with(*depth, order, *camera_info, landings, *out));
    }
}

/// Row and column of a pixel follow from its number.
proof fn lemma_same_pixel(width: int, u: int, v: int, x: int, y: int)
    requires
        0 <= u < width,
        0 <= x < width,
        v * width + u == y * width + x,
    ensures
        u == x,
        v == y,
{
    assert(v == y) by (nonlinear_arith)
        requires
            0 <= u < width,
            0 <= x < width,
            v * width + u == y * width + x,
    ;
}

/// Landing `i` lands on the pixel with depth `value`.
pub open spec fn lands_with(
    landings: Seq<Option<Projection>>,
    info: CameraModel,
    index: int,
    i: int,
    value: u16,
) -> bool {
    landings[i] matches Some(p) && lands_on(p, info, index) && stored(p.raw) == value
}

/// Law: the nearest surface wins. A pixel that nothing lands on has no depth; any other has the
/// smallest of the depths that land on it, as long as none of them rounds to no depth.
pub proof fn law_nearest_surface_wins(
    landings: Seq<Option<Projection>>,
    info: CameraModel,
    index: int,
    count: nat,
)
    requires
        count <= landings.len(),
        forall|i: int| 0 <= i < count ==> !#[trigger] lands_with(landings, info, index, i, 0),
    ensures
        landed(landings, info, index, count) == 0 ==> forall|i: int, value: u16|
            0 <= i < count ==> !#[trigger] lands_with(landings, info, index, i, value),
        landed(landings, info, index, count) != 0 ==> exists|i: int|
            0 <= i < count && #[trigger] lands_with(
                landings,
                info,
                index,
                i,
                landed(landings, info, index, count),
            ),
        forall|i: int, value: u16|
            0 <= i < count && #[trigger] lands_with(landings, info, index, i, value) ==> landed(
                landings,
                info,
                index,
                count,
            ) <= value,
    decreases count,
{
    if count > 0 {
        let last = count - 1;
        law_nearest_surface_wins(landings, info, index, last as nat);
        let before = landed(landings, info, index, last as nat);
        assert(!lands_with(landings, info, index, last, 0));
        let now = landed(landings, info, index, count);
        if now != 0 {
            if now != before {
                assert(lands_with(landings, info, index, last, now));
            } else if before != 0 {
                let i = choose|i: int|
                    0 <= i < last && #[trigger] lands_with(landings, info, index, i, before);
                assert(lands_with(landings, info, index, i, now));
            }
        }
    }
}

} // verus!
