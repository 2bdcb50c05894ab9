//! What the camera formulas do, where arithmetic does not round.

use vstd::prelude::*;

use crate::depth_pixels::{pixel, ByteOrder};
use crate::depth_reproject::{landed, landings_of, lands_on, reprojected, reprojected_with};
use crate::depth_reproject::{stored, word};
use crate::exact::{exact, held_within, nearest, whole_part, Meaning, Vec3};
use crate::exact_laws::lemma_times_zero;
use crate::formulas::{coordinate_by, coordinate_of, far_raw_of, gap_margin_by, gap_margin_of};
use crate::formulas::{meters_of, near_raw_of, point_by, point_of, projected_by, projected_of};
use crate::formulas::{raw_depth_by, raw_depth_of, ray_by, ray_of, row_by, row_of};
use crate::formulas::{CoordinateTrace, MarginTrace, PointTrace, ProjectTrace, Projection};
use crate::formulas::{RawTrace, RayTrace, RowTrace, LARGEST_RAW_BITS};
use crate::numerics::Numerics;
use crate::scalar::{spec_larger, spec_smaller, Scalar, Single};
use crate::types::{CameraModel, ImageFrame, Matrix3, Pose, SingleVector, Vector3};

verus! {

/// A pinhole camera sees the point at these pixel coordinates.
pub open spec fn seen_at(m: Meaning, info: CameraModel, p: Vec3, u: real, v: real) -> bool {
    &&& (u - m.num(info.intrinsics[2])) * p.z == m.num(info.intrinsics[0]) * p.x
    &&& (v - m.num(info.intrinsics[5])) * p.z == m.num(info.intrinsics[4]) * p.y
}

/// The camera has focal lengths.
pub open spec fn focused(m: Meaning, info: CameraModel) -> bool {
    m.num(info.intrinsics[0]) != 0real && m.num(info.intrinsics[4]) != 0real
}

proof fn lemma_ray(slope: real, off: real, focal: real, z: real, r: real)
    requires
        slope * focal == off,
        r == slope * z,
    ensures
        off * z == focal * r,
{
    assert(off * z == focal * r) by (nonlinear_arith)
        requires
            slope * focal == off,
            r == slope * z,
    ;
}

pub proof fn lemma_cancel(a: real, b: real, k: real)
    requires
        k * a == k * b,
        k != 0real,
    ensures
        a == b,
{
    assert(a == b) by (nonlinear_arith)
        requires
            k * a == k * b,
            k != 0real,
    ;
}

pub proof fn lemma_commutes(a: real, b: real)
    ensures
        a * b == b * a,
{
    assert(a * b == b * a) by (nonlinear_arith);
}

proof fn lemma_ray_of<N: Numerics>(
    n: &N,
    m: Meaning,
    at: Scalar,
    center: Scalar,
    focal: Scalar,
    z: Scalar,
    r: Scalar,
)
    requires
        exact(n, m),
        m.num(focal) != 0real,
        ray_of(n, at, center, focal, z, r),
    ensures
        (m.num(at) - m.num(center)) * m.num(z) == m.num(focal) * m.num(r),
{
    let t = choose|t: RayTrace| #[trigger] ray_by(n, at, center, focal, z, t, r);
    lemma_ray(m.num(t.slope), m.num(t.off), m.num(focal), m.num(z), m.num(r));
}

/// The point of a point cloud, in reals.
pub open spec fn point_at(m: Meaning, r: SingleVector) -> Vec3 {
    Vec3 { x: (m.single)(r.x), y: (m.single)(r.y), z: (m.single)(r.z) }
}

/// Law: a pixel's point is where the camera sees that pixel, as far away as its depth says.
pub proof fn law_point_is_seen_at_its_pixel<N: Numerics>(
    n: &N,
    m: Meaning,
    info: CameraModel,
    half_u: i64,
    half_v: i64,
    raw: u16,
    units_per_meter: Scalar,
    r: SingleVector,
)
    requires
        exact(n, m),
        focused(m, info),
        m.num(units_per_meter) != 0real,
        point_of(n, info, half_u, half_v, raw, units_per_meter, r),
    ensures
        seen_at(m, info, point_at(m, r), half_u as real / 2real, half_v as real / 2real),
        point_at(m, r).z * m.num(units_per_meter) == raw as real,
{
    let t = choose|t: PointTrace| #[trigger]
        point_by(n, info, half_u, half_v, raw, units_per_meter, t, r);
    let k = info.intrinsics;
    assert(m.num(t.u) * 2real == half_u as real);
    assert(m.num(t.v) * 2real == half_v as real);
    lemma_ray_of(n, m, t.u, k[2], k[0], t.z, t.x);
    lemma_ray_of(n, m, t.v, k[5], k[4], t.z, t.y);
}

proof fn lemma_row<N: Numerics>(
    n: &N,
    m: Meaning,
    row: Vector3,
    v: Vector3,
    offset: Scalar,
    r: Scalar,
)
    requires
        exact(n, m),
        row_of(n, row, v, offset, r),
    ensures
        m.num(r) == m.vec(row).dot(m.vec(v)) + m.num(offset),
{
    let t = choose|t: RowTrace| #[trigger] row_by(n, row, v, offset, t, r);
}

proof fn lemma_coordinate<N: Numerics>(
    n: &N,
    m: Meaning,
    focal: Scalar,
    x: Scalar,
    z: Scalar,
    center: Scalar,
    r: i64,
    at: real,
)
    requires
        exact(n, m),
        m.num(z) != 0real,
        coordinate_of(n, focal, x, z, center, r),
        (at - m.num(center)) * m.num(z) == m.num(focal) * m.num(x),
    ensures
        r == held_within(nearest(at), i64::MIN as int, i64::MAX as int),
{
    let t = choose|t: CoordinateTrace| #[trigger]
        coordinate_by(n, focal, x, z, center, t, r);
    let slope = m.num(t.slope);
    lemma_commutes(slope, m.num(z));
    lemma_commutes(at - m.num(center), m.num(z));
    lemma_cancel(slope, at - m.num(center), m.num(z));
    assert(m.num(t.at) == at);
    assert(m.num(t.near) == nearest(at) as real);
    lemma_whole_of_whole(nearest(at));
}

proof fn lemma_whole_of_whole(a: int)
    ensures
        whole_part(a as real) == a,
{
}

/// Law: a depth pixel is projected where the other camera sees its point. Take the point that the
/// depth camera sees at the pixel, as far away as its depth says; move it by the pose of the depth
/// camera in the other one's axes; the projection has its depth, the pixel nearest to where the
/// other camera sees it, and that depth in raw units.
pub proof fn law_projection_is_where_the_camera_sees_the_point<N: Numerics>(
    n: &N,
    m: Meaning,
    depth_info: CameraModel,
    camera_info: CameraModel,
    camera_from_depth: Pose,
    rotation: Matrix3,
    units_per_meter: Scalar,
    u: i32,
    v: i32,
    raw: u16,
    r: Projection,
    p: Vec3,
    at_u: real,
    at_v: real,
)
    requires
        exact(n, m),
        focused(m, depth_info),
        m.num(units_per_meter) != 0real,
        call_ensures(N::rotation_matrix, (n, &camera_from_depth.rotation), rotation),
        projected_of(
            n,
            depth_info,
            camera_info,
            rotation,
            camera_from_depth.translation,
            units_per_meter,
            u,
            v,
            raw,
            r,
        ),
        seen_at(m, depth_info, p, u as real, v as real),
        p.z * m.num(units_per_meter) == raw as real,
        m.moves(camera_from_depth, p).z != 0real,
        seen_at(m, camera_info, m.moves(camera_from_depth, p), at_u, at_v),
    ensures
        m.num(r.depth) == m.moves(camera_from_depth, p).z,
        r.u == held_within(nearest(at_u), i64::MIN as int, i64::MAX as int),
        r.v == held_within(nearest(at_v), i64::MIN as int, i64::MAX as int),
        r.raw == held_within(
            nearest(m.moves(camera_from_depth, p).z * m.num(units_per_meter)),
            i64::MIN as int,
            i64::MAX as int,
        ),
{
    let origin = camera_from_depth.translation;
    let t = choose|t: ProjectTrace| #[trigger]
        projected_by(
            n,
            depth_info,
            camera_info,
            rotation,
            origin,
            units_per_meter,
            u,
            v,
            raw,
            t,
            r,
        );
    let from = depth_info.intrinsics;
    let to = camera_info.intrinsics;
    lemma_ray_of(n, m, t.u, from[2], from[0], t.seen.z, t.seen.x);
    lemma_ray_of(n, m, t.v, from[5], from[4], t.seen.z, t.seen.y);
    let seen = m.vec(t.seen);
    lemma_commutes(seen.z, m.num(units_per_meter));
    lemma_commutes(p.z, m.num(units_per_meter));
    lemma_cancel(seen.z, p.z, m.num(units_per_meter));
    lemma_cancel(seen.x, p.x, m.num(from[0]));
    lemma_cancel(seen.y, p.y, m.num(from[4]));
    assert(seen == p);
    lemma_row(n, m, rotation.third, t.seen, origin.z, r.depth);
    lemma_row(n, m, rotation.first, t.seen, origin.x, t.x);
    lemma_row(n, m, rotation.second, t.seen, origin.y, t.y);
    let c = m.moves(camera_from_depth, p);
    assert(m.on(rotation, p) == m.turn(camera_from_depth.rotation, p));
    assert(m.num(r.depth) == c.z);
    assert(m.num(t.x) == c.x);
    assert(m.num(t.y) == c.y);
    lemma_coordinate(n, m, to[0], t.x, r.depth, to[2], r.u, at_u);
    lemma_coordinate(n, m, to[4], t.y, r.depth, to[5], r.v, at_v);
    lemma_whole_of_whole(nearest(c.z * m.num(units_per_meter)));
}

/// Law: what stands on the other camera's optical axis is projected on its principal point.
pub proof fn law_axis_is_projected_on_the_principal_point<N: Numerics>(
    n: &N,
    m: Meaning,
    depth_info: CameraModel,
    camera_info: CameraModel,
    camera_from_depth: Pose,
    rotation: Matrix3,
    units_per_meter: Scalar,
    u: i32,
    v: i32,
    raw: u16,
    r: Projection,
    p: Vec3,
    z: real,
)
    requires
        exact(n, m),
        focused(m, depth_info),
        m.num(units_per_meter) != 0real,
        call_ensures(N::rotation_matrix, (n, &camera_from_depth.rotation), rotation),
        projected_of(
            n,
            depth_info,
            camera_info,
            rotation,
            camera_from_depth.translation,
            units_per_meter,
            u,
            v,
            raw,
            r,
        ),
        seen_at(m, depth_info, p, u as real, v as real),
        p.z * m.num(units_per_meter) == raw as real,
        z != 0real,
        m.moves(camera_from_depth, p) == (Vec3 { x: 0real, y: 0real, z }),
    ensures
        m.num(r.depth) == z,
        r.u == held_within(
            nearest(m.num(camera_info.intrinsics[2])),
            i64::MIN as int,
            i64::MAX as int,
        ),
        r.v == held_within(
            nearest(m.num(camera_info.intrinsics[5])),
            i64::MIN as int,
            i64::MAX as int,
        ),
{
    let to = camera_info.intrinsics;
    let (a, b) = (m.num(to[2]), m.num(to[5]));
    assert((a - a) * z == 0real) by (nonlinear_arith);
    assert((b - b) * z == 0real) by (nonlinear_arith);
    lemma_times_zero(0real, m.num(to[0]));
    lemma_times_zero(0real, m.num(to[4]));
    law_projection_is_where_the_camera_sees_the_point(
        n,
        m,
        depth_info,
        camera_info,
        camera_from_depth,
        rotation,
        units_per_meter,
        u,
        v,
        raw,
        r,
        p,
        a,
        b,
    );
}

proof fn lemma_one_landing(
    landings: Seq<Option<Projection>>,
    info: CameraModel,
    index: int,
    k: int,
    count: nat,
)
    requires
        count <= landings.len(),
        0 <= k < landings.len(),
        landings[k] is Some,
        forall|i: int| 0 <= i < landings.len() && i != k ==> (#[trigger] landings[i]) is None,
    ensures
        landed(landings, info, index, count) == if k < count && lands_on(
            landings[k]->0,
            info,
            index,
        ) {
            stored((landings[k]->0).raw)
        } else {
            0
        },
    decreases count,
{
    if count > 0 {
        lemma_one_landing(landings, info, index, k, (count - 1) as nat);
    }
}

/// Law: a lone depth pixel is seen by the other camera where its point is. Every pixel of the
/// reprojected image is empty but the one nearest to where the camera sees the point, if that is in
/// front of it and within the image; it holds the point's depth in raw units.
pub proof fn law_lone_pixel_is_reprojected_to_its_point<N: Numerics>(
    n: &N,
    m: Meaning,
    order: ByteOrder,
    depth: ImageFrame,
    depth_info: CameraModel,
    camera_info: CameraModel,
    camera_from_depth: Pose,
    units_per_meter: Scalar,
    out: ImageFrame,
    u: int,
    v: int,
    p: Vec3,
    at_u: real,
    at_v: real,
    col: int,
    row: int,
)
    requires
        exact(n, m),
        focused(m, depth_info),
        m.num(units_per_meter) != 0real,
        reprojected(
            n,
            depth,
            order,
            depth_info,
            camera_info,
            camera_from_depth,
            units_per_meter,
            out,
        ),
        0 <= u < depth.width,
        0 <= v < depth.height,
        pixel(depth, order, u, v) != 0,
        forall|x: int, y: int|
            0 <= x < depth.width && 0 <= y < depth.height && !(x == u && y == v)
                ==> #[trigger] pixel(depth, order, x, y) == 0,
        seen_at(m, depth_info, p, u as real, v as real),
        p.z * m.num(units_per_meter) == pixel(depth, order, u, v) as real,
        m.moves(camera_from_depth, p).z > 0real,
        seen_at(m, camera_info, m.moves(camera_from_depth, p), at_u, at_v),
        0 <= col < camera_info.width,
        0 <= row < camera_info.height,
    ensures
        word(out.data@, order, row * camera_info.width + col) == if nearest(at_u) == col
            && nearest(at_v) == row {
            stored(
                held_within(
                    nearest(m.moves(camera_from_depth, p).z * m.num(units_per_meter)),
                    i64::MIN as int,
                    i64::MAX as int,
                ) as i64,
            )
        } else {
            0
        },
{
    let (rotation, landings) = choose|rotation: Matrix3, landings: Seq<Option<Projection>>|
        {
            &&& call_ensures(N::rotation_matrix, (n, &camera_from_depth.rotation), rotation)
            &&& #[trigger] landings_of(
                n,
                depth,
                order,
                depth_info,
                camera_info,
                rotation,
                camera_from_depth,
                units_per_meter,
                landings,
            )
            &&& reprojected_with(depth, order, camera_info, landings, out)
        };
    let (w, h) = (depth.width as int, depth.height as int);
    let k = v * w + u;
    assert(0 <= k < w * h) by (nonlinear_arith)
        requires
            0 <= u < w,
            0 <= v < h,
            k == v * w + u,
    ;
    let raw = pixel(depth, order, u, v);
    assert(landings[k] is Some);
    assert forall|i: int| 0 <= i < landings.len() && i != k implies (
    #[trigger] landings[i]) is None by {
        let x = i % w;
        let y = i / w;
        assert(0 <= x < w && 0 <= y < h && y * w + x == i) by (nonlinear_arith)
            requires
                0 <= i < w * h,
                w > 0,
                h > 0,
                x == i % w,
                y == i / w,
        ;
        assert(pixel(depth, order, x, y) == 0);
    }
    let r = landings[k]->0;
    law_projection_is_where_the_camera_sees_the_point(
        n,
        m,
        depth_info,
        camera_info,
        camera_from_depth,
        rotation,
        units_per_meter,
        u as i32,
        v as i32,
        raw,
        r,
        p,
        at_u,
        at_v,
    );
    let (cw, ch) = (camera_info.width as int, camera_info.height as int);
    let index = row * cw + col;
    assert(0 <= index < cw * ch) by (nonlinear_arith)
        requires
            0 <= col < cw,
            0 <= row < ch,
            index == row * cw + col,
    ;
    lemma_one_landing(landings, camera_info, index, k, landings.len());
    if lands_on(r, camera_info, index) {
        let (a, b) = (r.u as int, r.v as int);
        assert(a == col && b == row) by (nonlinear_arith)
            requires
                0 <= a < cw,
                0 <= col < cw,
                b * cw + a == row * cw + col,
        ;
    }
    assert(!r.depth.at_most(Scalar::zero())) by {
        if r.depth.at_most(Scalar::zero()) {
            assert(m.num(r.depth) <= m.num(Scalar::zero()));
        }
    }
}

/// Law: the near end of the range is the smallest raw depth that is far enough, and never zero.
pub proof fn law_near_end_is_the_smallest_depth_in_range<N: Numerics>(
    n: &N,
    m: Meaning,
    min_range: Scalar,
    units_per_meter: Scalar,
    r: u16,
    raw: u16,
)
    requires
        exact(n, m),
        near_raw_of(n, min_range, units_per_meter, r),
        m.num(min_range) * m.num(units_per_meter) <= 65535real,
        raw > 0,
    ensures
        r > 0,
        r <= raw <==> raw as real >= m.num(min_range) * m.num(units_per_meter),
{
    let (product, whole) = choose|product: Scalar, whole: Scalar|
        {
            &&& call_ensures(N::times, (n, min_range, units_per_meter), product)
            &&& #[trigger] call_ensures(N::ceil, (n, product), whole)
            &&& call_ensures(N::to_u16, (n, spec_larger(whole, Scalar::one())), r)
        };
    let x = m.num(product);
    let c: int = 0 - (0real - x).floor();
    assert(m.num(whole) == c as real);
    assert(!Scalar::one().nan());
    let larger = if c < 1 {
        1int
    } else {
        c
    };
    assert(m.num(spec_larger(whole, Scalar::one())) == larger as real) by {
        if whole.below(Scalar::one()) {
            assert(m.num(whole) < m.num(Scalar::one()));
        } else {
            assert(m.num(whole) >= m.num(Scalar::one()));
        }
    }
    lemma_whole_of_whole(larger);
    assert((0 - c) as real <= 0real - x);
    assert(0real - x < (0 - c) as real + 1real);
}

/// Law: the far end of the range is the largest raw depth that is not too far.
pub proof fn law_far_end_is_the_largest_depth_in_range<N: Numerics>(
    n: &N,
    m: Meaning,
    max_range: Scalar,
    units_per_meter: Scalar,
    r: u16,
    raw: u16,
)
    requires
        exact(n, m),
        far_raw_of(n, max_range, units_per_meter, r),
        m.num(max_range) * m.num(units_per_meter) >= 0real,
    ensures
        raw <= r <==> raw as real <= m.num(max_range) * m.num(units_per_meter),
{
    let largest = Scalar { bits: LARGEST_RAW_BITS };
    let (product, whole) = choose|product: Scalar, whole: Scalar|
        {
            &&& call_ensures(N::times, (n, max_range, units_per_meter), product)
            &&& #[trigger] call_ensures(N::floor, (n, spec_smaller(product, largest)), whole)
            &&& call_ensures(N::to_u16, (n, whole), r)
        };
    let x = m.num(product);
    let held = if 65535real < x {
        65535real
    } else {
        x
    };
    assert(!largest.nan());
    assert(m.num(spec_smaller(product, largest)) == held) by {
        if largest.below(product) {
            assert(m.num(largest) < m.num(product));
        } else {
            assert(m.num(largest) >= m.num(product));
        }
    }
    lemma_whole_of_whole(held.floor());
    assert(held.floor() as real <= held);
    assert(held < held.floor() as real + 1real);
}

/// Law: a raw depth that is taken to metres comes back from them.
pub proof fn law_metres_and_raw_depths_round_trip<N: Numerics>(
    n: &N,
    m: Meaning,
    raw: u16,
    units_per_meter: Scalar,
    metres: Single,
    r: u16,
)
    requires
        exact(n, m),
        m.num(units_per_meter) != 0real,
        meters_of(n, raw, units_per_meter, metres),
        raw_depth_of(n, metres, units_per_meter, r),
    ensures
        (m.single)(metres) * m.num(units_per_meter) == raw as real,
        r == raw,
{
    let t = choose|t: RawTrace| #[trigger] raw_depth_by(n, metres, units_per_meter, t, r);
    assert((m.single)(t.raw) == raw as real);
    assert(nearest(raw as real) == raw) by {
        lemma_nearest_of_whole(raw as int);
    }
    lemma_whole_of_whole(raw as int);
}

proof fn lemma_nearest_of_whole(a: int)
    requires
        a >= 0,
    ensures
        nearest(a as real) == a,
{
    let f = (a as real + 1real / 2real).floor();
    assert(f as real <= a as real + 1real / 2real);
    assert(a as real + 1real / 2real < f as real + 1real);
}

/// Law: a surface may lie between its neighbours by three tenths of a metre or a tenth of its
/// depth, whichever is more.
pub proof fn law_gap_margin_is_the_larger_of_two<N: Numerics>(
    n: &N,
    m: Meaning,
    units_per_meter: Scalar,
    raw: u16,
    r: i32,
)
    requires
        exact(n, m),
        gap_margin_of(n, units_per_meter, raw, r),
    ensures
        ({
            let fixed = (3real / 10real) * m.num(units_per_meter);
            let part = (1real / 10real) * raw as real;
            r == held_within(
                whole_part(
                    if fixed < part {
                        part
                    } else {
                        fixed
                    },
                ),
                i32::MIN as int,
                i32::MAX as int,
            )
        }),
{
    let t = choose|t: MarginTrace| #[trigger] gap_margin_by(n, units_per_meter, raw, t, r);
    if t.fixed.below(t.part) {
        assert(m.num(t.fixed) < m.num(t.part));
    } else {
        assert(m.num(t.fixed) >= m.num(t.part));
    }
}

} // verus!
