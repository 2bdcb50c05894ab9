//! Depth images give the same clouds and the same reprojections every time.

use vstd::prelude::*;

use crate::depth_cloud::{area_values, block_end, block_median, cloud_of, cut_by, far_end};
use crate::depth_cloud::{grid_of, kernel_of, pixels, points_of, row_pixels, row_values, Cell};
use crate::depth_cloud::{Grid, RangeGate};
use crate::depth_pixels::{pixel, written_here, ByteOrder};
use crate::depth_reproject::{depth_sized, landed, landings_of, reprojected, reprojected_with};
use crate::depth_reproject::word;
use crate::formulas::{coordinate_by, coordinate_of, depth_of, far_raw_of, gap_margin_by};
use crate::formulas::{gap_margin_of, half_of, near_raw_of, point_by, point_of, projected_by};
use crate::formulas::{projected_of, ray_by, ray_of, row_by, row_of, CoordinateTrace, MarginTrace};
use crate::formulas::{PointTrace, ProjectTrace, Projection, RayTrace, RowTrace};
use crate::numerics::Numerics;
use crate::repeatability::repeatable;
use crate::scalar::{Scalar, Single};
use crate::types::{CameraModel, ImageFrame, Matrix3, PointCloud, Pose, SingleVector, Vector3};

verus! {

/// The arithmetic on depths gives one result on given ones.
pub open spec fn depths_repeat<N: Numerics>(n: &N) -> bool {
    &&& forall|a: Scalar, r: Scalar, s: Scalar|
        #[trigger] call_ensures(N::ceil, (n, a), r)
            && #[trigger] call_ensures(N::ceil, (n, a), s) ==> r == s
    &&& forall|a: Scalar, r: Scalar, s: Scalar|
        #[trigger] call_ensures(N::floor, (n, a), r)
            && #[trigger] call_ensures(N::floor, (n, a), s) ==> r == s
    &&& forall|a: Scalar, r: Scalar, s: Scalar|
        #[trigger] call_ensures(N::round, (n, a), r)
            && #[trigger] call_ensures(N::round, (n, a), s) ==> r == s
    &&& forall|a: Scalar, r: i32, s: i32|
        #[trigger] call_ensures(N::to_i32, (n, a), r)
            && #[trigger] call_ensures(N::to_i32, (n, a), s) ==> r == s
    &&& forall|a: Scalar, r: u16, s: u16|
        #[trigger] call_ensures(N::to_u16, (n, a), r)
            && #[trigger] call_ensures(N::to_u16, (n, a), s) ==> r == s
    &&& forall|a: Scalar, r: Single, s: Single|
        #[trigger] call_ensures(N::narrow, (n, a), r)
            && #[trigger] call_ensures(N::narrow, (n, a), s) ==> r == s
}

/// All of the arithmetic is repeatable, that on depths too.
pub open spec fn all_repeatable<N: Numerics>(n: &N) -> bool {
    repeatable(n) && depths_repeat(n)
}

/// The machine has one byte order.
pub open spec fn one_byte_order() -> bool {
    forall|a: ByteOrder, b: ByteOrder|
        #[trigger] written_here(a) && #[trigger] written_here(b) ==> a == b
}

/// Two images that are the same.
pub open spec fn same_image(a: ImageFrame, b: ImageFrame) -> bool {
    &&& a.timestamp_ns == b.timestamp_ns
    &&& a.frame_id@ == b.frame_id@
    &&& a.width == b.width
    &&& a.height == b.height
    &&& a.encoding@ == b.encoding@
    &&& a.step == b.step
    &&& a.data@ == b.data@
}

/// Two clouds that are the same.
pub open spec fn same_cloud(a: PointCloud, b: PointCloud) -> bool {
    &&& a.timestamp_ns == b.timestamp_ns
    &&& a.frame_id@ == b.frame_id@
    &&& a.points@ == b.points@
}

proof fn lemma_depth_repeats<N: Numerics>(
    n: &N,
    raw: u16,
    units_per_meter: Scalar,
    a: Scalar,
    b: Scalar,
)
    requires
        repeatable(n),
        depth_of(n, raw, units_per_meter, a),
        depth_of(n, raw, units_per_meter, b),
    ensures
        a == b,
{
}

proof fn lemma_ray_repeats<N: Numerics>(
    n: &N,
    at: Scalar,
    center: Scalar,
    focal: Scalar,
    z: Scalar,
    a: Scalar,
    b: Scalar,
)
    requires
        repeatable(n),
        ray_of(n, at, center, focal, z, a),
        ray_of(n, at, center, focal, z, b),
    ensures
        a == b,
{
    let s = choose|t: RayTrace| #[trigger] ray_by(n, at, center, focal, z, t, a);
    let t = choose|t: RayTrace| #[trigger] ray_by(n, at, center, focal, z, t, b);
    assert(s.off == t.off);
    assert(s.slope == t.slope);
}

proof fn lemma_half_repeats<N: Numerics>(n: &N, twice: i64, a: Scalar, b: Scalar)
    requires
        repeatable(n),
        half_of(n, twice, a),
        half_of(n, twice, b),
    ensures
        a == b,
{
}

proof fn lemma_row_repeats<N: Numerics>(
    n: &N,
    row: Vector3,
    v: Vector3,
    offset: Scalar,
    a: Scalar,
    b: Scalar,
)
    requires
        repeatable(n),
        row_of(n, row, v, offset, a),
        row_of(n, row, v, offset, b),
    ensures
        a == b,
{
    let s = choose|t: RowTrace| #[trigger] row_by(n, row, v, offset, t, a);
    let t = choose|t: RowTrace| #[trigger] row_by(n, row, v, offset, t, b);
    assert(s.a == t.a);
    assert(s.b == t.b);
    assert(s.c == t.c);
    assert(s.ab == t.ab);
    assert(s.abc == t.abc);
}

proof fn lemma_coordinate_repeats<N: Numerics>(
    n: &N,
    focal: Scalar,
    x: Scalar,
    z: Scalar,
    center: Scalar,
    a: i64,
    b: i64,
)
    requires
        all_repeatable(n),
        coordinate_of(n, focal, x, z, center, a),
        coordinate_of(n, focal, x, z, center, b),
    ensures
        a == b,
{
    let s = choose|t: CoordinateTrace| #[trigger] coordinate_by(n, focal, x, z, center, t, a);
    let t = choose|t: CoordinateTrace| #[trigger] coordinate_by(n, focal, x, z, center, t, b);
    assert(s.wide == t.wide);
    assert(s.slope == t.slope);
    assert(s.at == t.at);
    assert(s.near == t.near);
}

proof fn lemma_projection_repeats<N: Numerics>(
    n: &N,
    depth_info: CameraModel,
    depth_again: CameraModel,
    camera_info: CameraModel,
    camera_again: CameraModel,
    rotation: Matrix3,
    origin: Vector3,
    units_per_meter: Scalar,
    u: i32,
    v: i32,
    raw: u16,
    a: Projection,
    b: Projection,
)
    requires
        all_repeatable(n),
        depth_info@ == depth_again@,
        camera_info@ == camera_again@,
        projected_of(
            n,
            depth_info,
            camera_info,
            rotation,
            origin,
            units_per_meter,
            u,
            v,
            raw,
            a,
        ),
        projected_of(
            n,
            depth_again,
            camera_again,
            rotation,
            origin,
            units_per_meter,
            u,
            v,
            raw,
            b,
        ),
    ensures
        a == b,
{
    assert(depth_info@.intrinsics == depth_again@.intrinsics);
    assert(camera_info@.intrinsics == camera_again@.intrinsics);
    let from = depth_info.intrinsics;
    let to = camera_info.intrinsics;
    let s = choose|t: ProjectTrace| #[trigger]
        projected_by(
            n,
            depth_info,
            camera_info,
            rotation,
            origin,
            units_per_meter,
            u,
            v,
            raw,
            t,
            a,
        );
    let t = choose|t: ProjectTrace| #[trigger]
        projected_by(
            n,
            depth_again,
            camera_again,
            rotation,
            origin,
            units_per_meter,
            u,
            v,
            raw,
            t,
            b,
        );
    assert(s.u == t.u);
    assert(s.v == t.v);
    lemma_depth_repeats(n, raw, units_per_meter, s.seen.z, t.seen.z);
    lemma_ray_repeats(n, s.u, from[2], from[0], s.seen.z, s.seen.x, t.seen.x);
    lemma_ray_repeats(n, s.v, from[5], from[4], s.seen.z, s.seen.y, t.seen.y);
    assert(s.seen == t.seen);
    lemma_row_repeats(n, rotation.third, s.seen, origin.z, a.depth, b.depth);
    lemma_row_repeats(n, rotation.first, s.seen, origin.x, s.x, t.x);
    lemma_row_repeats(n, rotation.second, s.seen, origin.y, s.y, t.y);
    lemma_coordinate_repeats(n, to[0], s.x, a.depth, to[2], a.u, b.u);
    lemma_coordinate_repeats(n, to[4], s.y, a.depth, to[5], a.v, b.v);
    assert(s.raw == t.raw);
    assert(s.near == t.near);
}

/// What lands on a pixel depends on the camera's size alone.
proof fn lemma_landed_repeats(
    landings: Seq<Option<Projection>>,
    info: CameraModel,
    again: CameraModel,
    index: int,
    count: nat,
)
    requires
        info.width == again.width,
        info.height == again.height,
    ensures
        landed(landings, info, index, count) == landed(landings, again, index, count),
    decreases count,
{
    if count > 0 {
        lemma_landed_repeats(landings, info, again, index, (count - 1) as nat);
    }
}

/// The two bytes of a value are one pair.
proof fn lemma_one_pair(order: ByteOrder, a: u8, b: u8, c: u8, d: u8)
    requires
        order.value(a, b) == order.value(c, d),
    ensures
        a == c,
        b == d,
{
}

/// Law: a depth image is reprojected the same way every time.
pub proof fn law_reprojection_repeats<N: Numerics>(
    n: &N,
    order: ByteOrder,
    depth: ImageFrame,
    depth_again: ImageFrame,
    depth_info: CameraModel,
    depth_info_again: CameraModel,
    camera_info: CameraModel,
    camera_info_again: CameraModel,
    camera_from_depth: Pose,
    units_per_meter: Scalar,
    a: ImageFrame,
    b: ImageFrame,
)
    requires
        all_repeatable(n),
        same_image(depth, depth_again),
        depth_info@ == depth_info_again@,
        camera_info@ == camera_info_again@,
        depth_sized(camera_info),
        reprojected(
            n,
            depth,
            order,
            depth_info,
            camera_info,
            camera_from_depth,
            units_per_meter,
            a,
        ),
        reprojected(
            n,
            depth_again,
            order,
            depth_info_again,
            camera_info_again,
            camera_from_depth,
            units_per_meter,
            b,
        ),
    ensures
        same_image(a, b),
{
    assert(camera_info@.width == camera_info_again@.width);
    assert(camera_info@.height == camera_info_again@.height);
    assert(camera_info@.frame_id == camera_info_again@.frame_id);
    let (ra, la) = choose|rotation: Matrix3, landings: Seq<Option<Projection>>|
        {
            &&& call_ensures(N::rotation_matrix, (n, &camera_from_depth.rotation), rotation)
            &&& #[trigger] landings_of(
                n,
                depth,
                order,
                depth_info,
                camera_info,
                rotation,
                camera_from_depth,
                units_per_meter,
                landings,
            )
            &&& reprojected_with(depth, order, camera_info, landings, a)
        };
    let (rb, lb) = choose|rotation: Matrix3, landings: Seq<Option<Projection>>|
        {
            &&& call_ensures(N::rotation_matrix, (n, &camera_from_depth.rotation), rotation)
            &&& #[trigger] landings_of(
                n,
                depth_again,
                order,
                depth_info_again,
                camera_info_again,
                rotation,
                camera_from_depth,
                units_per_meter,
                landings,
            )
            &&& reprojected_with(depth_again, order, camera_info_again, landings, b)
        };
    assert(ra == rb);
    let w = depth.width as int;
    let h = depth.height as int;
    assert(la.len() == lb.len());
    assert forall|i: int| 0 <= i < la.len() implies la[i] == lb[i] by {
        let u = i % w;
        let v = i / w;
        assert(0 <= u < w && 0 <= v < h && v * w + u == i) by (nonlinear_arith)
            requires
                0 <= i < w * h,
                w > 0,
                h > 0,
                u == i % w,
                v == i / w,
        ;
        let raw = pixel(depth, order, u, v);
        assert(raw == pixel(depth_again, order, u, v));
        if raw != 0 {
            lemma_projection_repeats(
                n,
                depth_info,
                depth_info_again,
                camera_info,
                camera_info_again,
                ra,
                camera_from_depth.translation,
                units_per_meter,
                u as i32,
                v as i32,
                raw,
                la[i]->0,
                lb[i]->0,
            );
        }
    }
    assert(la =~= lb);
    let cw = camera_info.width as int;
    let ch = camera_info.height as int;
    assert((2 * cw) * ch == 2 * (cw * ch)) by (nonlinear_arith);
    assert forall|k: int| 0 <= k < a.data@.len() implies a.data@[k] == b.data@[k] by {
        let index = k / 2;
        assert(word(a.data@, order, index) == landed(la, camera_info, index, la.len()));
        assert(word(b.data@, order, index) == landed(lb, camera_info_again, index, lb.len()));
        lemma_landed_repeats(la, camera_info, camera_info_again, index, la.len());
        lemma_one_pair(
            order,
            a.data@[2 * index],
            a.data@[2 * index + 1],
            b.data@[2 * index],
            b.data@[2 * index + 1],
        );
    }
    assert(a.data@ =~= b.data@);
}

proof fn lemma_row_values_repeat(
    a: ImageFrame,
    b: ImageFrame,
    order: ByteOrder,
    gate: RangeGate,
    v: int,
    from: int,
    to: int,
)
    requires
        same_image(a, b),
    ensures
        row_values(a, order, gate, v, from, to) == row_values(b, order, gate, v, from, to),
    decreases to - from,
{
    if to > from {
        lemma_row_values_repeat(a, b, order, gate, v, from, to - 1);
    }
}

proof fn lemma_area_values_repeat(
    a: ImageFrame,
    b: ImageFrame,
    order: ByteOrder,
    gate: RangeGate,
    left: int,
    right: int,
    top: int,
    bottom: int,
)
    requires
        same_image(a, b),
    ensures
        area_values(a, order, gate, left, right, top, bottom) == area_values(
            b,
            order,
            gate,
            left,
            right,
            top,
            bottom,
        ),
    decreases bottom - top,
{
    if bottom > top {
        lemma_area_values_repeat(a, b, order, gate, left, right, top, bottom - 1);
        lemma_row_values_repeat(a, b, order, gate, bottom - 1, left, right);
    }
}

proof fn lemma_row_pixels_repeat(
    a: ImageFrame,
    b: ImageFrame,
    order: ByteOrder,
    gate: RangeGate,
    v: int,
    count: int,
)
    requires
        same_image(a, b),
    ensures
        row_pixels(a, order, gate, v, count) == row_pixels(b, order, gate, v, count),
    decreases count,
{
    if count > 0 {
        lemma_row_pixels_repeat(a, b, order, gate, v, count - 1);
    }
}

proof fn lemma_pixels_repeat(
    a: ImageFrame,
    b: ImageFrame,
    order: ByteOrder,
    gate: RangeGate,
    count: int,
)
    requires
        same_image(a, b),
    ensures
        pixels(a, order, gate, count) == pixels(b, order, gate, count),
    decreases count,
{
    if count > 0 {
        lemma_pixels_repeat(a, b, order, gate, count - 1);
        lemma_row_pixels_repeat(a, b, order, gate, count - 1, a.width as int);
    }
}

/// Two grids that hold the same: the same medians, and the same margins where there is one.
spec fn grids_agree(g: Grid, h: Grid) -> bool {
    &&& g.across == h.across
    &&& g.down == h.down
    &&& g.kernel == h.kernel
    &&& forall|u: int, v: int|
        #![trigger g.median_at(u, v)]
        #![trigger h.median_at(u, v)]
        {
            &&& g.median_at(u, v) == h.median_at(u, v)
            &&& g.median_at(u, v) is Some ==> g.margins[v * g.across + u] == h.margins[v * h.across
                + u]
        }
}

proof fn lemma_row_cells_repeat(g: Grid, h: Grid, v: int, count: int)
    requires
        grids_agree(g, h),
    ensures
        g.row_cells(v, count) == h.row_cells(v, count),
    decreases count,
{
    if count > 0 {
        let u = count - 1;
        lemma_row_cells_repeat(g, h, v, u);
        if let Some(mid) = g.median_at(u, v) {
            assert(h.median_at(u, v) == Some(mid));
            let margin = g.margins[v * g.across + u];
            assert(margin == h.margins[v * h.across + u]);
            lemma_hanging_repeats(g, h, u, v, 1, 0, mid, margin);
            lemma_hanging_repeats(g, h, u, v, 0, 1, mid, margin);
            lemma_hanging_repeats(g, h, u, v, 1, 1, mid, margin);
            lemma_hanging_repeats(g, h, u, v, 1, -1, mid, margin);
            assert(g.mid_gap(u, v, mid) == h.mid_gap(u, v, mid));
        }
    }
}

proof fn lemma_hanging_repeats(
    g: Grid,
    h: Grid,
    u: int,
    v: int,
    du: int,
    dv: int,
    mid: u16,
    margin: i32,
)
    requires
        grids_agree(g, h),
    ensures
        g.hangs_between(u, v, du, dv, mid, margin) == h.hangs_between(u, v, du, dv, mid, margin),
{
    assert(g.median_at(u - du, v - dv) == h.median_at(u - du, v - dv));
    assert(g.median_at(u + du, v + dv) == h.median_at(u + du, v + dv));
}

proof fn lemma_cells_repeat(g: Grid, h: Grid, count: int)
    requires
        grids_agree(g, h),
    ensures
        g.cells(count) == h.cells(count),
    decreases count,
{
    if count > 0 {
        lemma_cells_repeat(g, h, count - 1);
        lemma_row_cells_repeat(g, h, count - 1, g.across);
    }
}

proof fn lemma_margin_repeats<N: Numerics>(
    n: &N,
    units_per_meter: Scalar,
    raw: u16,
    a: i32,
    b: i32,
)
    requires
        all_repeatable(n),
        gap_margin_of(n, units_per_meter, raw, a),
        gap_margin_of(n, units_per_meter, raw, b),
    ensures
        a == b,
{
    let s = choose|t: MarginTrace| #[trigger] gap_margin_by(n, units_per_meter, raw, t, a);
    let t = choose|t: MarginTrace| #[trigger] gap_margin_by(n, units_per_meter, raw, t, b);
    assert(s.fixed == t.fixed);
    assert(s.depth == t.depth);
    assert(s.part == t.part);
}

proof fn lemma_grid_repeats<N: Numerics>(
    n: &N,
    a: ImageFrame,
    b: ImageFrame,
    order: ByteOrder,
    gate: RangeGate,
    kernel: int,
    units_per_meter: Scalar,
    g: Grid,
    h: Grid,
)
    requires
        all_repeatable(n),
        same_image(a, b),
        grid_of(n, a, order, gate, kernel, units_per_meter, g),
        grid_of(n, b, order, gate, kernel, units_per_meter, h),
    ensures
        grids_agree(g, h),
{
    assert forall|u: int, v: int|
        #![trigger g.median_at(u, v)]
        #![trigger h.median_at(u, v)]
        {
            &&& g.median_at(u, v) == h.median_at(u, v)
            &&& g.median_at(u, v) is Some ==> g.margins[v * g.across + u] == h.margins[v * h.across
                + u]
        } by {
        if 0 <= u < g.across && 0 <= v < g.down {
            lemma_area_values_repeat(
                a,
                b,
                order,
                gate,
                u * kernel,
                block_end(u, kernel, a.width as int),
                v * kernel,
                block_end(v, kernel, a.height as int),
            );
            assert(block_median(a, order, gate, kernel, u, v) == block_median(
                b,
                order,
                gate,
                kernel,
                u,
                v,
            ));
            assert(g.median_at(u, v) == h.median_at(u, v));
            if let Some(mid) = g.median_at(u, v) {
                lemma_margin_repeats(
                    n,
                    units_per_meter,
                    mid,
                    g.margins[v * g.across + u],
                    h.margins[v * h.across + u],
                );
            }
        }
    }
}

proof fn lemma_point_repeats<N: Numerics>(
    n: &N,
    info: CameraModel,
    again: CameraModel,
    half_u: i64,
    half_v: i64,
    raw: u16,
    units_per_meter: Scalar,
    a: SingleVector,
    b: SingleVector,
)
    requires
        all_repeatable(n),
        info@ == again@,
        point_of(n, info, half_u, half_v, raw, units_per_meter, a),
        point_of(n, again, half_u, half_v, raw, units_per_meter, b),
    ensures
        a == b,
{
    assert(info@.intrinsics == again@.intrinsics);
    let k = info.intrinsics;
    let s = choose|t: PointTrace| #[trigger]
        point_by(n, info, half_u, half_v, raw, units_per_meter, t, a);
    let t = choose|t: PointTrace| #[trigger]
        point_by(n, again, half_u, half_v, raw, units_per_meter, t, b);
    lemma_half_repeats(n, half_u, s.u, t.u);
    lemma_half_repeats(n, half_v, s.v, t.v);
    lemma_depth_repeats(n, raw, units_per_meter, s.z, t.z);
    lemma_ray_repeats(n, s.u, k[2], k[0], s.z, s.x, t.x);
    lemma_ray_repeats(n, s.v, k[5], k[4], s.z, s.y, t.y);
}

proof fn lemma_points_repeat<N: Numerics>(
    n: &N,
    info: CameraModel,
    again: CameraModel,
    units_per_meter: Scalar,
    cells: Seq<Cell>,
    a: Seq<SingleVector>,
    b: Seq<SingleVector>,
)
    requires
        all_repeatable(n),
        info@ == again@,
        points_of(n, info, units_per_meter, cells, a),
        points_of(n, again, units_per_meter, cells, b),
    ensures
        a == b,
{
    assert forall|i: int| 0 <= i < a.len() implies a[i] == b[i] by {
        lemma_point_repeats(
            n,
            info,
            again,
            cells[i].half_u as i64,
            cells[i].half_v as i64,
            cells[i].raw,
            units_per_meter,
            a[i],
            b[i],
        );
    }
    assert(a =~= b);
}

proof fn lemma_range_repeats<N: Numerics>(
    n: &N,
    min_range: Scalar,
    max_range: Scalar,
    units_per_meter: Scalar,
    a: RangeGate,
    b: RangeGate,
)
    requires
        all_repeatable(n),
        near_raw_of(n, min_range, units_per_meter, a.near),
        near_raw_of(n, min_range, units_per_meter, b.near),
        far_raw_of(n, max_range, units_per_meter, a.far),
        far_raw_of(n, max_range, units_per_meter, b.far),
    ensures
        a == b,
{
}

/// Law: a depth image gives the same cloud every time.
pub proof fn law_cloud_repeats<N: Numerics>(
    n: &N,
    order: ByteOrder,
    depth: ImageFrame,
    depth_again: ImageFrame,
    info: CameraModel,
    info_again: CameraModel,
    units_per_meter: Scalar,
    min_range: Scalar,
    max_range: Scalar,
    decimation: u32,
    a: PointCloud,
    b: PointCloud,
)
    requires
        all_repeatable(n),
        same_image(depth, depth_again),
        info@ == info_again@,
        cloud_of(
            n,
            depth,
            order,
            info,
            units_per_meter,
            min_range,
            max_range,
            decimation,
            a,
        ),
        cloud_of(
            n,
            depth_again,
            order,
            info_again,
            units_per_meter,
            min_range,
            max_range,
            decimation,
            b,
        ),
    ensures
        same_cloud(a, b),
{
    let kernel = kernel_of(decimation);
    let (na, fa) = choose|near: u16, far: u16|
        {
            &&& #[trigger] near_raw_of(n, min_range, units_per_meter, near)
            &&& #[trigger] far_raw_of(n, far_end(max_range), units_per_meter, far)
            &&& cut_by(
                n,
                depth,
                order,
                info,
                units_per_meter,
                RangeGate { near, far },
                kernel,
                a.points@,
            )
        };
    let (nb, fb) = choose|near: u16, far: u16|
        {
            &&& #[trigger] near_raw_of(n, min_range, units_per_meter, near)
            &&& #[trigger] far_raw_of(n, far_end(max_range), units_per_meter, far)
            &&& cut_by(
                n,
                depth_again,
                order,
                info_again,
                units_per_meter,
                RangeGate { near, far },
                kernel,
                b.points@,
            )
        };
    let gate = RangeGate { near: na, far: fa };
    lemma_range_repeats(
        n,
        min_range,
        far_end(max_range),
        units_per_meter,
        gate,
        RangeGate { near: nb, far: fb },
    );
    if kernel == 1 {
        lemma_pixels_repeat(depth, depth_again, order, gate, depth.height as int);
        let cells = pixels(depth, order, gate, depth.height as int);
        lemma_points_repeat(n, info, info_again, units_per_meter, cells, a.points@, b.points@);
    } else {
        let g = choose|grid: Grid|
            {
                &&& #[trigger] grid_of(n, depth, order, gate, kernel, units_per_meter, grid)
                &&& points_of(n, info, units_per_meter, grid.cells(grid.down), a.points@)
            };
        let h = choose|grid: Grid|
            {
                &&& #[trigger] grid_of(n, depth_again, order, gate, kernel, units_per_meter, grid)
                &&& points_of(n, info_again, units_per_meter, grid.cells(grid.down), b.points@)
            };
        lemma_grid_repeats(n, depth, depth_again, order, gate, kernel, units_per_meter, g, h);
        lemma_cells_repeat(g, h, g.down);
        lemma_points_repeat(
            n,
            info,
            info_again,
            units_per_meter,
            g.cells(g.down),
            a.points@,
            b.points@,
        );
    }
}

} // verus!
