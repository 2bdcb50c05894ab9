//! A range-gated point cloud from a depth image, in the depth sensor's own frame.

use vstd::prelude::*;
use vstd::relations::sorted_by;
use vstd::seq_lib::*;

use crate::depth_pixels::{pixel, pixel_at, whole, ByteOrder};
use crate::formulas::{far_raw, far_raw_of, gap_margin, gap_margin_of, near_raw, near_raw_of};
use crate::formulas::{point, point_of};
use crate::numerics::Numerics;
use crate::scalar::Scalar;
use crate::types::{CameraModel, ImageFrame, PointCloud, SingleVector};

verus! {

/// The raw depths that are taken: from `near` to `far`.
#[derive(Clone, Copy, Debug, PartialEq, Eq, Structural)]
pub struct RangeGate {
    pub near: u16,
    pub far: u16,
}

impl RangeGate {
    pub open spec fn takes(self, raw: u16) -> bool {
        self.near <= raw <= self.far
    }
}

/// A depth reading and where it stands: twice its column and row, as the middle of a block can
/// lie between two pixels.
pub struct Cell {
    pub half_u: int,
    pub half_v: int,
    pub raw: u16,
}

/// From small to large.
pub open spec fn by_size() -> spec_fn(u16, u16) -> bool {
    |a: u16, b: u16| a <= b
}

/// The value that half of the others do not exceed: the upper one of the middle two, if they are
/// even in number.
pub open spec fn median(values: Seq<u16>) -> u16 {
    values.sort_by(by_size())[values.len() as int / 2]
}

/// The depths that the range takes in columns `from` to `to` of row `v`.
pub open spec fn row_values(
    depth: ImageFrame,
    order: ByteOrder,
    gate: RangeGate,
    v: int,
    from: int,
    to: int,
) -> Seq<u16>
    decreases to - from,
{
    if to <= from {
        Seq::empty()
    } else {
        let before = row_values(depth, order, gate, v, from, to - 1);
        let raw = pixel(depth, order, to - 1, v);
        if gate.takes(raw) {
            before.push(raw)
        } else {
            before
        }
    }
}

/// The depths that the range takes in columns `left` to `right` of rows `top` to `bottom`.
pub open spec fn area_values(
    depth: ImageFrame,
    order: ByteOrder,
    gate: RangeGate,
    left: int,
    right: int,
    top: int,
    bottom: int,
) -> Seq<u16>
    decreases bottom - top,
{
    if bottom <= top {
        Seq::empty()
    } else {
        area_values(depth, order, gate, left, right, top, bottom - 1) + row_values(
            depth,
            order,
            gate,
            bottom - 1,
            left,
            right,
        )
    }
}

/// Blocks of `kernel` pixels that cover an extent.
pub open spec fn blocks(extent: int, kernel: int) -> int {
    if extent <= 0 {
        0
    } else {
        (extent + kernel - 1) / kernel
    }
}

/// Where a block ends: the image's edge may cut it short.
pub open spec fn block_end(block: int, kernel: int, extent: int) -> int {
    if (block + 1) * kernel < extent {
        (block + 1) * kernel
    } else {
        extent
    }
}

/// The median of a block, if at least half as many depths as a full block has pixels are taken.
pub open spec fn block_median(
    depth: ImageFrame,
    order: ByteOrder,
    gate: RangeGate,
    kernel: int,
    block_u: int,
    block_v: int,
) -> Option<u16> {
    let values = area_values(
        depth,
        order,
        gate,
        block_u * kernel,
        block_end(block_u, kernel, depth.width as int),
        block_v * kernel,
        block_end(block_v, kernel, depth.height as int),
    );
    if values.len() < kernel * kernel / 2 {
        None
    } else {
        Some(median(values))
    }
}

/// The blocks of an image: their medians, and how far each may lie between its neighbours.
pub struct Grid {
    pub across: int,
    pub down: int,
    pub kernel: int,
    pub medians: Seq<Option<u16>>,
    pub margins: Seq<i32>,
}

impl Grid {
    /// The median of a block; none beyond the image.
    pub open spec fn median_at(self, block_u: int, block_v: int) -> Option<u16> {
        if 0 <= block_u < self.across && 0 <= block_v < self.down {
            self.medians[block_v * self.across + block_u]
        } else {
            None
        }
    }

    /// A depth of `mid` hangs in the gap between the two blocks on either side: farther than the
    /// margin from both.
    pub open spec fn hangs_between(
        self,
        block_u: int,
        block_v: int,
        du: int,
        dv: int,
        mid: u16,
        margin: i32,
    ) -> bool {
        match (
            self.median_at(block_u - du, block_v - dv),
            self.median_at(block_u + du, block_v + dv),
        ) {
            (Some(a), Some(b)) => {
                let near = if a < b { a } else { b };
                let far = if a < b { b } else { a };
                near + margin < mid && mid < far - margin
            },
            _ => false,
        }
    }

    /// The block hangs in the gap between the neighbours along a row, a column or a diagonal: it
    /// is air.
    pub open spec fn mid_gap(self, block_u: int, block_v: int, mid: u16) -> bool {
        let margin = self.margins[block_v * self.across + block_u];
        ||| self.hangs_between(block_u, block_v, 1, 0, mid, margin)
        ||| self.hangs_between(block_u, block_v, 0, 1, mid, margin)
        ||| self.hangs_between(block_u, block_v, 1, 1, mid, margin)
        ||| self.hangs_between(block_u, block_v, 1, -1, mid, margin)
    }

    /// The middles of the first `count` blocks of a row, without the empty ones and those that
    /// hang in a gap.
    pub open spec fn row_cells(self, block_v: int, count: int) -> Seq<Cell>
        decreases count,
    {
        if count <= 0 {
            Seq::empty()
        } else {
            let block_u = count - 1;
            let before = self.row_cells(block_v, block_u);
            match self.median_at(block_u, block_v) {
                Some(mid) => if self.mid_gap(block_u, block_v, mid) {
                    before
                } else {
                    before.push(
                        Cell {
                            half_u: 2 * (block_u * self.kernel) + self.kernel - 1,
                            half_v: 2 * (block_v * self.kernel) + self.kernel - 1,
                            raw: mid,
                        },
                    )
                },
                None => before,
            }
        }
    }

    /// See [`Grid::row_cells`]: those of the first `count` rows.
    pub open spec fn cells(self, count: int) -> Seq<Cell>
        decreases count,
    {
        if count <= 0 {
            Seq::empty()
        } else {
            self.cells(count - 1) + self.row_cells(count - 1, self.across)
        }
    }
}

/// The grid is that of the image.
pub open spec fn grid_of<N: Numerics>(
    n: &N,
    depth: ImageFrame,
    order: ByteOrder,
    gate: RangeGate,
    kernel: int,
    units_per_meter: Scalar,
    grid: Grid,
) -> bool {
    &&& grid.kernel == kernel
    &&& grid.across == blocks(depth.width as int, kernel)
    &&& grid.down == blocks(depth.height as int, kernel)
    &&& forall|block_u: int, block_v: int|
        #![trigger grid.median_at(block_u, block_v)]
        0 <= block_u < grid.across && 0 <= block_v < grid.down ==> {
            let at = block_v * grid.across + block_u;
            &&& grid.median_at(block_u, block_v) == block_median(
                depth,
                order,
                gate,
                kernel,
                block_u,
                block_v,
            )
            &&& grid.median_at(block_u, block_v) matches Some(mid) ==> gap_margin_of(
                n,
                units_per_meter,
                mid,
                grid.margins[at],
            )
        }
}

/// The pixels that the range takes among the first `count` of row `v`.
pub open spec fn row_pixels(
    depth: ImageFrame,
    order: ByteOrder,
    gate: RangeGate,
    v: int,
    count: int,
) -> Seq<Cell>
    decreases count,
{
    if count <= 0 {
        Seq::empty()
    } else {
        let before = row_pixels(depth, order, gate, v, count - 1);
        let raw = pixel(depth, order, count - 1, v);
        if gate.takes(raw) {
            before.push(Cell { half_u: 2 * (count - 1), half_v: 2 * v, raw })
        } else {
            before
        }
    }
}

/// The pixels that the range takes in the first `count` rows.
pub open spec fn pixels(depth: ImageFrame, order: ByteOrder, gate: RangeGate, count: int) -> Seq<
    Cell,
>
    decreases count,
{
    if count <= 0 {
        Seq::empty()
    } else {
        pixels(depth, order, gate, count - 1) + row_pixels(
            depth,
            order,
            gate,
            count - 1,
            depth.width as int,
        )
    }
}

/// `points` are the cells' points.
pub open spec fn points_of<N: Numerics>(
    n: &N,
    info: CameraModel,
    units_per_meter: Scalar,
    cells: Seq<Cell>,
    points: Seq<SingleVector>,
) -> bool {
    &&& points.len() == cells.len()
    &&& forall|i: int|
        0 <= i < cells.len() ==> point_of(
            n,
            info,
            cells[i].half_u as i64,
            cells[i].half_v as i64,
            cells[i].raw,
            units_per_meter,
            #[trigger] points[i],
        )
}

/// `points` are what is cut from the image by this gate: every pixel it takes, or with a kernel
/// above one the median of each block that is not air.
pub open spec fn cut_by<N: Numerics>(
    n: &N,
    depth: ImageFrame,
    order: ByteOrder,
    info: CameraModel,
    units_per_meter: Scalar,
    gate: RangeGate,
    kernel: int,
    points: Seq<SingleVector>,
) -> bool {
    if kernel == 1 {
        points_of(n, info, units_per_meter, pixels(depth, order, gate, depth.height as int), points)
    } else {
        exists|grid: Grid|
            {
                &&& #[trigger] grid_of(n, depth, order, gate, kernel, units_per_meter, grid)
                &&& points_of(n, info, units_per_meter, grid.cells(grid.down), points)
            }
    }
}

/// The far end of the range: not above zero leaves it open.
pub open spec fn far_end(max_range: Scalar) -> Scalar {
    if max_range.positive() {
        max_range
    } else {
        Scalar::infinity()
    }
}

/// The side of a block: at least one pixel.
pub open spec fn kernel_of(decimation: u32) -> int {
    if decimation < 1 {
        1
    } else {
        decimation as int
    }
}

/// `cloud` is the depth image's range-gated cloud.
pub open spec fn cloud_of<N: Numerics>(
    n: &N,
    depth: ImageFrame,
    order: ByteOrder,
    info: CameraModel,
    units_per_meter: Scalar,
    min_range: Scalar,
    max_range: Scalar,
    decimation: u32,
    cloud: PointCloud,
) -> bool {
    &&& cloud.timestamp_ns == depth.timestamp_ns
    &&& cloud.frame_id@ == depth.frame_id@
    &&& exists|near: u16, far: u16|
        {
            &&& #[trigger] near_raw_of(n, min_range, units_per_meter, near)
            &&& #[trigger] far_raw_of(n, far_end(max_range), units_per_meter, far)
            &&& cut_by(
                n,
                depth,
                order,
                info,
                units_per_meter,
                RangeGate { near, far },
                kernel_of(decimation),
                cloud.points@,
            )
        }
}

/// The size order is a total one.
proof fn lemma_by_size()
    ensures
        vstd::relations::total_ordering(by_size()),
{
}

/// Puts a value in its place among sorted ones.
fn insert_sorted(block: &mut Vec<u16>, value: u16)
    requires
        sorted_by(old(block)@, by_size()),
    ensures
        sorted_by(final(block)@, by_size()),
        final(block)@.to_multiset() == old(block)@.to_multiset().insert(value),
        final(block)@.len() == old(block)@.len() + 1,
{
    let ghost before = block@;
    let mut at: usize = block.len();
    while at > 0 && block[at - 1] > value
        invariant
            block@ == before,
            sorted_by(before, by_size()),
            at <= before.len(),
            forall|k: int| at <= k < before.len() ==> value <= before[k],
        decreases at,
    {
        at -= 1;
    }
    proof {
        assert forall|k: int| 0 <= k < at implies before[k] <= value by {
            if k < at - 1 {
                assert(by_size()(before[k], before[at - 1]));
            }
        }
        to_multiset_insert(before, at as int, value);
    }
    block.insert(at, value);
    assert(block@ == before.insert(at as int, value));
    assert forall|i: int, j: int| 0 <= i < j < block@.len() implies #[trigger] by_size()(
        block@[i],
        block@[j],
    ) by {
        let a = if i < at { i } else { i - 1 };
        let b = if j < at { j } else { j - 1 };
        if i != at && j != at {
            assert(by_size()(before[a], before[b]));
        }
    }
}

/// The middle one of sorted values is their median.
proof fn lemma_median(sorted: Seq<u16>, values: Seq<u16>)
    requires
        sorted_by(sorted, by_size()),
        sorted.to_multiset() == values.to_multiset(),
        values.len() > 0,
    ensures
        sorted.len() == values.len(),
        sorted[sorted.len() as int / 2] == median(values),
{
    lemma_by_size();
    values.lemma_sort_by_ensures(by_size());
    lemma_sorted_unique(sorted, values.sort_by(by_size()), by_size());
    to_multiset_len(sorted);
    to_multiset_len(values);
}

/// Blocks cover an extent without one too many.
proof fn lemma_blocks(extent: int, kernel: int)
    requires
        0 < extent,
        1 <= kernel,
    ensures
        1 <= blocks(extent, kernel) <= extent,
        forall|b: int| 0 <= b < blocks(extent, kernel) ==> 0 <= #[trigger] (b * kernel) < extent,
{
    let count = blocks(extent, kernel);
    assert(count * kernel <= extent + kernel - 1 < count * kernel + kernel) by (nonlinear_arith)
        requires
            count == (extent + kernel - 1) / kernel,
            1 <= kernel,
    ;
    assert(1 <= count <= extent) by (nonlinear_arith)
        requires
            count * kernel <= extent + kernel - 1 < count * kernel + kernel,
            1 <= kernel,
            0 < extent,
    ;
    assert forall|b: int| 0 <= b < count implies 0 <= #[trigger] (b * kernel) < extent by {
        assert(0 <= b * kernel && b * kernel + kernel <= count * kernel) by (nonlinear_arith)
            requires
                0 <= b < count,
                1 <= kernel,
        ;
    }
}

/// The depths of an area that the range takes, sorted.
fn gather(
    depth: &ImageFrame,
    order: ByteOrder,
    gate: RangeGate,
    left: i32,
    right: i32,
    top: i32,
    bottom: i32,
) -> (block: Vec<u16>)
    requires
        whole(*depth),
        0 <= left <= right <= depth.width,
        0 <= top <= bottom <= depth.height,
    ensures
        sorted_by(block@, by_size()),
        block@.to_multiset() == area_values(
            *depth,
            order,
            gate,
            left as int,
            right as int,
            top as int,
            bottom as int,
        ).to_multiset(),
{
    let mut block: Vec<u16> = Vec::new();
    let ghost mut taken: Seq<u16> = Seq::empty();
    let mut v: i32 = top;
    while v < bottom
        invariant
            whole(*depth),
            0 <= left <= right <= depth.width,
            0 <= top <= v <= bottom <= depth.height,
            sorted_by(block@, by_size()),
            taken == area_values(
                *depth,
                order,
                gate,
                left as int,
                right as int,
                top as int,
                v as int,
            ),
            block@.to_multiset() == taken.to_multiset(),
        decreases bottom - v,
    {
        let ghost rows = taken;
        assert(rows + row_values(*depth, order, gate, v as int, left as int, left as int) =~= rows);
        let mut u: i32 = left;
        while u < right
            invariant
                whole(*depth),
                0 <= left <= u <= right <= depth.width,
                0 <= top <= v < bottom <= depth.height,
                sorted_by(block@, by_size()),
                taken == rows + row_values(
                    *depth,
                    order,
                    gate,
                    v as int,
                    left as int,
                    u as int,
                ),
                block@.to_multiset() == taken.to_multiset(),
            decreases right - u,
        {
            let raw: u16 = pixel_at(depth, order, u, v);
            if gate.near <= raw && raw <= gate.far {
                insert_sorted(&mut block, raw);
                proof {
                    to_multiset_build(taken, raw);
                    taken = taken.push(raw);
                }
            }
            u += 1;
            assert(taken =~= rows + row_values(
                *depth,
                order,
                gate,
                v as int,
                left as int,
                u as int,
            ));
        }
        v += 1;
    }
    block
}

/// Where a block ends.
fn end_of_block(block: i64, kernel: i64, extent: i32) -> (end: i32)
    requires
        0 <= block,
        1 <= kernel <= u32::MAX,
        0 <= block * kernel < extent,
    ensures
        end == block_end(block as int, kernel as int, extent as int),
        block * kernel <= end <= extent,
{
    assert((block + 1) * kernel == block * kernel + kernel) by (nonlinear_arith);
    let end: i64 = (block + 1) * kernel;
    if end < extent as i64 {
        end as i32
    } else {
        extent
    }
}

/// The median of a block.
fn find_median(
    depth: &ImageFrame,
    order: ByteOrder,
    gate: RangeGate,
    kernel: i64,
    block_u: i64,
    block_v: i64,
) -> (r: Option<u16>)
    requires
        whole(*depth),
        2 <= kernel <= u32::MAX,
        0 <= block_u < blocks(depth.width as int, kernel as int),
        0 <= block_v < blocks(depth.height as int, kernel as int),
    ensures
        r == block_median(*depth, order, gate, kernel as int, block_u as int, block_v as int),
{
    proof {
        lemma_blocks(depth.width as int, kernel as int);
        lemma_blocks(depth.height as int, kernel as int);
        assert(0 <= block_u * kernel < depth.width);
        assert(0 <= block_v * kernel < depth.height);
    }
    let left: i32 = (block_u * kernel) as i32;
    let top: i32 = (block_v * kernel) as i32;
    let right: i32 = end_of_block(block_u, kernel, depth.width);
    let bottom: i32 = end_of_block(block_v, kernel, depth.height);
    let block = gather(depth, order, gate, left, right, top, bottom);
    let ghost values = area_values(
        *depth,
        order,
        gate,
        left as int,
        right as int,
        top as int,
        bottom as int,
    );
    assert(4 <= kernel * kernel <= 0xffff_ffff * 0xffff_ffff) by (nonlinear_arith)
        requires
            2 <= kernel <= 0xffff_ffff,
    ;
    proof {
        to_multiset_len(block@);
        to_multiset_len(values);
    }
    let side: u64 = kernel as u64;
    assert(side * side == kernel * kernel);
    if (block.len() as u64) < side * side / 2 {
        return None;
    }
    proof {
        lemma_median(block@, values);
    }
    Some(block[block.len() / 2])
}

/// The number of a block, counted row by row.
proof fn lemma_block_number(across: int, down: int, block_u: int, block_v: int)
    requires
        0 <= block_u < across,
        0 <= block_v < down,
    ensures
        0 <= block_v * across,
        0 <= block_v * across + block_u < across * down,
{
    assert(0 <= block_v * across && block_v * across + across <= across * down) by (nonlinear_arith)
        requires
            0 <= block_v < down,
            0 <= across,
    ;
}

/// The blocks of an image.
struct BlockGrid {
    across: i64,
    down: i64,
    kernel: i64,
    medians: Vec<Option<u16>>,
    margins: Vec<i32>,
}

impl BlockGrid {
    spec fn grid(&self) -> Grid {
        Grid {
            across: self.across as int,
            down: self.down as int,
            kernel: self.kernel as int,
            medians: self.medians@,
            margins: self.margins@,
        }
    }

    spec fn sound(&self) -> bool {
        &&& 0 <= self.across <= i32::MAX
        &&& 0 <= self.down <= i32::MAX
        &&& 2 <= self.kernel <= u32::MAX
        &&& self.medians@.len() == self.across * self.down
        &&& self.margins@.len() == self.across * self.down
        &&& forall|b: int| 0 <= b < self.across ==> 0 <= #[trigger] (b * self.kernel) < i32::MAX
        &&& forall|b: int| 0 <= b < self.down ==> 0 <= #[trigger] (b * self.kernel) < i32::MAX
    }

    fn index(&self, block_u: i64, block_v: i64) -> (index: usize)
        requires
            self.sound(),
            0 <= block_u < self.across,
            0 <= block_v < self.down,
        ensures
            index == block_v * self.across + block_u,
            index < self.medians@.len(),
            index < self.margins@.len(),
    {
        proof {
            lemma_block_number(
                self.across as int,
                self.down as int,
                block_u as int,
                block_v as int,
            );
            assert(self.medians.len() <= usize::MAX);
            assert(block_v * self.across <= 0x7fff_ffff * 0x7fff_ffff) by (nonlinear_arith)
                requires
                    0 <= block_v <= 0x7fff_ffff,
                    0 <= self.across <= 0x7fff_ffff,
            ;
        }
        (block_v * self.across + block_u) as usize
    }

    fn median_at(&self, block_u: i64, block_v: i64) -> (r: Option<u16>)
        requires
            self.sound(),
        ensures
            r == self.grid().median_at(block_u as int, block_v as int),
    {
        if block_u < 0 || block_v < 0 || block_u >= self.across || block_v >= self.down {
            return None;
        }
        self.medians[self.index(block_u, block_v)]
    }

    fn hangs_between(
        &self,
        block_u: i64,
        block_v: i64,
        du: i64,
        dv: i64,
        mid: u16,
        margin: i32,
    ) -> (r: bool)
        requires
            self.sound(),
            0 <= block_u < self.across,
            0 <= block_v < self.down,
            -1 <= du <= 1,
            -1 <= dv <= 1,
        ensures
            r == self.grid().hangs_between(
                block_u as int,
                block_v as int,
                du as int,
                dv as int,
                mid,
                margin,
            ),
    {
        let before = self.median_at(block_u - du, block_v - dv);
        let after = self.median_at(block_u + du, block_v + dv);
        match (before, after) {
            (Some(a), Some(b)) => {
                let near: i64 = if a < b { a as i64 } else { b as i64 };
                let far: i64 = if a < b { b as i64 } else { a as i64 };
                near + (margin as i64) < mid as i64 && (mid as i64) < far - margin as i64
            },
            _ => false,
        }
    }

    fn mid_gap(&self, block_u: i64, block_v: i64, mid: u16) -> (r: bool)
        requires
            self.sound(),
            0 <= block_u < self.across,
            0 <= block_v < self.down,
        ensures
            r == self.grid().mid_gap(block_u as int, block_v as int, mid),
    {
        let margin: i32 = self.margins[self.index(block_u, block_v)];
        self.hangs_between(block_u, block_v, 1, 0, mid, margin) || self.hangs_between(
            block_u,
            block_v,
            0,
            1,
            mid,
            margin,
        ) || self.hangs_between(block_u, block_v, 1, 1, mid, margin) || self.hangs_between(
            block_u,
            block_v,
            1,
            -1,
            mid,
            margin,
        )
    }

    /// The blocks of an image.
    fn new<N: Numerics>(
        n: &N,
        depth: &ImageFrame,
        order: ByteOrder,
        gate: RangeGate,
        kernel: i64,
        units_per_meter: Scalar,
    ) -> (r: BlockGrid)
        requires
            whole(*depth),
            2 <= kernel <= u32::MAX,
        ensures
            r.sound(),
            grid_of(n, *depth, order, gate, kernel as int, units_per_meter, r.grid()),
    {
        let across: i64 = count_blocks(depth.width, kernel);
        let down: i64 = count_blocks(depth.height, kernel);
        let mut medians: Vec<Option<u16>> = Vec::new();
        let mut margins: Vec<i32> = Vec::new();
        assert(0 * across == 0) by (nonlinear_arith);
        let mut block_v: i64 = 0;
        while block_v < down
            invariant
                whole(*depth),
                2 <= kernel <= u32::MAX,
                across == blocks(depth.width as int, kernel as int),
                down == blocks(depth.height as int, kernel as int),
                0 <= across <= i32::MAX,
                0 <= block_v <= down <= i32::MAX,
                medians@.len() == block_v * across,
                margins@.len() == block_v * across,
                forall|x: int, y: int|
                    #![trigger medians@[y * across + x]]
                    0 <= x < across && 0 <= y < block_v ==> entry_sound(
                        n,
                        *depth,
                        order,
                        gate,
                        kernel as int,
                        units_per_meter,
                        x,
                        y,
                        medians@[y * across + x],
                        margins@[y * across + x],
                    ),
            decreases down - block_v,
        {
            assert forall|x: int, y: int|
                #![trigger medians@[y * across + x]]
                0 <= x < across && 0 <= y && y * across + x < block_v * across implies entry_sound(
                n,
                *depth,
                order,
                gate,
                kernel as int,
                units_per_meter,
                x,
                y,
                medians@[y * across + x],
                margins@[y * across + x],
            ) by {
                assert(y < block_v) by (nonlinear_arith)
                    requires
                        y * across + x < block_v * across,
                        0 <= x < across,
                ;
            }
            let mut block_u: i64 = 0;
            while block_u < across
                invariant
                    whole(*depth),
                    2 <= kernel <= u32::MAX,
                    across == blocks(depth.width as int, kernel as int),
                    down == blocks(depth.height as int, kernel as int),
                    0 <= block_u <= across <= i32::MAX,
                    0 <= block_v < down <= i32::MAX,
                    medians@.len() == block_v * across + block_u,
                    margins@.len() == block_v * across + block_u,
                    forall|x: int, y: int|
                        #![trigger medians@[y * across + x]]
                        0 <= x < across && 0 <= y && y * across + x < block_v * across + block_u
                            ==> entry_sound(
                            n,
                            *depth,
                            order,
                            gate,
                            kernel as int,
                            units_per_meter,
                            x,
                            y,
                            medians@[y * across + x],
                            margins@[y * across + x],
                        ),
                decreases across - block_u,
            {
                let ghost held = medians@;
                let mid = find_median(depth, order, gate, kernel, block_u, block_v);
                let margin: i32 = match mid {
                    Some(mid) => gap_margin(n, units_per_meter, mid),
                    None => 0,
                };
                medians.push(mid);
                margins.push(margin);
                assert forall|x: int, y: int|
                    #![trigger medians@[y * across + x]]
                    0 <= x < across && 0 <= y && y * across + x < block_v * across + block_u
                        + 1 implies entry_sound(
                    n,
                    *depth,
                    order,
                    gate,
                    kernel as int,
                    units_per_meter,
                    x,
                    y,
                    medians@[y * across + x],
                    margins@[y * across + x],
                ) by {
                    let at = y * across + x;
                    assert(0 <= at) by (nonlinear_arith)
                        requires
                            at == y * across + x,
                            0 <= y,
                            0 <= x < across,
                    ;
                    if at == block_v * across + block_u {
                        lemma_same_block(across as int, x, y, block_u as int, block_v as int);
                    } else {
                        assert(medians@[at] == held[at]);
                    }
                }
                block_u += 1;
            }
            assert((block_v + 1) * across == block_v * across + across) by (nonlinear_arith);
            assert forall|x: int, y: int|
                #![trigger medians@[y * across + x]]
                0 <= x < across && 0 <= y < block_v + 1 implies entry_sound(
                n,
                *depth,
                order,
                gate,
                kernel as int,
                units_per_meter,
                x,
                y,
                medians@[y * across + x],
                margins@[y * across + x],
            ) by {
                assert(y * across + x < block_v * across + across) by (nonlinear_arith)
                    requires
                        0 <= y <= block_v,
                        0 <= x < across,
                ;
            }
            block_v += 1;
        }
        let r = BlockGrid { across, down, kernel, medians, margins };
        proof {
            assert(down * across == across * down) by (nonlinear_arith);
            if depth.width > 0 {
                lemma_blocks(depth.width as int, kernel as int);
            }
            if depth.height > 0 {
                lemma_blocks(depth.height as int, kernel as int);
            }
            let grid = r.grid();
            assert forall|x: int, y: int|
                #![trigger grid.median_at(x, y)]
                0 <= x < grid.across && 0 <= y < grid.down implies {
                let at = y * grid.across + x;
                &&& grid.median_at(x, y) == block_median(
                    *depth,
                    order,
                    gate,
                    kernel as int,
                    x,
                    y,
                )
                &&& grid.median_at(x, y) matches Some(mid) ==> gap_margin_of(
                    n,
                    units_per_meter,
                    mid,
                    grid.margins[at],
                )
            } by {
                assert(entry_sound(
                    n,
                    *depth,
                    order,
                    gate,
                    kernel as int,
                    units_per_meter,
                    x,
                    y,
                    r.medians@[y * across + x],
                    r.margins@[y * across + x],
                ));
            }
        }
        r
    }
}

/// Row and column of a block follow from its number.
proof fn lemma_same_block(across: int, x: int, y: int, block_u: int, block_v: int)
    requires
        0 <= x < across,
        0 <= block_u < across,
        y * across + x == block_v * across + block_u,
    ensures
        x == block_u,
        y == block_v,
{
    assert(y == block_v) by (nonlinear_arith)
        requires
            0 <= x < across,
            0 <= block_u < across,
            y * across + x == block_v * across + block_u,
    ;
}

/// The block's median is that of the image, and its margin goes with it.
spec fn entry_sound<N: Numerics>(
    n: &N,
    depth: ImageFrame,
    order: ByteOrder,
    gate: RangeGate,
    kernel: int,
    units_per_meter: Scalar,
    block_u: int,
    block_v: int,
    mid: Option<u16>,
    margin: i32,
) -> bool {
    &&& mid == block_median(depth, order, gate, kernel, block_u, block_v)
    &&& mid matches Some(m) ==> gap_margin_of(n, units_per_meter, m, margin)
}

fn count_blocks(extent: i32, kernel: i64) -> (r: i64)
    requires
        1 <= kernel <= u32::MAX,
    ensures
        r == blocks(extent as int, kernel as int),
        0 <= r <= i32::MAX,
{
    if extent <= 0 {
        return 0;
    }
    proof {
        lemma_blocks(extent as int, kernel as int);
    }
    (extent as i64 + kernel - 1) / kernel
}

/// The cloud of an image whose bytes have this order. Median, not mean, per block: a flying pixel
/// must not invent a mid-air point.
pub fn depth_cloud<N: Numerics>(
    n: &N,
    order: ByteOrder,
    depth: &ImageFrame,
    depth_info: &CameraModel,
    units_per_meter: Scalar,
    min_range: Scalar,
    max_range: Scalar,
    decimation: u32,
    out: &mut PointCloud,
)
    requires
        whole(*depth),
    ensures
        cloud_of(
            n,
            *depth,
            order,
            *depth_info,
            units_per_meter,
            min_range,
            max_range,
            decimation,
            *final(out),
        ),
{
    let far_range: Scalar = if max_range.is_positive() {
        max_range
    } else {
        Scalar::infinity()
    };
    let near: u16 = near_raw(n, min_range, units_per_meter);
    let far: u16 = far_raw(n, far_range, units_per_meter);
    let gate = RangeGate { near, far };
    let kernel: i64 = if decimation < 1 {
        1
    } else {
        decimation as i64
    };
    let points = if kernel == 1 {
        cut_pixels(n, order, depth, depth_info, units_per_meter, gate)
    } else {
        cut_blocks(n, order, depth, depth_info, units_per_meter, gate, kernel)
    };
    assert(near_raw_of(n, min_range, units_per_meter, near));
    assert(far_raw_of(n, far_end(max_range), units_per_meter, far));
    out.points = points;
    out.timestamp_ns = depth.timestamp_ns;
    out.frame_id = depth.frame_id.clone();
}

/// The point of every pixel that the range takes.
fn cut_pixels<N: Numerics>(
    n: &N,
    order: ByteOrder,
    depth: &ImageFrame,
    info: &CameraModel,
    units_per_meter: Scalar,
    gate: RangeGate,
) -> (points: Vec<SingleVector>)
    requires
        whole(*depth),
    ensures
        points_of(
            n,
            *info,
            units_per_meter,
            pixels(*depth, order, gate, depth.height as int),
            points@,
        ),
{
    let mut points: Vec<SingleVector> = Vec::new();
    let mut v: i32 = 0;
    while v < depth.height
        invariant
            whole(*depth),
            0 <= v,
            v <= depth.height || v == 0,
            points_of(
                n,
                *info,
                units_per_meter,
                pixels(*depth, order, gate, v as int),
                points@,
            ),
        decreases depth.height - v,
    {
        let ghost rows = pixels(*depth, order, gate, v as int);
        assert(rows + row_pixels(*depth, order, gate, v as int, 0) =~= rows);
        let mut u: i32 = 0;
        while u < depth.width
            invariant
                whole(*depth),
                0 <= v < depth.height,
                0 <= u,
                u <= depth.width || u == 0,
                points_of(
                    n,
                    *info,
                    units_per_meter,
                    rows + row_pixels(*depth, order, gate, v as int, u as int),
                    points@,
                ),
            decreases depth.width - u,
        {
            let ghost cells = rows + row_pixels(*depth, order, gate, v as int, u as int);
            let raw: u16 = pixel_at(depth, order, u, v);
            if gate.near <= raw && raw <= gate.far {
                let seen = point(n, info, 2 * (u as i64), 2 * (v as i64), raw, units_per_meter);
                points.push(seen);
                assert(rows + row_pixels(*depth, order, gate, v as int, u + 1) =~= cells.push(
                    Cell { half_u: 2 * u, half_v: 2 * v, raw },
                ));
            } else {
                assert(rows + row_pixels(*depth, order, gate, v as int, u + 1) =~= cells);
            }
            u += 1;
        }
        if depth.width <= 0 {
            assert(row_pixels(*depth, order, gate, v as int, depth.width as int) =~= row_pixels(
                *depth,
                order,
                gate,
                v as int,
                0,
            ));
        }
        v += 1;
    }
    if depth.height <= 0 {
        assert(pixels(*depth, order, gate, depth.height as int) =~= pixels(*depth, order, gate, 0));
    }
    points
}

/// The point of every block that is not air.
fn cut_blocks<N: Numerics>(
    n: &N,
    order: ByteOrder,
    depth: &ImageFrame,
    info: &CameraModel,
    units_per_meter: Scalar,
    gate: RangeGate,
    kernel: i64,
) -> (points: Vec<SingleVector>)
    requires
        whole(*depth),
        2 <= kernel <= u32::MAX,
    ensures
        cut_by(n, *depth, order, *info, units_per_meter, gate, kernel as int, points@),
{
    let blocks = BlockGrid::new(n, depth, order, gate, kernel, units_per_meter);
    let ghost grid = blocks.grid();
    let mut points: Vec<SingleVector> = Vec::new();
    let mut block_v: i64 = 0;
    while block_v < blocks.down
        invariant
            blocks.sound(),
            grid == blocks.grid(),
            kernel == blocks.kernel,
            0 <= block_v <= blocks.down,
            points_of(n, *info, units_per_meter, grid.cells(block_v as int), points@),
        decreases blocks.down - block_v,
    {
        let ghost rows = grid.cells(block_v as int);
        assert(rows + grid.row_cells(block_v as int, 0) =~= rows);
        let mut block_u: i64 = 0;
        while block_u < blocks.across
            invariant
                blocks.sound(),
                grid == blocks.grid(),
                kernel == blocks.kernel,
                0 <= block_u <= blocks.across,
                0 <= block_v < blocks.down,
                points_of(
                    n,
                    *info,
                    units_per_meter,
                    rows + grid.row_cells(block_v as int, block_u as int),
                    points@,
                ),
            decreases blocks.across - block_u,
        {
            let ghost cells = rows + grid.row_cells(block_v as int, block_u as int);
            let mut kept: Option<u16> = None;
            if let Some(mid) = blocks.median_at(block_u, block_v) {
                // A grazing surface also lies between its neighbours, so only a wider gap is air.
                if !blocks.mid_gap(block_u, block_v, mid) {
                    kept = Some(mid);
                }
            }
            if let Some(mid) = kept {
                assert(0 <= block_u * blocks.kernel < i32::MAX);
                assert(0 <= block_v * blocks.kernel < i32::MAX);
                let half_u: i64 = 2 * (block_u * kernel) + kernel - 1;
                let half_v: i64 = 2 * (block_v * kernel) + kernel - 1;
                let seen = point(n, info, half_u, half_v, mid, units_per_meter);
                points.push(seen);
                assert(rows + grid.row_cells(block_v as int, block_u + 1) =~= cells.push(
                    Cell { half_u: half_u as int, half_v: half_v as int, raw: mid },
                ));
            } else {
                assert(rows + grid.row_cells(block_v as int, block_u + 1) =~= cells);
            }
            block_u += 1;
        }
        block_v += 1;
    }
    points
}

/// The depths that are taken from a row are depths of its pixels.
proof fn lemma_row_values(
    depth: ImageFrame,
    order: ByteOrder,
    gate: RangeGate,
    v: int,
    from: int,
    to: int,
    value: u16,
)
    requires
        row_values(depth, order, gate, v, from, to).contains(value),
    ensures
        gate.takes(value),
        exists|u: int| from <= u < to && #[trigger] pixel(depth, order, u, v) == value,
    decreases to - from,
{
    if from < to {
        let values = row_values(depth, order, gate, v, from, to);
        let before = row_values(depth, order, gate, v, from, to - 1);
        let raw = pixel(depth, order, to - 1, v);
        let i = choose|i: int| 0 <= i < values.len() && values[i] == value;
        if i < before.len() {
            assert(before[i] == value);
            lemma_row_values(depth, order, gate, v, from, to - 1, value);
        } else {
            assert(raw == value);
        }
    }
}

/// The depths that are taken from an area are depths of its pixels.
proof fn lemma_area_values(
    depth: ImageFrame,
    order: ByteOrder,
    gate: RangeGate,
    left: int,
    right: int,
    top: int,
    bottom: int,
    value: u16,
)
    requires
        area_values(depth, order, gate, left, right, top, bottom).contains(value),
    ensures
        gate.takes(value),
        exists|u: int, v: int|
            left <= u < right && top <= v < bottom && #[trigger] pixel(depth, order, u, v) == value,
    decreases bottom - top,
{
    if top < bottom {
        let values = area_values(depth, order, gate, left, right, top, bottom);
        let before = area_values(depth, order, gate, left, right, top, bottom - 1);
        let row = row_values(depth, order, gate, bottom - 1, left, right);
        let i = choose|i: int| 0 <= i < values.len() && values[i] == value;
        if i < before.len() {
            assert(before[i] == value);
            lemma_area_values(depth, order, gate, left, right, top, bottom - 1, value);
        } else {
            assert(row[i - before.len()] == value);
            lemma_row_values(depth, order, gate, bottom - 1, left, right, value);
        }
    }
}

/// Law: a block's point is never invented. Its depth is that of one of the block's own pixels,
/// and within the range gate.
pub proof fn law_block_median_is_a_pixel(
    depth: ImageFrame,
    order: ByteOrder,
    gate: RangeGate,
    kernel: int,
    block_u: int,
    block_v: int,
)
    requires
        2 <= kernel,
    ensures
        block_median(depth, order, gate, kernel, block_u, block_v) matches Some(mid) ==> {
            &&& gate.takes(mid)
            &&& exists|u: int, v: int|
                {
                    &&& block_u * kernel <= u < block_end(block_u, kernel, depth.width as int)
                    &&& block_v * kernel <= v < block_end(block_v, kernel, depth.height as int)
                    &&& #[trigger] pixel(depth, order, u, v) == mid
                }
        },
{
    let left = block_u * kernel;
    let right = block_end(block_u, kernel, depth.width as int);
    let top = block_v * kernel;
    let bottom = block_end(block_v, kernel, depth.height as int);
    let values = area_values(depth, order, gate, left, right, top, bottom);
    if let Some(mid) = block_median(depth, order, gate, kernel, block_u, block_v) {
        assert(kernel * kernel >= 4) by (nonlinear_arith)
            requires
                2 <= kernel,
        ;
        lemma_by_size();
        values.lemma_sort_by_ensures(by_size());
        let sorted = values.sort_by(by_size());
        to_multiset_len(values);
        to_multiset_len(sorted);
        assert(sorted.contains(mid));
        assert(values.contains(mid));
        lemma_area_values(depth, order, gate, left, right, top, bottom, mid);
    }
}

/// Law: every point of a cloud without blocks is a pixel that the range takes.
pub proof fn law_pixels_are_within_the_gate(
    depth: ImageFrame,
    order: ByteOrder,
    gate: RangeGate,
    count: int,
    i: int,
)
    requires
        0 <= i < pixels(depth, order, gate, count).len(),
    ensures
        gate.takes(pixels(depth, order, gate, count)[i].raw),
    decreases count,
{
    if count > 0 {
        let before = pixels(depth, order, gate, count - 1);
        if i < before.len() {
            law_pixels_are_within_the_gate(depth, order, gate, count - 1, i);
        } else {
            lemma_row_pixels(
                depth,
                order,
                gate,
                count - 1,
                depth.width as int,
                i - before.len(),
            );
        }
    }
}

proof fn lemma_row_pixels(
    depth: ImageFrame,
    order: ByteOrder,
    gate: RangeGate,
    v: int,
    count: int,
    i: int,
)
    requires
        0 <= i < row_pixels(depth, order, gate, v, count).len(),
    ensures
        gate.takes(row_pixels(depth, order, gate, v, count)[i].raw),
    decreases count,
{
    if count > 0 && i < row_pixels(depth, order, gate, v, count - 1).len() {
        lemma_row_pixels(depth, order, gate, v, count - 1, i);
    }
}

} // verus!
