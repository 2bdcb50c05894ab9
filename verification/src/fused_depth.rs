//! Densification of a depth image by a model that predicts depth from the colour image.
//!
//! The model is run by the caller. Here stand what it is given, and what becomes of its answer. A
//! fault degrades quality rather than dropping anything: without an answer the raw image is used.

use vstd::prelude::*;

use crate::depth_pixels::{pixel, pixel_at, whole, ByteOrder};
use crate::depth_reproject::word;
use crate::formulas::{meters, meters_of, raw_depth, raw_depth_of};
use crate::numerics::Numerics;
use crate::scalar::{Scalar, Single};
use crate::text::same;
use crate::types::ImageFrame;

verus! {

/// Where the model runs.
#[derive(Clone, Copy, Debug, PartialEq, Eq, Structural)]
pub enum ModelDevice {
    Cuda,
    Metal,
    Cpu,
}

/// The precision the model runs in.
#[derive(Clone, Copy, Debug, PartialEq, Eq, Structural)]
pub enum ModelPrecision {
    Half,
    Single,
}

/// How a model is to be set up.
#[derive(Clone, Copy, Debug, PartialEq, Eq, Structural)]
pub struct Fuser {
    pub device: ModelDevice,
    pub precision: ModelPrecision,
}

/// What the model is given.
pub struct FuseInput {
    /// Packed rgb bytes at the depth image's resolution.
    pub rgb: Vec<u8>,
    /// The depth of each pixel in metres, row by row.
    pub meters: Vec<Single>,
    pub height: usize,
    pub width: usize,
}

/// The colour image has the resolution and one of the encodings that the model takes.
pub open spec fn color_usable(color: ImageFrame, height: int, width: int) -> bool {
    &&& color.height == height
    &&& color.width == width
    &&& color.encoding@ == "rgb8"@ || color.encoding@ == "bgr8"@
}

/// Every row of the colour image can be read.
pub open spec fn color_readable(color: ImageFrame) -> bool {
    &&& color.step >= 0
    &&& color.height > 0 ==> (color.height - 1) * color.step + 3 * color.width <= color.data@.len()
}

/// Channel 0, 1 or 2 of a pixel: red, green or blue.
pub open spec fn channel(color: ImageFrame, u: int, v: int, c: int) -> u8 {
    if color.encoding@ == "rgb8"@ {
        color.data@[v * color.step + 3 * u + c]
    } else {
        color.data@[v * color.step + 3 * u + (2 - c)]
    }
}

/// `rgb` are the pixels of the colour image, packed.
pub open spec fn packed(color: ImageFrame, height: int, width: int, rgb: Seq<u8>) -> bool {
    &&& rgb.len() == 3 * (width * height)
    &&& forall|u: int, v: int|
        0 <= u < width && 0 <= v < height ==> #[trigger] pixel_packed(color, width, rgb, u, v)
}

/// The three bytes of a pixel.
pub open spec fn pixel_packed(
    color: ImageFrame,
    width: int,
    rgb: Seq<u8>,
    u: int,
    v: int,
) -> bool {
    &&& rgb[3 * (v * width + u)] == channel(color, u, v, 0)
    &&& rgb[3 * (v * width + u) + 1] == channel(color, u, v, 1)
    &&& rgb[3 * (v * width + u) + 2] == channel(color, u, v, 2)
}

/// `meters` are the depths of the image.
pub open spec fn measured_by<N: Numerics>(
    n: &N,
    depth: ImageFrame,
    order: ByteOrder,
    units_per_meter: Scalar,
    meters: Seq<Single>,
) -> bool {
    &&& meters.len() == depth.width * depth.height
    &&& forall|u: int, v: int|
        #![trigger pixel(depth, order, u, v)]
        0 <= u < depth.width && 0 <= v < depth.height ==> meters_of(
            n,
            pixel(depth, order, u, v),
            units_per_meter,
            meters[v * depth.width + u],
        )
}

/// Where a row's bytes stand.
proof fn lemma_row(step: int, width: int, height: int, len: int, v: int)
    requires
        0 <= step,
        0 <= width,
        0 <= v < height,
        (height - 1) * step + 3 * width <= len,
    ensures
        0 <= v * step,
        v * step + 3 * width <= len,
{
    assert(0 <= v * step <= (height - 1) * step) by (nonlinear_arith)
        requires
            0 <= step,
            0 <= v <= height - 1,
    ;
}

/// A pixel that comes before another in its number is another one.
proof fn lemma_pixel_number(width: int, x: int, y: int, u: int, v: int)
    requires
        0 <= x < width,
        0 <= u < width,
        y * width + x == v * width + u,
    ensures
        x == u,
        y == v,
{
    assert(y == v) by (nonlinear_arith)
        requires
            0 <= x < width,
            0 <= u < width,
            y * width + x == v * width + u,
    ;
}

/// Packed rgb bytes at the depth image's resolution, from an rgb8 or bgr8 colour image.
pub fn rgb_pixels(color: &ImageFrame, height: usize, width: usize) -> (r: Option<Vec<u8>>)
    requires
        color_usable(*color, height as int, width as int) ==> color_readable(*color),
    ensures
        match r {
            Some(rgb) => color_usable(*color, height as int, width as int) && packed(
                *color,
                height as int,
                width as int,
                rgb@,
            ),
            None => !color_usable(*color, height as int, width as int),
        },
{
    if color.height < 0 || color.width < 0 || color.height as usize != height
        || color.width as usize != width {
        return None;
    }
    let plain: bool = same(color.encoding.as_str(), "rgb8");
    if !plain && !same(color.encoding.as_str(), "bgr8") {
        return None;
    }
    let step: usize = color.step as usize;
    let mut rgb: Vec<u8> = Vec::new();
    assert(0 * width == 0) by (nonlinear_arith);
    let mut v: usize = 0;
    while v < height
        invariant
            v <= height,
            color_usable(*color, height as int, width as int),
            color_readable(*color),
            step == color.step,
            plain == (color.encoding@ == "rgb8"@),
            rgb@.len() == 3 * (v * width),
            forall|x: int, y: int|
                0 <= x < width && 0 <= y < v ==> #[trigger] pixel_packed(
                    *color,
                    width as int,
                    rgb@,
                    x,
                    y,
                ),
        decreases height - v,
    {
        proof {
            lemma_row(step as int, width as int, height as int, color.data@.len() as int, v as int);
            assert(color.data.len() <= usize::MAX);
        }
        assert forall|x: int, y: int|
            0 <= x < width && 0 <= y && y * width + x < v * width implies #[trigger] pixel_packed(
            *color,
            width as int,
            rgb@,
            x,
            y,
        ) by {
            assert(y < v) by (nonlinear_arith)
                requires
                    y * width + x < v * width,
                    0 <= x < width,
            ;
        }
        let mut u: usize = 0;
        while u < width
            invariant
                u <= width,
                v < height,
                color_usable(*color, height as int, width as int),
                step == color.step,
                plain == (color.encoding@ == "rgb8"@),
                0 <= v * step,
                v * step + 3 * width <= color.data@.len() <= usize::MAX,
                rgb@.len() == 3 * (v * width + u),
                forall|x: int, y: int|
                    0 <= x < width && 0 <= y && y * width + x < v * width + u 
                        ==> #[trigger] pixel_packed(*color, width as int, rgb@, x, y),
            decreases width - u,
        {
            let at: usize = v * step + 3 * u;
            let ghost held = rgb@;
            if plain {
                rgb.push(color.data[at]);
                rgb.push(color.data[at + 1]);
                rgb.push(color.data[at + 2]);
            } else {
                rgb.push(color.data[at + 2]);
                rgb.push(color.data[at + 1]);
                rgb.push(color.data[at]);
            }
            assert forall|x: int, y: int|
                0 <= x < width && 0 <= y && y * width + x < v * width + u
                    + 1 implies #[trigger] pixel_packed(*color, width as int, rgb@, x, y) by {
                let i = y * width + x;
                assert(0 <= i) by (nonlinear_arith)
                    requires
                        i == y * width + x,
                        0 <= y,
                        0 <= x < width,
                ;
                if i == v * width + u {
                    assert(rgb@[3 * (v * width + u)] == channel(*color, u as int, v as int, 0));
                    lemma_pixel_number(width as int, x, y, u as int, v as int);
                } else {
                    assert(pixel_packed(*color, width as int, held, x, y));
                    assert(rgb@[3 * i] == held[3 * i]);
                    assert(rgb@[3 * i + 1] == held[3 * i + 1]);
                    assert(rgb@[3 * i + 2] == held[3 * i + 2]);
                }
            }
            u += 1;
        }
        assert((v + 1) * width == v * width + width) by (nonlinear_arith);
        assert forall|x: int, y: int|
            0 <= x < width && 0 <= y < v + 1 implies #[trigger] pixel_packed(
            *color,
            width as int,
            rgb@,
            x,
            y,
        ) by {
            assert(y * width + x < v * width + width) by (nonlinear_arith)
                requires
                    0 <= y <= v,
                    0 <= x < width,
            ;
        }
        v += 1;
    }
    assert(height * width == width * height) by (nonlinear_arith);
    Some(rgb)
}

/// `out` is the depth image with the model's depths in place of its own.
pub open spec fn densified<N: Numerics>(
    n: &N,
    depth: ImageFrame,
    order: ByteOrder,
    units_per_meter: Scalar,
    fused: Seq<Single>,
    out: ImageFrame,
) -> bool {
    &&& out.timestamp_ns == depth.timestamp_ns
    &&& out.frame_id@ == depth.frame_id@
    &&& out.width == depth.width
    &&& out.height == depth.height
    &&& out.encoding@ == depth.encoding@
    &&& out.step == 2 * depth.width
    &&& out.data@.len() == 2 * fused.len()
    &&& forall|i: int|
        0 <= i < fused.len() ==> raw_depth_of(
            n,
            fused[i],
            units_per_meter,
            #[trigger] word(out.data@, order, i),
        )
}

/// The device for the model: a GPU where there is one.
pub open spec fn device_for(cuda: bool, metal: bool) -> ModelDevice {
    if cuda {
        ModelDevice::Cuda
    } else if metal {
        ModelDevice::Metal
    } else {
        ModelDevice::Cpu
    }
}

impl Fuser {
    /// How the model is to be set up, on a machine with or without the two kinds of GPU. None
    /// means disabled, as one of the weight paths is empty: raw clouds are published then.
    pub fn new(dinov2_weights: &str, head_weights: &str, cuda: bool, metal: bool) -> (r: Option<
        Fuser,
    >)
        ensures
            r == if dinov2_weights@.len() == 0 || head_weights@.len() == 0 {
                None::<Fuser>
            } else {
                Some(
                    Fuser {
                        device: device_for(cuda, metal),
                        precision: if cuda || metal {
                            ModelPrecision::Half
                        } else {
                            ModelPrecision::Single
                        },
                    },
                )
            },
    {
        if dinov2_weights.is_empty() || head_weights.is_empty() {
            return None;
        }
        let device = if cuda {
            ModelDevice::Cuda
        } else if metal {
            ModelDevice::Metal
        } else {
            ModelDevice::Cpu
        };
        let precision = match device {
            ModelDevice::Cpu => ModelPrecision::Single,
            _ => ModelPrecision::Half,
        };
        Some(Fuser { device, precision })
    }

    /// What the model is to be given, or None when the colour image does not suit: the raw image
    /// is used then.
    pub fn fuse<N: Numerics>(
        &self,
        n: &N,
        order: ByteOrder,
        color: &ImageFrame,
        depth: &ImageFrame,
        units_per_meter: Scalar,
    ) -> (r: Option<FuseInput>)
        requires
            color_usable(*color, depth.height as int, depth.width as int) ==> {
                &&& color_readable(*color)
                &&& whole(*depth)
                &&& 0 <= depth.width
                &&& 0 <= depth.height
            },
        ensures
            match r {
                Some(input) => {
                    &&& color_usable(*color, depth.height as int, depth.width as int)
                    &&& packed(*color, depth.height as int, depth.width as int, input.rgb@)
                    &&& measured_by(n, *depth, order, units_per_meter, input.meters@)
                    &&& input.height == depth.height
                    &&& input.width == depth.width
                },
                None => !color_usable(*color, depth.height as int, depth.width as int),
            },
    {
        if depth.width < 0 || depth.height < 0 {
            return None;
        }
        let height: usize = depth.height as usize;
        let width: usize = depth.width as usize;
        let rgb = match rgb_pixels(color, height, width) {
            Some(rgb) => rgb,
            None => return None,
        };
        let mut distances: Vec<Single> = Vec::new();
        let ghost w = depth.width as int;
        assert(0 * w == 0) by (nonlinear_arith);
        let mut v: i32 = 0;
        while v < depth.height
            invariant
                whole(*depth),
                0 <= v <= depth.height,
                w == depth.width,
                0 <= w,
                distances@.len() == v * w,
                forall|x: int, y: int|
                    #![trigger pixel(*depth, order, x, y)]
                    0 <= x < w && 0 <= y < v ==> meters_of(
                        n,
                        pixel(*depth, order, x, y),
                        units_per_meter,
                        distances@[y * w + x],
                    ),
            decreases depth.height - v,
        {
            assert forall|x: int, y: int|
                #![trigger pixel(*depth, order, x, y)]
                0 <= x < w && 0 <= y && y * w + x < v * w implies meters_of(
                    n,
                    pixel(*depth, order, x, y),
                    units_per_meter,
                    distances@[y * w + x],
                ) by {
                assert(y < v) by (nonlinear_arith)
                    requires
                        y * w + x < v * w,
                        0 <= x < w,
                ;
            }
            let mut u: i32 = 0;
            while u < depth.width
                invariant
                    whole(*depth),
                    0 <= v < depth.height,
                    0 <= u <= depth.width,
                    w == depth.width,
                    distances@.len() == v * w + u,
                    forall|x: int, y: int|
                        #![trigger pixel(*depth, order, x, y)]
                        0 <= x < w && 0 <= y && y * w + x < v * w + u ==> meters_of(
                            n,
                            pixel(*depth, order, x, y),
                            units_per_meter,
                            distances@[y * w + x],
                        ),
                decreases depth.width - u,
            {
                let raw: u16 = pixel_at(depth, order, u, v);
                let ghost held = distances@;
                distances.push(meters(n, raw, units_per_meter));
                assert forall|x: int, y: int|
                    #![trigger pixel(*depth, order, x, y)]
                    0 <= x < w && 0 <= y && y * w + x < v * w + u + 1 implies meters_of(
                        n,
                        pixel(*depth, order, x, y),
                        units_per_meter,
                        distances@[y * w + x],
                    ) by {
                    let i = y * w + x;
                    assert(0 <= i) by (nonlinear_arith)
                        requires
                            i == y * w + x,
                            0 <= y,
                            0 <= x < w,
                    ;
                    if i == v * w + u {
                        lemma_pixel_number(w, x, y, u as int, v as int);
                    } else {
                        assert(distances@[i] == held[i]);
                    }
                }
                u += 1;
            }
            assert((v + 1) * w == v * w + w) by (nonlinear_arith);
            assert forall|x: int, y: int|
                #![trigger pixel(*depth, order, x, y)]
                0 <= x < w && 0 <= y < v + 1 implies meters_of(
                    n,
                    pixel(*depth, order, x, y),
                    units_per_meter,
                    distances@[y * w + x],
                ) by {
                assert(y * w + x < v * w + w) by (nonlinear_arith)
                    requires
                        0 <= y <= v,
                        0 <= x < w,
                ;
            }
            v += 1;
        }
        assert(depth.height * w == w * depth.height) by (nonlinear_arith);
        Some(FuseInput { rgb, meters: distances, height, width })
    }

    /// The depth image with the model's depths in place of its own.
    pub fn fused<N: Numerics>(
        &self,
        n: &N,
        order: ByteOrder,
        depth: &ImageFrame,
        fused: &Vec<Single>,
        units_per_meter: Scalar,
    ) -> (out: ImageFrame)
        requires
            whole(*depth),
            0 <= depth.width,
        ensures
            densified(n, *depth, order, units_per_meter, fused@, out),
    {
        let mut data: Vec<u8> = Vec::new();
        let mut i: usize = 0;
        while i < fused.len()
            invariant
                i <= fused@.len(),
                data@.len() == 2 * i,
                forall|k: int|
                    0 <= k < i ==> raw_depth_of(
                        n,
                        fused@[k],
                        units_per_meter,
                        #[trigger] word(data@, order, k),
                    ),
            decreases fused@.len() - i,
        {
            let ghost held = data@;
            let raw: u16 = raw_depth(n, fused[i], units_per_meter);
            let (first, second) = order.split(raw);
            data.push(first);
            data.push(second);
            assert(word(data@, order, i as int) == raw);
            assert forall|k: int| 0 <= k < i implies #[trigger] word(data@, order, k) == word(
                held,
                order,
                k,
            ) by {}
            i += 1;
        }
        ImageFrame {
            timestamp_ns: depth.timestamp_ns,
            frame_id: depth.frame_id.clone(),
            width: depth.width,
            height: depth.height,
            encoding: depth.encoding.clone(),
            step: depth.width * 2,
            data,
        }
    }
}

} // verus!
