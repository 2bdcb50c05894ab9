//! Sixteen-bit depth pixels in an image's bytes.

use vstd::prelude::*;

use crate::types::ImageFrame;

verus! {

/// Which of a pixel's two bytes comes first.
#[derive(Clone, Copy, Debug, PartialEq, Eq, Structural)]
pub enum ByteOrder {
    LowFirst,
    HighFirst,
}

/// `u16::to_ne_bytes`: the two bytes of a value in the order that this machine has them, the low
/// one first or the high one first. Which of the two it is, depends on the machine and is not
/// stated.
#[verifier::external_body]
fn native_bytes(value: u16) -> (bytes: [u8; 2])
    ensures
        (bytes[0] == value % 256 && bytes[1] == value / 256) || (bytes[0] == value / 256
            && bytes[1] == value % 256),
{
    u16::to_ne_bytes(value)
}

/// The order is the one that this machine has been seen to write in: it reads one back from the
/// bytes that the machine wrote it as.
pub closed spec fn written_here(order: ByteOrder) -> bool {
    exists|bytes: [u8; 2]|
        #[trigger] call_ensures(native_bytes, (1u16,), bytes) && order.value(
            bytes[0],
            bytes[1],
        ) == 1
}

impl ByteOrder {
    /// The order of this machine.
    pub fn native() -> (order: ByteOrder)
        ensures
            written_here(order),
    {
        let one = native_bytes(1);
        if one[0] == 1 {
            ByteOrder::LowFirst
        } else {
            ByteOrder::HighFirst
        }
    }

    /// The value of two bytes.
    pub open spec fn value(self, first: u8, second: u8) -> u16 {
        match self {
            ByteOrder::LowFirst => (first + 256 * second) as u16,
            ByteOrder::HighFirst => (256 * first + second) as u16,
        }
    }

    /// The value of two bytes.
    pub fn join(self, first: u8, second: u8) -> (r: u16)
        ensures
            r == self.value(first, second),
    {
        match self {
            ByteOrder::LowFirst => first as u16 + 256 * (second as u16),
            ByteOrder::HighFirst => 256 * (first as u16) + second as u16,
        }
    }

    /// The two bytes of a value.
    pub fn split(self, value: u16) -> (r: (u8, u8))
        ensures
            self.value(r.0, r.1) == value,
    {
        let high: u8 = (value / 256) as u8;
        let low: u8 = (value % 256) as u8;
        match self {
            ByteOrder::LowFirst => (low, high),
            ByteOrder::HighFirst => (high, low),
        }
    }
}

/// The image holds every pixel of its width and height, two bytes each: its rows are long enough
/// and its data holds all of them.
pub open spec fn whole(img: ImageFrame) -> bool {
    &&& img.step >= 2 * img.width
    &&& img.step == 0 || img.height == 0 || (img.step > 0 && img.height > 0 && img.data@.len()
        >= img.step * img.height)
}

/// Whether the image holds every pixel of its width and height. Whatever reads it goes by its
/// step and height, and would read past a smaller buffer.
pub fn is_whole(img: &ImageFrame) -> (r: bool)
    ensures
        r == whole(*img),
{
    if (img.step as i64) < 2 * (img.width as i64) {
        return false;
    }
    if img.step == 0 || img.height == 0 {
        return true;
    }
    if img.step < 0 || img.height < 0 {
        return false;
    }
    let step: u64 = img.step as u64;
    let height: u64 = img.height as u64;
    assert(step * height <= 0x7fff_ffff * 0x7fff_ffff) by (nonlinear_arith)
        requires
            step <= 0x7fff_ffff,
            height <= 0x7fff_ffff,
    ;
    img.data.len() as u64 >= step * height
}

/// The pixel in column `u` of row `v`.
pub open spec fn pixel(img: ImageFrame, order: ByteOrder, u: int, v: int) -> u16 {
    order.value(img.data@[v * img.step + 2 * u], img.data@[v * img.step + 2 * u + 1])
}

/// Where a pixel's bytes stand.
pub proof fn lemma_pixel_place(img: ImageFrame, u: int, v: int)
    requires
        whole(img),
        0 <= u < img.width,
        0 <= v < img.height,
    ensures
        0 <= v * img.step,
        0 <= v * img.step + 2 * u,
        v * img.step + 2 * u + 1 < img.data@.len(),
{
    let step = img.step as int;
    let height = img.height as int;
    assert(0 <= v * step && v * step + step <= step * height) by (nonlinear_arith)
        requires
            0 <= v < height,
            0 <= step,
    ;
}

/// The pixel in column `u` of row `v`.
pub fn pixel_at(img: &ImageFrame, order: ByteOrder, u: i32, v: i32) -> (r: u16)
    requires
        whole(*img),
        0 <= u < img.width,
        0 <= v < img.height,
    ensures
        r == pixel(*img, order, u as int, v as int),
{
    proof {
        lemma_pixel_place(*img, u as int, v as int);
        assert(img.data.len() <= usize::MAX);
        assert(v as usize * img.step as usize == v * img.step);
    }
    let start: usize = v as usize * img.step as usize + 2 * u as usize;
    order.join(img.data[start], img.data[start + 1])
}

} // verus!
