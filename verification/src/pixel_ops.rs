use crate::grid::Grid;
use crate::grid::GridView;
use vstd::prelude::*;

verus! {

/// The grid with every sample `s` replaced by `255 - s`.
pub open spec fn inverted(g: GridView) -> GridView {
    GridView {
        width: g.width,
        height: g.height,
        samples: Seq::new(g.samples.len(), |i: int| (255 - g.samples[i]) as u8),
    }
}

/// A sample raised by `value` and held to the range 0 to 255.
pub open spec fn brightened_sample(sample: u8, value: int) -> u8 {
    if sample + value < 0 {
        0
    } else if sample + value > 255 {
        255
    } else {
        (sample + value) as u8
    }
}

/// The grid with every sample raised by `value` and held to the range 0 to
/// 255.
pub open spec fn brightened(g: GridView, value: int) -> GridView {
    GridView {
        width: g.width,
        height: g.height,
        samples: Seq::new(g.samples.len(), |i: int| brightened_sample(g.samples[i], value)),
    }
}

/// Calls `image::imageops::invert` on a one-channel 8-bit buffer made of the
/// given samples, and hands the buffer's samples back.
///
/// Trusted: the buffer is made whenever there is one sample for each pixel,
/// and `invert` replaces the sample `s` of every pixel by `255 - s`, leaving
/// the number of samples as it was.
#[verifier::external_body]
fn invert_samples(width: u32, height: u32, samples: &Vec<u8>) -> (out: Vec<u8>)
    requires
        samples@.len() == width * height,
    ensures
        out@.len() == samples@.len(),
        forall|i: int| 0 <= i < samples@.len() ==> out@[i] == 255 - samples@[i],
{
    let mut buffer = image::GrayImage::from_raw(width, height, samples.clone()).unwrap();
    image::imageops::invert(&mut buffer);
    buffer.into_raw()
}

/// Calls `image::imageops::brighten` on a one-channel 8-bit buffer made of
/// the given samples, and hands the samples of the buffer it returns back.
///
/// Trusted: the buffer is made whenever there is one sample for each pixel,
/// and `brighten` returns a buffer of the same dimensions in which the
/// sample `s` of every pixel has become `s + value`, held to the range 0 to
/// 255. The sum is made in 32 bits, so `value` is kept small enough for it.
/// `brighten` walks the pixels with an iterator that asks for a pixel
/// outside a grid of no width and several rows, so a grid without samples
/// is kept away from it.
#[verifier::external_body]
fn brighten_samples(width: u32, height: u32, samples: &Vec<u8>, value: i32) -> (out: Vec<u8>)
    requires
        samples@.len() == width * height,
        samples@.len() > 0,
        -255 <= value <= 255,
    ensures
        out@.len() == samples@.len(),
        forall|i: int|
            0 <= i < samples@.len() ==> out@[i] == brightened_sample(samples@[i], value as int),
{
    let buffer = image::GrayImage::from_raw(width, height, samples.clone()).unwrap();
    image::imageops::brighten(&buffer, value).into_raw()
}

/// Inverts the 0 to 255 scale: every sample `s` becomes `255 - s`.
pub fn invert(image: &Grid) -> (out: Grid)
    ensures
        out@ == inverted(image@),
{
    let width: u32 = image.width();
    let height: u32 = image.height();
    let samples: Vec<u8> = invert_samples(width, height, image.samples());
    let out: Grid = Grid::new(width, height, samples).unwrap();
    assert(out@.samples =~= inverted(image@).samples);
    out
}

/// Raises every sample by `value`, or lowers it where `value` is negative,
/// holding the result to the range 0 to 255.
///
/// This is a step for display: a sample of 0 does not stay 0 under a
/// positive `value`.
pub fn brighten(image: &Grid, value: i32) -> (out: Grid)
    ensures
        out@ == brightened(image@, value as int),
{
    let width: u32 = image.width();
    let height: u32 = image.height();
    let step: i32 = if value > 255 {
        255
    } else if value < -255 {
        -255
    } else {
        value
    };
    let samples: Vec<u8> = if image.len() == 0 {
        Vec::new()
    } else {
        brighten_samples(width, height, image.samples(), step)
    };
    let out: Grid = Grid::new(width, height, samples).unwrap();
    assert(out@.samples =~= brightened(image@, value as int).samples);
    out
}

} // verus!
