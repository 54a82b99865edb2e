//! A sample image for demonstrations and benchmarks.

use vstd::prelude::*;

use crate::image::{Image, ImageView};
use crate::pixel::Pixel;

verus! {

/// Side of the square demo image, in pixels.
pub const CHECKER_SIDE: u32 = 64;

/// Side of one square of the checkerboard, in pixels.
pub const CHECKER_SQUARE: u32 = 16;

/// The pixel at `row`, `col` of the demo checkerboard: squares of 16 pixels,
/// purple where the square's row and column indices are both even or both
/// odd, white elsewhere; all opaque.
pub open spec fn checker_pixel(row: int, col: int) -> Pixel {
    if (row / CHECKER_SQUARE as int + col / CHECKER_SQUARE as int) % 2 == 0 {
        Pixel { r: 150, g: 0, b: 150, a: 255 }
    } else {
        Pixel { r: 255, g: 255, b: 255, a: 255 }
    }
}

/// The 64 by 64 checkerboard image, RGBA, sRGB.
pub fn checkerboard() -> (img: Image)
    ensures
        img@ == (ImageView {
            pixels: Seq::new(
                (CHECKER_SIDE * CHECKER_SIDE) as nat,
                |k: int| checker_pixel(k / CHECKER_SIDE as int, k % CHECKER_SIDE as int),
            ),
            width: CHECKER_SIDE,
            height: CHECKER_SIDE,
            channels: 4,
            colorspace: 0,
        }),
{
    let mut pixels: Vec<Pixel> = Vec::with_capacity(64 * 64);
    for i in 0..CHECKER_SIDE
        invariant
            pixels@.len() == i * 64,
            forall|k: int| 0 <= k < pixels@.len() ==> #[trigger] pixels@[k] == checker_pixel(k / 64, k % 64),
    {
        for j in 0..CHECKER_SIDE
            invariant
                pixels@.len() == i * 64 + j,
                i < 64,
                forall|k: int| 0 <= k < pixels@.len() ==> #[trigger] pixels@[k] == checker_pixel(k / 64, k % 64),
        {
            assert((i * 64 + j) / 64 == i && (i * 64 + j) % 64 == j);
            let push_pix: Pixel = if (i / CHECKER_SQUARE + j / CHECKER_SQUARE) % 2 == 0 {
                Pixel::new(150, 0, 150, 255)
            } else {
                Pixel::new(255, 255, 255, 255)
            };
            assert(push_pix == checker_pixel(i as int, j as int));
            pixels.push(push_pix);
        }
    }
    let ghost expected = Seq::new(
        (CHECKER_SIDE * CHECKER_SIDE) as nat,
        |k: int| checker_pixel(k / CHECKER_SIDE as int, k % CHECKER_SIDE as int),
    );
    assert(pixels@ =~= expected);
    Image::from_pixels(pixels, CHECKER_SIDE, CHECKER_SIDE, 4, 0).unwrap()
}

} // verus!
