//! The image value that both directions of the codec produce or consume, and
//! the codec's errors.

use vstd::prelude::*;

use crate::pixel::Pixel;

verus! {

/// What can go wrong when building or decoding an image.
#[derive(Clone, Copy, Debug, PartialEq, Eq, Structural)]
pub enum ImgError {
    /// The raw byte count is not a multiple of the bytes per pixel.
    DataError,
    /// The number of pixels does not match width times height.
    PixelNumberError,
    /// The stream is corrupt: bad end marker, cut-off chunk or wrong pixel count.
    DecodeError,
    /// The stream does not start with the format's magic bytes.
    HeaderError,
}

impl ImgError {
    /// A sentence that describes the error.
    pub fn message(&self) -> (m: String)
        ensures
            m@ == error_message(*self),
    {
        match self {
            ImgError::DataError => "invalid number of bytes (not a whole number of pixels)".to_owned(),
            ImgError::PixelNumberError => "number of pixels does not match height and width params".to_owned(),
            ImgError::DecodeError => "decoder failed to construct valid image".to_owned(),
            ImgError::HeaderError => "not a valid QOI file header".to_owned(),
        }
    }
}

/// The text that `ImgError::message` gives for each error.
pub open spec fn error_message(e: ImgError) -> Seq<char> {
    match e {
        ImgError::DataError => "invalid number of bytes (not a whole number of pixels)"@,
        ImgError::PixelNumberError => "number of pixels does not match height and width params"@,
        ImgError::DecodeError => "decoder failed to construct valid image"@,
        ImgError::HeaderError => "not a valid QOI file header"@,
    }
}

/// The mathematical content of an `Image`.
pub struct ImageView {
    pub pixels: Seq<Pixel>,
    pub width: u32,
    pub height: u32,
    pub channels: u8,
    pub colorspace: u8,
}

impl ImageView {
    /// The pixel sequence holds exactly one pixel per cell of the grid.
    pub open spec fn wf(self) -> bool {
        self.pixels.len() == self.width * self.height
    }
}

/// A grid of pixels in row-major order, with the metadata of the header:
/// `channels` is 3 (RGB) or 4 (RGBA) and `colorspace` is 0 (sRGB with linear
/// alpha) or 1 (all channels linear).
pub struct Image {
    pixels: Vec<Pixel>,
    height: u32,
    width: u32,
    channels: u8,
    colorspace: u8,
}

impl View for Image {
    type V = ImageView;

    closed spec fn view(&self) -> ImageView {
        ImageView {
            pixels: self.pixels@,
            width: self.width,
            height: self.height,
            channels: self.channels,
            colorspace: self.colorspace,
        }
    }
}

/// An image result with the image replaced by its view.
pub open spec fn view_result(res: Result<Image, ImgError>) -> Result<ImageView, ImgError> {
    match res {
        Ok(img) => Ok(img@),
        Err(e) => Err(e),
    }
}

/// Bytes per pixel of interleaved raw data with `channels` channels: 4 for
/// RGBA, 3 otherwise.
pub open spec fn bytes_per_pixel(channels: u8) -> nat {
    if channels == 4 {
        4
    } else {
        3
    }
}

/// Pixel `i` of interleaved raw data with `bpp` bytes per pixel; with 3 bytes
/// per pixel alpha is 255.
pub open spec fn pixel_at(data: Seq<u8>, i: int, bpp: nat) -> Pixel {
    Pixel {
        r: data[i * bpp],
        g: data[i * bpp + 1],
        b: data[i * bpp + 2],
        a: if bpp == 4 {
            data[i * bpp + 3]
        } else {
            255u8
        },
    }
}

/// The pixels of interleaved raw data, one per `bpp` bytes.
pub open spec fn pixels_of_bytes(data: Seq<u8>, bpp: nat) -> Seq<Pixel> {
    Seq::new(data.len() / bpp, |i: int| pixel_at(data, i, bpp))
}

/// The interleaved bytes r, g, b, a of each pixel in turn.
pub open spec fn bytes_of_pixels(pixels: Seq<Pixel>) -> Seq<u8>
    decreases pixels.len(),
{
    if pixels.len() == 0 {
        seq![]
    } else {
        let p = pixels.last();
        bytes_of_pixels(pixels.drop_last()) + seq![p.r, p.g, p.b, p.a]
    }
}

/// What `Image::new` gives for raw data and metadata.
pub open spec fn image_from_bytes(
    data: Seq<u8>,
    height: u32,
    width: u32,
    channels: u8,
    colorspace: u8,
) -> Result<ImageView, ImgError> {
    let bpp = bytes_per_pixel(channels);
    if data.len() % bpp != 0 {
        Err(ImgError::DataError)
    } else if data.len() / bpp != width * height {
        Err(ImgError::PixelNumberError)
    } else {
        Ok(
            ImageView {
                pixels: pixels_of_bytes(data, bpp),
                width,
                height,
                channels,
                colorspace,
            },
        )
    }
}

/// The bytes of pixel `i` lie inside data that holds more than `i` whole pixels.
proof fn lemma_pixel_in_data(i: int, bpp: int, len: int)
    requires
        0 <= i < len / bpp,
        0 < bpp,
        0 <= len,
    ensures
        i * bpp + bpp <= len,
{
    assert(i * bpp + bpp <= len) by (nonlinear_arith)
        requires
            0 <= i < len / bpp,
            0 < bpp,
            0 <= len,
    ;
}

/// The number of cells of a grid fits in a `u64`.
pub proof fn lemma_cell_count_fits(width: u32, height: u32)
    ensures
        0 <= width * height <= u64::MAX,
{
    assert(0 <= width * height <= 0xffff_ffffu64 * 0xffff_ffffu64) by (nonlinear_arith)
        requires
            height <= 0xffff_ffffu64,
            width <= 0xffff_ffffu64,
    ;
}

impl Image {
    /// Builds an image from interleaved raw bytes, left to right, top to bottom:
    /// 4 bytes per pixel when `channels` is 4, else 3 bytes per pixel with alpha
    /// 255.
    pub fn new(data: Vec<u8>, height: u32, width: u32, channels: u8, colorspace: u8) -> (res:
        Result<Image, ImgError>)
        ensures
            view_result(res) == image_from_bytes(data@, height, width, channels, colorspace),
    {
        let alpha: bool = channels == 4;
        let pixels: Vec<Pixel> = match Image::pixels_from_bytes(data, alpha) {
            Ok(out) => out,
            Err(error) => return Err(error),
        };
        proof {
            lemma_cell_count_fits(width, height);
        }
        if pixels.len() as u64 == width as u64 * height as u64 {
            Ok(Image { pixels, height, width, channels, colorspace })
        } else {
            Err(ImgError::PixelNumberError)
        }
    }

    /// Builds an image from its pixels; fails when their number is not
    /// `height * width`.
    pub fn from_pixels(
        pixels: Vec<Pixel>,
        height: u32,
        width: u32,
        channels: u8,
        colorspace: u8,
    ) -> (res: Result<Image, ImgError>)
        ensures
            match res {
                Ok(img) => pixels@.len() == width * height && img@ == (ImageView {
                    pixels: pixels@,
                    width,
                    height,
                    channels,
                    colorspace,
                }),
                Err(e) => pixels@.len() != width * height && e == ImgError::PixelNumberError,
            },
    {
        proof {
            lemma_cell_count_fits(width, height);
        }
        if pixels.len() as u64 == width as u64 * height as u64 {
            Ok(Image { pixels, height, width, channels, colorspace })
        } else {
            Err(ImgError::PixelNumberError)
        }
    }

    /// Splits interleaved raw bytes into pixels, 4 bytes each when `alpha`,
    /// else 3 bytes each with alpha 255.
    fn pixels_from_bytes(data: Vec<u8>, alpha: bool) -> (res: Result<Vec<Pixel>, ImgError>)
        ensures
            ({
                let bpp: nat = if alpha {
                    4
                } else {
                    3
                };
                match res {
                    Ok(v) => data@.len() % bpp == 0 && v@ == pixels_of_bytes(data@, bpp),
                    Err(e) => data@.len() % bpp != 0 && e == ImgError::DataError,
                }
            }),
    {
        let mut pixels: Vec<Pixel> = Vec::new();
        if alpha {
            if data.len() % 4 != 0 {
                return Err(ImgError::DataError);
            }
            let n: usize = data.len() / 4;
            for i in 0..n
                invariant
                    n == data@.len() / 4,
                    data@.len() <= usize::MAX,
                    pixels@ =~= Seq::new(i as nat, |j: int| pixel_at(data@, j, 4)),
            {
                proof {
                    lemma_pixel_in_data(i as int, 4, data@.len() as int);
                }
                assert(i * 4 + 4 <= data@.len());
                pixels.push(
                    Pixel { r: data[i * 4], g: data[i * 4 + 1], b: data[i * 4 + 2], a: data[i * 4 + 3] },
                );
            }
            Ok(pixels)
        } else {
            if data.len() % 3 != 0 {
                return Err(ImgError::DataError);
            }
            let n: usize = data.len() / 3;
            for i in 0..n
                invariant
                    n == data@.len() / 3,
                    data@.len() <= usize::MAX,
                    pixels@ =~= Seq::new(i as nat, |j: int| pixel_at(data@, j, 3)),
            {
                proof {
                    lemma_pixel_in_data(i as int, 3, data@.len() as int);
                }
                assert(i * 3 + 3 <= data@.len());
                pixels.push(Pixel { r: data[i * 3], g: data[i * 3 + 1], b: data[i * 3 + 2], a: 255 });
            }
            Ok(pixels)
        }
    }

    /// The pixels as interleaved bytes r, g, b, a, one pixel after another.
    pub fn pixels_to_bytes(&self) -> (buf: Vec<u8>)
        ensures
            buf@ == bytes_of_pixels(self@.pixels),
    {
        let mut buf: Vec<u8> = Vec::new();
        for i in 0..self.pixels.len()
            invariant
                buf@ == bytes_of_pixels(self.pixels@.take(i as int)),
        {
            let pixel: Pixel = self.pixels[i];
            assert(self.pixels@.take(i + 1).drop_last() =~= self.pixels@.take(i as int));
            buf.push(pixel.r);
            buf.push(pixel.g);
            buf.push(pixel.b);
            buf.push(pixel.a);
            assert(buf@ =~= bytes_of_pixels(self.pixels@.take(i as int)) + seq![
                pixel.r,
                pixel.g,
                pixel.b,
                pixel.a,
            ]);
        }
        assert(self.pixels@.take(self.pixels@.len() as int) =~= self.pixels@);
        buf
    }

    /// The pixels, row-major.
    pub fn pixels(&self) -> (p: &Vec<Pixel>)
        ensures
            p@ == self@.pixels,
    {
        &self.pixels
    }

    pub fn width(&self) -> (w: u32)
        ensures
            w == self@.width,
    {
        self.width
    }

    pub fn height(&self) -> (h: u32)
        ensures
            h == self@.height,
    {
        self.height
    }

    pub fn channels(&self) -> (c: u8)
        ensures
            c == self@.channels,
    {
        self.channels
    }

    pub fn colorspace(&self) -> (c: u8)
        ensures
            c == self@.colorspace,
    {
        self.colorspace
    }
}

} // verus!
