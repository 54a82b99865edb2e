//! The decoder: a linear walk over the chunk stream that rebuilds the pixels
//! with the same running state (previous pixel, cache) as the encoder.

use vstd::prelude::*;

use crate::format::{
    blank_cache, dec_diff, lemma_byte_fields, dec_luma, dec_rgb, dec_rgba, diff_pixel, end_marker, luma_pixel,
    parse_header, read_header, read_tag, start_pixel, tag_kind, END_LEN, HEADER_LEN, RUN_BIAS,
};
use crate::image::{view_result, Image, ImageView, ImgError};
use crate::pixel::{color_hash, hash_of, ChunkType, Pixel};

verus! {

/// The running state of the decoder: the previous pixel, the cache, and the
/// pixels produced so far.
pub struct DecState {
    pub prev: Pixel,
    pub cache: Seq<Pixel>,
    pub out: Seq<Pixel>,
}

/// The decoder state before the first chunk.
pub open spec fn dec_start() -> DecState {
    DecState { prev: start_pixel(), cache: blank_cache(), out: seq![] }
}

/// The number of bytes of the chunk that starts with `tag`.
pub open spec fn chunk_len(tag: u8) -> nat {
    match tag_kind(tag) {
        ChunkType::RGB => 4,
        ChunkType::RGBA => 5,
        ChunkType::Luma => 2,
        _ => 1,
    }
}

/// The state after producing pixel `p`: it becomes the previous pixel and is
/// stored at its cache slot.
pub open spec fn emit(s: DecState, p: Pixel) -> DecState {
    DecState { prev: p, cache: s.cache.update(hash_of(p), p), out: s.out.push(p) }
}

/// The state after the whole chunk `c`.  A run repeats the previous pixel
/// `(tag & 63) + 1` times; an index takes the cache slot named by the low six
/// bits of the tag, as it stands.
pub open spec fn dec_chunk(s: DecState, c: Seq<u8>) -> DecState {
    match tag_kind(c[0]) {
        ChunkType::RGB => emit(s, Pixel { r: c[1], g: c[2], b: c[3], a: s.prev.a }),
        ChunkType::RGBA => emit(s, Pixel { r: c[1], g: c[2], b: c[3], a: c[4] }),
        ChunkType::Index => emit(s, s.cache[(c[0] % 64) as int]),
        ChunkType::Diff => emit(s, diff_pixel(c[0], s.prev)),
        ChunkType::Luma => emit(s, luma_pixel(c[0], c[1], s.prev)),
        ChunkType::Run => DecState {
            prev: s.prev,
            cache: s.cache.update(hash_of(s.prev), s.prev),
            out: s.out + Seq::new((c[0] % 64 + RUN_BIAS) as nat, |k: int| s.prev),
        },
    }
}

/// The state after all chunks of `body`, or `None` when its last chunk is cut off.
pub open spec fn dec_walk(s: DecState, body: Seq<u8>) -> Option<DecState>
    decreases body.len(),
{
    if body.len() == 0 {
        Some(s)
    } else if body.len() < chunk_len(body[0]) {
        None
    } else {
        dec_walk(
            dec_chunk(s, body.take(chunk_len(body[0]) as int)),
            body.skip(chunk_len(body[0]) as int),
        )
    }
}

/// What `decode` gives for a byte stream.  A stream too short for a header,
/// or with the wrong magic, is no image of this format; one without the end
/// marker after the header, with a cut-off chunk, or whose pixel count is not
/// width times height, is corrupt.
pub open spec fn decode_bytes(bytes: Seq<u8>) -> Result<ImageView, ImgError> {
    if bytes.len() < HEADER_LEN {
        Err(ImgError::HeaderError)
    } else {
        match parse_header(bytes) {
            Err(e) => Err(e),
            Ok((width, height, channels, colorspace)) => {
                if bytes.len() < HEADER_LEN + END_LEN || bytes.subrange(
                    bytes.len() - END_LEN,
                    bytes.len() as int,
                ) != end_marker() {
                    Err(ImgError::DecodeError)
                } else {
                    match dec_walk(
                        dec_start(),
                        bytes.subrange(HEADER_LEN as int, bytes.len() - END_LEN),
                    ) {
                        None => Err(ImgError::DecodeError),
                        Some(s) => if s.out.len() == width * height {
                            Ok(
                                ImageView {
                                    pixels: s.out,
                                    width,
                                    height,
                                    channels,
                                    colorspace,
                                },
                            )
                        } else {
                            Err(ImgError::DecodeError)
                        },
                    }
                }
            },
        }
    }
}

/// Relies on array_init::array_init, which calls the initializer once for
/// each slot and stores its result there: every slot holds a blank pixel.
#[verifier::external_body]
fn blank_cache_array() -> (cache: [Pixel; 64])
    ensures
        cache@ == blank_cache(),
{
    array_init::array_init(|_| Pixel::new(0, 0, 0, 0))
}

/// Decodes a byte stream into an image.  The pixel buffer grows with the
/// chunks actually read; nothing is reserved from the header's width and
/// height.
pub fn decode(bytes: Vec<u8>) -> (res: Result<Image, ImgError>)
    ensures
        view_result(res) == decode_bytes(bytes@),
{
    let mut prev_pixel: Pixel = Pixel::new(0, 0, 0, 255);
    let mut prev_buffer: [Pixel; 64] = blank_cache_array();

    if bytes.len() < HEADER_LEN {
        return Err(ImgError::HeaderError);
    }
    let (width, height, channels, colorspace) = match read_header(bytes.as_slice()) {
        Ok(header) => header,
        Err(err) => return Err(err),
    };

    if bytes.len() < HEADER_LEN + END_LEN {
        return Err(ImgError::DecodeError);
    }
    let end: usize = bytes.len() - END_LEN;
    if bytes[end + 7] != 1 {
        assert(bytes@.subrange(end as int, bytes@.len() as int)[7] != end_marker()[7]);
        return Err(ImgError::DecodeError);
    }
    for k in 0..7
        invariant
            end == bytes@.len() - END_LEN,
            bytes@.len() >= HEADER_LEN + END_LEN,
            bytes@.len() <= usize::MAX,
            parse_header(bytes@) == Ok::<(u32, u32, u8, u8), ImgError>(
                (width, height, channels, colorspace),
            ),
            forall|j: int| end <= j < end + k ==> #[trigger] bytes@[j] == 0,
    {
        if bytes[end + k] != 0 {
            assert(bytes@.subrange(end as int, bytes@.len() as int)[k as int] != end_marker()[k as int]);
            return Err(ImgError::DecodeError);
        }
    }
    assert(bytes@.subrange(end as int, bytes@.len() as int) =~= end_marker());

    let ghost body = bytes@.subrange(HEADER_LEN as int, end as int);
    let mut pixels: Vec<Pixel> = Vec::new();
    let mut i: usize = HEADER_LEN;
    assert(bytes@.subrange(i as int, end as int) == body);
    while i < end
        invariant
            HEADER_LEN <= i <= end,
            end == bytes@.len() - END_LEN,
            bytes@.len() >= HEADER_LEN + END_LEN,
            parse_header(bytes@) == Ok::<(u32, u32, u8, u8), ImgError>(
                (width, height, channels, colorspace),
            ),
            bytes@.subrange(end as int, bytes@.len() as int) == end_marker(),
            body == bytes@.subrange(HEADER_LEN as int, end as int),
            dec_walk(
                DecState { prev: prev_pixel, cache: prev_buffer@, out: pixels@ },
                bytes@.subrange(i as int, end as int),
            ) == dec_walk(dec_start(), body),
        decreases end - i,
    {
        let ghost s = DecState { prev: prev_pixel, cache: prev_buffer@, out: pixels@ };
        let ghost rest = bytes@.subrange(i as int, end as int);
        let tag: u8 = bytes[i];
        proof {
            lemma_byte_fields(tag);
        }
        let kind: ChunkType = match read_tag(tag) {
            Ok(kind) => kind,
            Err(err) => return Err(err),
        };
        let n: usize = match kind {
            ChunkType::RGB => 4,
            ChunkType::RGBA => 5,
            ChunkType::Luma => 2,
            _ => 1,
        };
        if end - i < n {
            return Err(ImgError::DecodeError);
        }
        assert(rest.take(n as int) =~= bytes@.subrange(i as int, i + n));
        assert(rest.skip(n as int) =~= bytes@.subrange(i + n, end as int));
        assert(rest.take(n as int)[0] == tag);
        match kind {
            ChunkType::RGB => {
                let dec_pix: Pixel = dec_rgb(&bytes[i..i + 4], prev_pixel.a);
                prev_pixel = dec_pix;
                prev_buffer[color_hash(&dec_pix) as usize] = dec_pix;
                pixels.push(dec_pix);
            },
            ChunkType::RGBA => {
                let dec_pix: Pixel = dec_rgba(&bytes[i..i + 5]);
                prev_pixel = dec_pix;
                prev_buffer[color_hash(&dec_pix) as usize] = dec_pix;
                pixels.push(dec_pix);
            },
            ChunkType::Diff => {
                let dec_pix: Pixel = dec_diff(tag, &prev_pixel);
                prev_pixel = dec_pix;
                prev_buffer[color_hash(&dec_pix) as usize] = dec_pix;
                pixels.push(dec_pix);
            },
            ChunkType::Index => {
                let dec_pix: Pixel = prev_buffer[tag as usize];
                prev_pixel = dec_pix;
                prev_buffer[color_hash(&dec_pix) as usize] = dec_pix;
                pixels.push(dec_pix);
            },
            ChunkType::Luma => {
                let dec_pix: Pixel = dec_luma(&bytes[i..i + 2], &prev_pixel);
                prev_pixel = dec_pix;
                prev_buffer[color_hash(&dec_pix) as usize] = dec_pix;
                pixels.push(dec_pix);
            },
            ChunkType::Run => {
                let length: u8 = (tag & 0b0011_1111) + RUN_BIAS;
                let ghost before = pixels@;
                for j in 0..length
                    invariant
                        pixels@ =~= before + Seq::new(j as nat, |k: int| prev_pixel),
                {
                    pixels.push(prev_pixel);
                }
                prev_buffer[color_hash(&prev_pixel) as usize] = prev_pixel;
            },
        }
        assert(DecState { prev: prev_pixel, cache: prev_buffer@, out: pixels@ } == dec_chunk(
            s,
            rest.take(n as int),
        ));
        i = i + n;
    }
    assert(bytes@.subrange(i as int, end as int) =~= Seq::<u8>::empty());

    proof {
        crate::image::lemma_cell_count_fits(width, height);
    }
    if pixels.len() as u64 != width as u64 * height as u64 {
        return Err(ImgError::DecodeError);
    }
    Image::from_pixels(pixels, height, width, channels, colorspace)
}

} // verus!
