//! The wire format: the 14-byte header, the 8-byte end marker, the tag bytes
//! of the six chunk kinds, and the decoders of single chunks.

use vstd::prelude::*;
use vstd::string::StringExecFns;

use crate::image::ImgError;
use crate::pixel::{ChunkType, Pixel, DIFF_BIAS, LUMA_BIAS_G, LUMA_BIAS_RB};

verus! {

/// Tag byte of a chunk with raw red, green and blue.
pub const QOI_OP_RGB: u8 = 0b1111_1110;

/// Tag byte of a chunk with raw red, green, blue and alpha.
pub const QOI_OP_RGBA: u8 = 0b1111_1111;

/// Top two bits of a run chunk; the low six hold the run length minus one.
pub const QOI_OP_RUN: u8 = 0b1100_0000;

/// Top two bits of an index chunk; the low six hold the cache slot.
pub const QOI_OP_INDEX: u8 = 0b0000_0000;

/// Top two bits of a diff chunk; the low six hold three 2-bit differences.
pub const QOI_OP_DIFF: u8 = 0b0100_0000;

/// Top two bits of the first byte of a luma chunk; the low six hold the green difference.
pub const QOI_OP_LUMA: u8 = 0b1000_0000;

/// A run chunk stores its length minus this bias.
pub const RUN_BIAS: u8 = 1;

/// The longest run that one run chunk can hold (lengths 63 and 64 would
/// collide with the RGB and RGBA tags).
pub const MAX_RUN: u8 = 62;

/// Length of the header.
pub const HEADER_LEN: usize = 14;

/// Length of the end marker.
pub const END_LEN: usize = 8;

/// The previous pixel that both directions start from.
pub open spec fn start_pixel() -> Pixel {
    Pixel { r: 0, g: 0, b: 0, a: 255 }
}

/// The pixel that fills every cache slot at the start.
pub open spec fn blank_pixel() -> Pixel {
    Pixel { r: 0, g: 0, b: 0, a: 0 }
}

/// The cache that both directions start from: 64 blank pixels.
pub open spec fn blank_cache() -> Seq<Pixel> {
    Seq::new(64, |i: int| blank_pixel())
}

/// The four magic bytes "qoif" that open every stream.
pub open spec fn magic() -> Seq<u8> {
    seq!['q' as u8, 'o' as u8, 'i' as u8, 'f' as u8]
}

/// The four big-endian bytes of `v`.
pub open spec fn be_bytes(v: u32) -> Seq<u8> {
    seq![(v >> 24u32) as u8, (v >> 16u32) as u8, (v >> 8u32) as u8, v as u8]
}

/// The big-endian value of four bytes.
pub open spec fn be_value(b0: u8, b1: u8, b2: u8, b3: u8) -> u32 {
    ((b0 as u32) << 24u32) | ((b1 as u32) << 16u32) | ((b2 as u32) << 8u32) | (b3 as u32)
}

/// The header of an image: magic, width and height big-endian, channels, colorspace.
pub open spec fn header_bytes(width: u32, height: u32, channels: u8, colorspace: u8) -> Seq<u8> {
    magic() + be_bytes(width) + be_bytes(height) + seq![channels, colorspace]
}

/// The end marker: seven zero bytes and a one.
pub open spec fn end_marker() -> Seq<u8> {
    seq![0u8, 0u8, 0u8, 0u8, 0u8, 0u8, 0u8, 1u8]
}

/// What `read_header` gives for the first 14 bytes of a stream: width,
/// height, channels and colorspace, or a header error when the magic is wrong.
pub open spec fn parse_header(b: Seq<u8>) -> Result<(u32, u32, u8, u8), ImgError> {
    if b.subrange(0, 4) == magic() {
        Ok((be_value(b[4], b[5], b[6], b[7]), be_value(b[8], b[9], b[10], b[11]), b[12], b[13]))
    } else {
        Err(ImgError::HeaderError)
    }
}

/// The bytes of the chunk `chunk` (as `classify` gives it) for pixel `p`.
pub open spec fn chunk_bytes(p: Pixel, chunk: (ChunkType, Option<(u8, u8, u8)>)) -> Seq<u8> {
    match chunk {
        (ChunkType::Index, Some((index, _, _))) => seq![(QOI_OP_INDEX + index) as u8],
        (ChunkType::Diff, Some((dr, dg, db))) => seq![
            (QOI_OP_DIFF + dr * 16 + dg * 4 + db) as u8,
        ],
        (ChunkType::Luma, Some((dg, dr_dg, db_dg))) => seq![
            (QOI_OP_LUMA + dg) as u8,
            (dr_dg * 16 + db_dg) as u8,
        ],
        (ChunkType::RGB, _) => seq![QOI_OP_RGB, p.r, p.g, p.b],
        (ChunkType::RGBA, _) => seq![QOI_OP_RGBA, p.r, p.g, p.b, p.a],
        _ => seq![],
    }
}

/// The run chunks of a run of `k` repeated pixels: chunks of 62 while more
/// than 62 remain, then one chunk for the rest; nothing for an empty run.
pub open spec fn run_bytes(k: nat) -> Seq<u8>
    decreases k,
{
    if k == 0 {
        seq![]
    } else if k <= MAX_RUN {
        seq![(QOI_OP_RUN + k - RUN_BIAS) as u8]
    } else {
        seq![(QOI_OP_RUN + MAX_RUN - RUN_BIAS) as u8] + run_bytes((k - MAX_RUN) as nat)
    }
}

/// The kind of the chunk that starts with `tag`.  The two full tags come
/// first; any other byte is told by its top two bits, so every byte is a tag.
pub open spec fn tag_kind(tag: u8) -> ChunkType {
    if tag == QOI_OP_RGB {
        ChunkType::RGB
    } else if tag == QOI_OP_RGBA {
        ChunkType::RGBA
    } else if tag / 64 == 0 {
        ChunkType::Index
    } else if tag / 64 == 1 {
        ChunkType::Diff
    } else if tag / 64 == 2 {
        ChunkType::Luma
    } else {
        ChunkType::Run
    }
}

/// `v` modulo 256, as a byte.
pub open spec fn wrap(v: int) -> u8 {
    (v % 256) as u8
}

/// The pixel of a diff chunk: each 2-bit field less bias 2 is added to the
/// channel of `prev`, wrapping; alpha is kept.
pub open spec fn diff_pixel(tag: u8, prev: Pixel) -> Pixel {
    Pixel {
        r: wrap(prev.r + (tag / 16) % 4 - DIFF_BIAS),
        g: wrap(prev.g + (tag / 4) % 4 - DIFF_BIAS),
        b: wrap(prev.b + tag % 4 - DIFF_BIAS),
        a: prev.a,
    }
}

/// The pixel of a luma chunk: green difference from the low six bits of the
/// first byte (bias 32), red and blue relative to green from the two nibbles
/// of the second (bias 8); the differences are added to `prev`, wrapping.
pub open spec fn luma_pixel(b0: u8, b1: u8, prev: Pixel) -> Pixel {
    let dg = b0 % 64 - LUMA_BIAS_G;
    Pixel {
        r: wrap(prev.r + b1 / 16 - LUMA_BIAS_RB + dg),
        g: wrap(prev.g + dg),
        b: wrap(prev.b + b1 % 16 - LUMA_BIAS_RB + dg),
        a: prev.a,
    }
}

/// The bit fields of a byte, as arithmetic.
pub proof fn lemma_byte_fields(b: u8)
    ensures
        (b & 0b1100_0000 == QOI_OP_INDEX) == (b / 64 == 0),
        (b & 0b1100_0000 == QOI_OP_DIFF) == (b / 64 == 1),
        (b & 0b1100_0000 == QOI_OP_LUMA) == (b / 64 == 2),
        (b & 0b1100_0000 == QOI_OP_RUN) == (b / 64 == 3),
        (b & 0b0011_0000) >> 4u8 == (b / 16) % 4,
        (b & 0b0000_1100) >> 2u8 == (b / 4) % 4,
        b & 0b0000_0011 == b % 4,
        b & 0b0011_1111 == b % 64,
        (b & 0b1111_0000) >> 4u8 == b / 16,
        b & 0b0000_1111 == b % 16,
{
    assert(((b & 0b1100_0000 == 0u8) == (b / 64 == 0)) && ((b & 0b1100_0000 == 0b0100_0000u8) == (b
        / 64 == 1)) && ((b & 0b1100_0000 == 0b1000_0000u8) == (b / 64 == 2)) && ((b & 0b1100_0000
        == 0b1100_0000u8) == (b / 64 == 3))) by (bit_vector);
    assert(((b & 0b0011_0000) >> 4u8 == (b / 16) % 4) && ((b & 0b0000_1100) >> 2u8 == (b / 4) % 4)
        && (b & 0b0000_0011 == b % 4) && (b & 0b0011_1111 == b % 64) && ((b & 0b1111_0000) >> 4u8
        == b / 16) && (b & 0b0000_1111 == b % 16)) by (bit_vector);
}

/// Adding `y` and then taking `c` away, both wrapping, is `x + y - c` modulo 256.
proof fn lemma_wrapping_add_sub(x: u8, y: u8, c: u8)
    ensures
        x.wrapping_add(y).wrapping_sub(c) == wrap(x + y - c),
{
}

/// Fixed-size header of a stream.
pub(crate) struct Header {
    pub(crate) magic: [char; 4],
    pub(crate) width: u32,
    pub(crate) height: u32,
    pub(crate) channels: u8,
    pub(crate) colorspace: u8,
}

impl Header {
    /// The header as its 14 bytes.
    pub(crate) fn convert_to_bytestream(&self) -> (out: [u8; 14])
        ensures
            out@ == seq![
                self.magic[0] as u8,
                self.magic[1] as u8,
                self.magic[2] as u8,
                self.magic[3] as u8,
            ] + be_bytes(self.width) + be_bytes(self.height) + seq![self.channels, self.colorspace],
    {
        let out: [u8; 14] = [
            self.magic[0] as u8,
            self.magic[1] as u8,
            self.magic[2] as u8,
            self.magic[3] as u8,
            (self.width >> 24u32) as u8,
            (self.width >> 16u32) as u8,
            (self.width >> 8u32) as u8,
            self.width as u8,
            (self.height >> 24u32) as u8,
            (self.height >> 16u32) as u8,
            (self.height >> 8u32) as u8,
            self.height as u8,
            self.channels,
            self.colorspace,
        ];
        assert(out@ =~= seq![
            self.magic[0] as u8,
            self.magic[1] as u8,
            self.magic[2] as u8,
            self.magic[3] as u8,
        ] + be_bytes(self.width) + be_bytes(self.height) + seq![self.channels, self.colorspace]);
        out
    }
}

/// The end-of-stream marker.
pub(crate) struct End {
    pub(crate) bytes: [u8; 8],
}

impl End {
    pub(crate) fn new() -> (e: End)
        ensures
            e.bytes@ == end_marker(),
    {
        let e = End { bytes: [0x00, 0x00, 0x00, 0x00, 0x00, 0x00, 0x00, 0x01] };
        assert(e.bytes@ =~= end_marker());
        e
    }
}

/// The name of the file that holds a stream called `filename`: the name with
/// the extension `.qoi` added.
pub fn qoi_file_name(filename: &str) -> (path: String)
    ensures
        path@ == filename@ + ".qoi"@,
{
    filename.to_owned().concat(".qoi")
}

/// Reads width, height, channels and colorspace from a header; fails with a
/// header error when the magic bytes are wrong.
pub fn read_header(bytes: &[u8]) -> (res: Result<(u32, u32, u8, u8), ImgError>)
    requires
        bytes@.len() >= HEADER_LEN,
    ensures
        res == parse_header(bytes@),
{
    if bytes[0] == 'q' as u8 && bytes[1] == 'o' as u8 && bytes[2] == 'i' as u8 && bytes[3] == 'f' as u8 {
        assert(bytes@.subrange(0, 4) =~= magic());
        let width: u32 = ((bytes[4] as u32) << 24u32) | ((bytes[5] as u32) << 16u32) | ((
        bytes[6] as u32) << 8u32) | (bytes[7] as u32);
        let height: u32 = ((bytes[8] as u32) << 24u32) | ((bytes[9] as u32) << 16u32) | ((
        bytes[10] as u32) << 8u32) | (bytes[11] as u32);
        Ok((width, height, bytes[12], bytes[13]))
    } else {
        assert(bytes@.subrange(0, 4) != magic() ) by {
            if bytes@.subrange(0, 4) == magic() {
                assert(bytes@[0] == bytes@.subrange(0, 4)[0]);
                assert(bytes@[1] == bytes@.subrange(0, 4)[1]);
                assert(bytes@[2] == bytes@.subrange(0, 4)[2]);
                assert(bytes@[3] == bytes@.subrange(0, 4)[3]);
            }
        }
        Err(ImgError::HeaderError)
    }
}

/// The kind of chunk that the tag byte `tag` opens.  Every byte is the tag of
/// some kind, so this never fails.
pub fn read_tag(tag: u8) -> (res: Result<ChunkType, ImgError>)
    ensures
        res == Ok::<ChunkType, ImgError>(tag_kind(tag)),
{
    proof {
        lemma_byte_fields(tag);
    }
    if tag == QOI_OP_RGB {
        return Ok(ChunkType::RGB);
    }
    if tag == QOI_OP_RGBA {
        return Ok(ChunkType::RGBA);
    }
    if (tag & 0b1100_0000) == QOI_OP_DIFF {
        return Ok(ChunkType::Diff);
    }
    if (tag & 0b1100_0000) == QOI_OP_INDEX {
        return Ok(ChunkType::Index);
    }
    if (tag & 0b1100_0000) == QOI_OP_LUMA {
        return Ok(ChunkType::Luma);
    }
    if (tag & 0b1100_0000) == QOI_OP_RUN {
        return Ok(ChunkType::Run);
    }
    Err(ImgError::DecodeError)
}

/// The pixel of an RGB chunk `bytes` (tag first); alpha is `alpha`.
pub fn dec_rgb(bytes: &[u8], alpha: u8) -> (p: Pixel)
    requires
        bytes@.len() >= 4,
    ensures
        p == (Pixel { r: bytes@[1], g: bytes@[2], b: bytes@[3], a: alpha }),
{
    Pixel::new(bytes[1], bytes[2], bytes[3], alpha)
}

/// The pixel of an RGBA chunk `bytes` (tag first).
pub fn dec_rgba(bytes: &[u8]) -> (p: Pixel)
    requires
        bytes@.len() >= 5,
    ensures
        p == (Pixel { r: bytes@[1], g: bytes@[2], b: bytes@[3], a: bytes@[4] }),
{
    Pixel::new(bytes[1], bytes[2], bytes[3], bytes[4])
}

/// The pixel of the diff chunk `byte` that follows `prev_pixel`.
pub fn dec_diff(byte: u8, prev_pixel: &Pixel) -> (p: Pixel)
    ensures
        p == diff_pixel(byte, *prev_pixel),
{
    proof {
        lemma_byte_fields(byte);
    }
    let dr: u8 = (byte & 0b0011_0000) >> 4u8;
    let dg: u8 = (byte & 0b0000_1100) >> 2u8;
    let db: u8 = byte & 0b0000_0011;

    proof {
        lemma_wrapping_add_sub(prev_pixel.r, dr, DIFF_BIAS);
        lemma_wrapping_add_sub(prev_pixel.g, dg, DIFF_BIAS);
        lemma_wrapping_add_sub(prev_pixel.b, db, DIFF_BIAS);
    }
    let r: u8 = prev_pixel.r.wrapping_add(dr).wrapping_sub(DIFF_BIAS);
    let g: u8 = prev_pixel.g.wrapping_add(dg).wrapping_sub(DIFF_BIAS);
    let b: u8 = prev_pixel.b.wrapping_add(db).wrapping_sub(DIFF_BIAS);
    Pixel::new(r, g, b, prev_pixel.a)
}

/// The pixel of the luma chunk `bytes` (two bytes) that follows `prev_pixel`.
pub fn dec_luma(bytes: &[u8], prev_pixel: &Pixel) -> (p: Pixel)
    requires
        bytes@.len() >= 2,
    ensures
        p == luma_pixel(bytes@[0], bytes@[1], *prev_pixel),
{
    proof {
        lemma_byte_fields(bytes@[0]);
        lemma_byte_fields(bytes@[1]);
    }
    let dg: u8 = bytes[0] & 0b0011_1111;
    let dr_dg: u8 = (bytes[1] & 0b1111_0000) >> 4u8;
    let db_dg: u8 = bytes[1] & 0b0000_1111;
    let dr: u8 = dr_dg + dg;
    let db: u8 = db_dg + dg;

    proof {
        lemma_wrapping_add_sub(prev_pixel.r, dr, (LUMA_BIAS_RB + LUMA_BIAS_G) as u8);
        lemma_wrapping_add_sub(prev_pixel.g, dg, LUMA_BIAS_G);
        lemma_wrapping_add_sub(prev_pixel.b, db, (LUMA_BIAS_RB + LUMA_BIAS_G) as u8);
    }
    let r: u8 = prev_pixel.r.wrapping_add(dr).wrapping_sub(LUMA_BIAS_RB + LUMA_BIAS_G);
    let g: u8 = prev_pixel.g.wrapping_add(dg).wrapping_sub(LUMA_BIAS_G);
    let b: u8 = prev_pixel.b.wrapping_add(db).wrapping_sub(LUMA_BIAS_RB + LUMA_BIAS_G);
    Pixel::new(r, g, b, prev_pixel.a)
}

} // verus!
