//! Pixels, their hash and the choice of the chunk that encodes a pixel.

use vstd::prelude::*;

verus! {

/// One RGBA pixel with 8 bits per channel.
#[derive(Clone, Copy, Debug, PartialEq, Eq, Structural)]
pub struct Pixel {
    pub r: u8,
    pub g: u8,
    pub b: u8,
    pub a: u8,
}

/// The six kinds of chunk of the format.
#[derive(Clone, Copy, Debug, PartialEq, Eq, Structural)]
pub enum ChunkType {
    Run,
    Index,
    Luma,
    Diff,
    RGB,
    RGBA,
}

/// Bias added to each channel difference of a `Diff` chunk.
pub const DIFF_BIAS: u8 = 2;

/// Bias added to the green difference of a `Luma` chunk.
pub const LUMA_BIAS_G: u8 = 32;

/// Bias added to the red and blue differences (relative to green) of a `Luma` chunk.
pub const LUMA_BIAS_RB: u8 = 8;

/// The slot of the 64-entry cache that remembers `p`.
pub open spec fn hash_of(p: Pixel) -> int {
    (p.r * 3 + p.g * 5 + p.b * 7 + p.a * 11) % 64
}

/// The difference `x - y` modulo 256, taken as the representative of
/// smallest magnitude in `-127..=128` (a tie at 128 stays positive).
pub open spec fn wrap_delta(x: u8, y: u8) -> int {
    let d = (x - y) % 256;
    if d <= 128 {
        d
    } else {
        d - 256
    }
}

/// The chunk kind and payload that encode `cur` after `prev`, with `cache` as
/// the encoder's 64-slot cache.  The first matching rule wins:
/// a repeat of `prev` is a run; a pixel found at its cache slot is an index;
/// a change of alpha needs a full RGBA chunk; small channel differences fit a
/// `Diff` (each in `-2..=1`, stored with bias 2) or a `Luma` (green in `-32..=31`,
/// red and blue relative to green in `-8..=7`, stored with biases 32 and 8);
/// anything else is a full RGB chunk.
pub open spec fn classify(cur: Pixel, prev: Pixel, cache: Seq<Pixel>) -> (
    ChunkType,
    Option<(u8, u8, u8)>,
) {
    let dr = wrap_delta(cur.r, prev.r);
    let dg = wrap_delta(cur.g, prev.g);
    let db = wrap_delta(cur.b, prev.b);
    if cur == prev {
        (ChunkType::Run, None)
    } else if cur == cache[hash_of(cur)] {
        (ChunkType::Index, Some((hash_of(cur) as u8, 0u8, 0u8)))
    } else if cur.a != prev.a {
        (ChunkType::RGBA, None)
    } else if -2 <= dr <= 1 && -2 <= dg <= 1 && -2 <= db <= 1 {
        (ChunkType::Diff, Some(((dr + 2) as u8, (dg + 2) as u8, (db + 2) as u8)))
    } else if -32 <= dg <= 31 && -8 <= dr - dg <= 7 && -8 <= db - dg <= 7 {
        (ChunkType::Luma, Some(((dg + 32) as u8, (dr - dg + 8) as u8, (db - dg + 8) as u8)))
    } else {
        (ChunkType::RGB, None)
    }
}

impl Pixel {
    pub fn new(r: u8, g: u8, b: u8, a: u8) -> (p: Pixel)
        ensures
            p == (Pixel { r, g, b, a }),
    {
        Pixel { r, g, b, a }
    }

    /// Equality of all four channels.
    pub fn equals(&self, other: &Pixel) -> (eq: bool)
        ensures
            eq == (*self == *other),
    {
        (self.r == other.r) && (self.g == other.g) && (self.b == other.b) && (self.a == other.a)
    }

    /// Equality of the red, green and blue channels, alpha ignored.
    pub fn equals_rgb(&self, other: &Pixel) -> (eq: bool)
        ensures
            eq == (self.r == other.r && self.g == other.g && self.b == other.b),
    {
        (self.r == other.r) && (self.g == other.g) && (self.b == other.b)
    }

    /// The chunk that encodes `self` right after `other`, given the encoder's
    /// cache `buffer`.  The result depends on these three values alone.
    pub fn determine_chunk(&self, other: &Pixel, buffer: &Vec<Pixel>) -> (chunk: (
        ChunkType,
        Option<(u8, u8, u8)>,
    ))
        requires
            buffer@.len() == 64,
        ensures
            chunk == classify(*self, *other, buffer@),
    {
        if self.equals(other) {
            return (ChunkType::Run, None);
        }
        let h: u8 = color_hash(self);
        if self.equals(&buffer[h as usize]) {
            return (ChunkType::Index, Some((h, 0, 0)));
        }
        if self.a != other.a {
            return (ChunkType::RGBA, None);
        }
        let diff_tuple: (i16, i16, i16) = self.diff(other);
        let dr: i16 = diff_tuple.0;
        let dg: i16 = diff_tuple.1;
        let db: i16 = diff_tuple.2;

        if (dr > -3 && dr < 2) && (dg > -3 && dg < 2) && (db > -3 && db < 2) {
            let dr: u8 = (dr + DIFF_BIAS as i16) as u8;
            let dg: u8 = (dg + DIFF_BIAS as i16) as u8;
            let db: u8 = (db + DIFF_BIAS as i16) as u8;
            (ChunkType::Diff, Some((dr, dg, db)))
        } else if (dg > -33 && dg < 32) && ((dr - dg) > -9) && ((dr - dg) < 8) && ((db - dg) > -9)
            && ((db - dg) < 8) {
            let dg_out: u8 = (dg + LUMA_BIAS_G as i16) as u8;
            let dr_dg: u8 = (dr - dg + LUMA_BIAS_RB as i16) as u8;
            let db_dg: u8 = (db - dg + LUMA_BIAS_RB as i16) as u8;
            (ChunkType::Luma, Some((dg_out, dr_dg, db_dg)))
        } else {
            (ChunkType::RGB, None)
        }
    }

    /// Channel-wise wrap-around difference `self - other` of red, green and
    /// blue, each as the representative of smallest magnitude (see `wrap_delta`).
    pub fn diff(&self, other: &Pixel) -> (d: (i16, i16, i16))
        ensures
            d.0 == wrap_delta(self.r, other.r),
            d.1 == wrap_delta(self.g, other.g),
            d.2 == wrap_delta(self.b, other.b),
    {
        (channel_diff(self.r, other.r), channel_diff(self.g, other.g), channel_diff(self.b, other.b))
    }
}

/// `wrap_delta` of one channel: the two wrap-around subtractions, of which the
/// smaller wins, the reverse one negated.
fn channel_diff(x: u8, y: u8) -> (d: i16)
    ensures
        d == wrap_delta(x, y),
{
    let mut d: i16 = x.wrapping_sub(y) as i16;
    let d_inv: i16 = y.wrapping_sub(x) as i16;
    // both lie in 0..=255, so they compare as their magnitudes
    if d > d_inv {
        d = -d_inv;
    }
    d
}

/// Cache index of a pixel: `(3r + 5g + 7b + 11a) mod 64`, always below 64.
pub fn color_hash(pixel: &Pixel) -> (h: u8)
    ensures
        h == hash_of(*pixel),
        h < 64,
{
    let store: u32 = pixel.r as u32 * 3 + pixel.g as u32 * 5 + pixel.b as u32 * 7 + pixel.a as u32
        * 11;
    (store % 64) as u8
}

} // verus!
