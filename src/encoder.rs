//! The encoder: pixels in, chunk stream out.

use vstd::prelude::*;

use crate::format::{
    blank_cache, blank_pixel, chunk_bytes, end_marker, header_bytes, End, Header,
    run_bytes, start_pixel, END_LEN, HEADER_LEN, MAX_RUN, QOI_OP_DIFF, QOI_OP_INDEX, QOI_OP_LUMA,
    QOI_OP_RGB, QOI_OP_RGBA, QOI_OP_RUN, RUN_BIAS,
};
use crate::image::{Image, ImageView};
use crate::pixel::{classify, color_hash, hash_of, ChunkType, Pixel};

verus! {

/// The running state of the encoder after some pixels: the previous pixel,
/// the cache, the length of the pending run, and the chunk bytes emitted so far.
pub struct EncState {
    pub prev: Pixel,
    pub cache: Seq<Pixel>,
    pub run: nat,
    pub out: Seq<u8>,
}

/// The encoder state before the first pixel.
pub open spec fn enc_start() -> EncState {
    EncState { prev: start_pixel(), cache: blank_cache(), run: 0, out: seq![] }
}

/// The encoder state after pixel `p`.  A repeat of the previous pixel only
/// lengthens the pending run.  Any other pixel first flushes the run, then
/// emits its own chunk, becomes the previous pixel and, unless it was found in
/// the cache, is stored at its slot.
pub open spec fn enc_step(s: EncState, p: Pixel) -> EncState {
    let chunk = classify(p, s.prev, s.cache);
    if chunk.0 == ChunkType::Run {
        EncState { prev: p, cache: s.cache, run: s.run + 1, out: s.out }
    } else {
        EncState {
            prev: p,
            cache: if chunk.0 == ChunkType::Index {
                s.cache
            } else {
                s.cache.update(hash_of(p), p)
            },
            run: 0,
            out: s.out + run_bytes(s.run) + chunk_bytes(p, chunk),
        }
    }
}

/// The encoder state after the first `n` pixels of `pixels`.
pub open spec fn enc_prefix(pixels: Seq<Pixel>, n: nat) -> EncState
    decreases n,
{
    if n == 0 {
        enc_start()
    } else {
        enc_step(enc_prefix(pixels, (n - 1) as nat), pixels[n - 1])
    }
}

/// The chunk stream of a pixel sequence: the chunks of all pixels, then the
/// run still pending at the end.
pub open spec fn encode_body(pixels: Seq<Pixel>) -> Seq<u8> {
    let s = enc_prefix(pixels, pixels.len());
    s.out + run_bytes(s.run)
}

/// The encoding of an image: header, chunk stream, end marker.
pub open spec fn encode_image(img: ImageView) -> Seq<u8> {
    header_bytes(img.width, img.height, img.channels, img.colorspace) + encode_body(img.pixels)
        + end_marker()
}

/// The encoder's cache always has 64 slots.
pub proof fn lemma_enc_cache_len(pixels: Seq<Pixel>, n: nat)
    ensures
        enc_prefix(pixels, n).cache.len() == 64,
    decreases n,
{
    if n > 0 {
        lemma_enc_cache_len(pixels, (n - 1) as nat);
    }
}

/// The tag bytes that the encoder builds with `|`, as sums.
proof fn lemma_tag_packing(x: u8, y: u8, z: u8)
    requires
        x < 64,
        y < 16,
        z < 16,
    ensures
        QOI_OP_INDEX | x == x,
        QOI_OP_RUN | x == QOI_OP_RUN + x,
        QOI_OP_LUMA | x == QOI_OP_LUMA + x,
        z | (y << 4u8) == y * 16 + z,
        (y < 4 && z < 4 && x < 4) ==> QOI_OP_DIFF | (x << 4u8) | (y << 2u8) | z == QOI_OP_DIFF + x
            * 16 + y * 4 + z,
{
    assert((0u8 | x == x) && (0b1100_0000u8 | x == 0b1100_0000u8 + x) && (0b1000_0000u8 | x
        == 0b1000_0000u8 + x) && (z | (y << 4u8) == y * 16 + z) && ((y < 4 && z < 4 && x < 4) ==> (
    0b0100_0000u8 | (x << 4u8) | (y << 2u8) | z) == 0b0100_0000u8 + x * 16 + y * 4 + z))
        by (bit_vector)
        requires
            x < 64,
            y < 16,
            z < 16,
    ;
}

/// Appends the run chunks of a run of `run` repeated pixels.
fn push_run(out: &mut Vec<u8>, run: u64)
    ensures
        final(out)@ == old(out)@ + run_bytes(run as nat),
{
    let ghost start = out@;
    let ghost total = run as nat;
    let mut run: u64 = run;
    while run > MAX_RUN as u64
        invariant
            out@ + run_bytes(run as nat) == start + run_bytes(total),
        decreases run,
    {
        proof {
            lemma_tag_packing((MAX_RUN - RUN_BIAS) as u8, 0, 0);
        }
        out.push(QOI_OP_RUN | (MAX_RUN - RUN_BIAS));
        run -= MAX_RUN as u64;
        assert(out@ + run_bytes(run as nat) =~= start + run_bytes(total));
    }
    if run > 0 {
        let run8: u8 = run as u8;
        proof {
            lemma_tag_packing((run8 - RUN_BIAS) as u8, 0, 0);
        }
        out.push(QOI_OP_RUN | (run8 - RUN_BIAS));
    }
    assert(out@ =~= start + run_bytes(total));
}

/// Appends the chunk `chunk` that encodes `pixel` after `prev`, and stores
/// the pixel at its cache slot unless the chunk is an index into the cache.
fn push_chunk(
    out: &mut Vec<u8>,
    cache: &mut Vec<Pixel>,
    pixel: Pixel,
    prev: &Pixel,
    chunk: (ChunkType, Option<(u8, u8, u8)>),
)
    requires
        old(cache)@.len() == 64,
        chunk == classify(pixel, *prev, old(cache)@),
        chunk.0 != ChunkType::Run,
    ensures
        final(out)@ == old(out)@ + chunk_bytes(pixel, chunk),
        final(cache)@ == if chunk.0 == ChunkType::Index {
            old(cache)@
        } else {
            old(cache)@.update(hash_of(pixel), pixel)
        },
{
    let ghost start = out@;
    match chunk {
        (ChunkType::Index, Some((index, _, _))) => {
            proof {
                lemma_tag_packing(index, 0, 0);
            }
            out.push(QOI_OP_INDEX | index);
        },
        (ChunkType::Diff, Some((dr, dg, db))) => {
            proof {
                lemma_tag_packing(dr, dg, db);
            }
            out.push(QOI_OP_DIFF | (dr << 4u8) | (dg << 2u8) | db);
            cache[color_hash(&pixel) as usize] = pixel;
        },
        (ChunkType::Luma, Some((dg, dr_dg, db_dg))) => {
            proof {
                lemma_tag_packing(dg, dr_dg, db_dg);
            }
            out.push(QOI_OP_LUMA | dg);
            out.push(db_dg | (dr_dg << 4u8));
            cache[color_hash(&pixel) as usize] = pixel;
        },
        (ChunkType::RGB, _) => {
            out.push(QOI_OP_RGB);
            out.push(pixel.r);
            out.push(pixel.g);
            out.push(pixel.b);
            cache[color_hash(&pixel) as usize] = pixel;
        },
        (ChunkType::RGBA, _) => {
            out.push(QOI_OP_RGBA);
            out.push(pixel.r);
            out.push(pixel.g);
            out.push(pixel.b);
            out.push(pixel.a);
            cache[color_hash(&pixel) as usize] = pixel;
        },
        // classify pairs Index, Diff and Luma with a payload
        _ => {},
    }
    assert(out@ =~= start + chunk_bytes(pixel, chunk));
}

/// Encodes an image: the header, the chunk of every pixel (repeats folded
/// into run chunks), and the end marker.
pub fn encode_from_image(img: Image) -> (encoded_bytes: Vec<u8>)
    ensures
        encoded_bytes@ == encode_image(img@),
{
    let mut prev_pixel: Pixel = Pixel { r: 0, g: 0, b: 0, a: 255 };
    let mut prev_buffer: Vec<Pixel> = Vec::with_capacity(64);
    for i in 0..64
        invariant
            prev_buffer@ =~= Seq::new(i as nat, |j: int| blank_pixel()),
    {
        prev_buffer.push(Pixel { r: 0, g: 0, b: 0, a: 0 });
    }

    let mut encoded_bytes: Vec<u8> = Vec::new();
    let head = Header {
        magic: ['q', 'o', 'i', 'f'],
        width: img.width(),
        height: img.height(),
        channels: img.channels(),
        colorspace: img.colorspace(),
    };
    let head_stream: [u8; 14] = head.convert_to_bytestream();
    for k in 0..HEADER_LEN
        invariant
            encoded_bytes@ =~= head_stream@.take(k as int),
    {
        encoded_bytes.push(head_stream[k]);
    }
    let ghost header = head_stream@;

    let pixels: &Vec<Pixel> = img.pixels();
    let mut run: u64 = 0;
    for i in 0..pixels.len()
        invariant
            header == header_bytes(img@.width, img@.height, img@.channels, img@.colorspace),
            pixels@ == img@.pixels,
            run <= i,
            ({
                let s = enc_prefix(pixels@, i as nat);
                &&& prev_pixel == s.prev
                &&& prev_buffer@ == s.cache
                &&& run == s.run
                &&& encoded_bytes@ == header + s.out
            }),
    {
        let pixel: Pixel = pixels[i];
        proof {
            lemma_enc_cache_len(pixels@, i as nat);
        }
        let chunk: (ChunkType, Option<(u8, u8, u8)>) = pixel.determine_chunk(&prev_pixel, &prev_buffer);
        if chunk.0 == ChunkType::Run {
            run += 1;
            prev_pixel = pixel;
        } else {
            push_run(&mut encoded_bytes, run);
            run = 0;
            push_chunk(&mut encoded_bytes, &mut prev_buffer, pixel, &prev_pixel, chunk);
            prev_pixel = pixel;
            assert(encoded_bytes@ =~= header + enc_prefix(pixels@, (i + 1) as nat).out);
        }
    }
    push_run(&mut encoded_bytes, run);

    let end: [u8; 8] = End::new().bytes;
    let ghost body_end = encoded_bytes@;
    for k in 0..END_LEN
        invariant
            encoded_bytes@ =~= body_end + end@.take(k as int),
    {
        encoded_bytes.push(end[k]);
    }
    assert(pixels@.len() == img@.pixels.len());
    assert(encoded_bytes@ =~= encode_image(img@));
    encoded_bytes
}

} // verus!
