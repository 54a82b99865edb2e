//! Properties of the codec that relate several functions, proved over the
//! models of the encoder and the decoder.

use vstd::prelude::*;

use crate::decoder::{chunk_len, dec_chunk, dec_start, dec_walk, decode_bytes, emit, DecState};
use crate::encoder::{enc_prefix, enc_step, encode_body, encode_image, lemma_enc_cache_len, EncState};
use crate::format::{
    be_bytes, be_value, chunk_bytes, diff_pixel, end_marker, header_bytes,
    luma_pixel, magic, parse_header, run_bytes, start_pixel, tag_kind, wrap, END_LEN, HEADER_LEN,
};
use crate::image::{ImageView, ImgError};
use crate::pixel::{classify, hash_of, wrap_delta, ChunkType, Pixel};

verus! {

/// Swapping the two pixels negates the difference of a channel, unless the
/// two values lie exactly 128 apart modulo 256: there both orders give 128.
pub proof fn lemma_wrap_delta_antisymmetric(x: u8, y: u8)
    requires
        (x - y) % 256 != 128,
    ensures
        wrap_delta(x, y) == -wrap_delta(y, x),
{
}

/// `difference(a, b) == -difference(b, a)` on every channel, for pixels no
/// channel of which differs by exactly 128 modulo 256.
pub proof fn lemma_diff_antisymmetric(a: Pixel, b: Pixel)
    requires
        (a.r - b.r) % 256 != 128,
        (a.g - b.g) % 256 != 128,
        (a.b - b.b) % 256 != 128,
    ensures
        wrap_delta(a.r, b.r) == -wrap_delta(b.r, a.r),
        wrap_delta(a.g, b.g) == -wrap_delta(b.g, a.g),
        wrap_delta(a.b, b.b) == -wrap_delta(b.b, a.b),
{
    lemma_wrap_delta_antisymmetric(a.r, b.r);
    lemma_wrap_delta_antisymmetric(a.g, b.g);
    lemma_wrap_delta_antisymmetric(a.b, b.b);
}

/// The classifier has no hidden state: the same pixel, previous pixel and
/// cache always give the same chunk kind and payload (and `determine_chunk`
/// returns exactly this classification).
pub proof fn lemma_classify_repeatable(
    cur: Pixel,
    prev: Pixel,
    cache: Seq<Pixel>,
    cur2: Pixel,
    prev2: Pixel,
    cache2: Seq<Pixel>,
)
    requires
        cur == cur2,
        prev == prev2,
        cache == cache2,
    ensures
        classify(cur, prev, cache) == classify(cur2, prev2, cache2),
{
}

/// A pixel equal to the previous one is a run, even when the cache holds it too.
pub proof fn lemma_run_before_index(cur: Pixel, prev: Pixel, cache: Seq<Pixel>)
    requires
        cur == prev,
        cache.len() == 64,
        cache.contains(cur),
    ensures
        classify(cur, prev, cache).0 == ChunkType::Run,
{
}

/// A stream with the wrong magic bytes fails with a header error, whatever follows them.
pub proof fn lemma_bad_magic(bytes: Seq<u8>)
    requires
        bytes.len() >= HEADER_LEN,
        bytes.subrange(0, 4) != magic(),
    ensures
        decode_bytes(bytes) == Err::<ImageView, ImgError>(ImgError::HeaderError),
{
}

/// Clearing the final byte of the end marker of a stream that decodes makes
/// decoding fail with a decode error.
pub proof fn lemma_end_marker_corruption(bytes: Seq<u8>)
    requires
        decode_bytes(bytes) is Ok,
    ensures
        decode_bytes(bytes.update(bytes.len() - 1, 0)) == Err::<ImageView, ImgError>(
            ImgError::DecodeError,
        ),
{
    let len = bytes.len();
    let changed = bytes.update(len - 1, 0);
    assert(changed.subrange(0, 4) =~= bytes.subrange(0, 4));
    assert(parse_header(changed) == parse_header(bytes));
    assert(changed.subrange(len - END_LEN, len as int)[7] == 0);
}

/// Adding the wrap-around difference of `x` and `y` back to `y` gives `x`.
proof fn lemma_wrap_delta_restores(x: u8, y: u8)
    ensures
        wrap(y + wrap_delta(x, y)) == x,
{
}

/// The encoder's and the decoder's caches agree on every slot that holds a
/// pixel hashing to that slot.  (They may differ on a slot still holding the
/// blank start pixel, which no index chunk can name.)
spec fn caches_agree(enc: Seq<Pixel>, dec: Seq<Pixel>) -> bool {
    &&& enc.len() == 64
    &&& dec.len() == 64
    &&& forall|h: int| 0 <= h < 64 && hash_of(#[trigger] enc[h]) == h ==> dec[h] == enc[h]
}

/// The fields of a diff tag built from three 2-bit values.
proof fn lemma_diff_tag_fields(x: int, y: int, z: int)
    requires
        0 <= x < 4,
        0 <= y < 4,
        0 <= z < 4,
    ensures
        ({
            let t = 64 + x * 16 + y * 4 + z;
            &&& t / 64 == 1
            &&& (t / 16) % 4 == x
            &&& (t / 4) % 4 == y
            &&& t % 4 == z
        }),
{
}

/// The fields of the two bytes of a luma chunk.
proof fn lemma_luma_fields(g: int, x: int, y: int)
    requires
        0 <= g < 64,
        0 <= x < 16,
        0 <= y < 16,
    ensures
        (128 + g) / 64 == 2,
        (128 + g) % 64 == g,
        (x * 16 + y) / 16 == x,
        (x * 16 + y) % 16 == y,
{
}

/// The chunk of a pixel that is neither a run nor an index, with its parts:
/// its length is told by its tag, and it decodes to the pixel.
proof fn lemma_decode_chunk_bytes(d: DecState, s: EncState, p: Pixel)
    requires
        d.prev == s.prev,
        caches_agree(s.cache, d.cache),
        classify(p, s.prev, s.cache).0 != ChunkType::Run,
    ensures
        ({
            let cb = chunk_bytes(p, classify(p, s.prev, s.cache));
            &&& cb.len() == chunk_len(cb[0])
            &&& dec_chunk(d, cb) == emit(d, p)
        }),
{
    let c = classify(p, s.prev, s.cache);
    let cb = chunk_bytes(p, c);
    let dr = wrap_delta(p.r, s.prev.r);
    let dg = wrap_delta(p.g, s.prev.g);
    let db = wrap_delta(p.b, s.prev.b);
    lemma_wrap_delta_restores(p.r, s.prev.r);
    lemma_wrap_delta_restores(p.g, s.prev.g);
    lemma_wrap_delta_restores(p.b, s.prev.b);
    if c.0 == ChunkType::Index {
        assert(s.cache[hash_of(p)] == p);
        assert(d.cache[hash_of(p)] == p);
        assert(tag_kind(cb[0]) == ChunkType::Index);
    } else if c.0 == ChunkType::Diff {
        lemma_diff_tag_fields(dr + 2, dg + 2, db + 2);
        assert(cb[0] == 64 + (dr + 2) * 16 + (dg + 2) * 4 + (db + 2));
        assert(tag_kind(cb[0]) == ChunkType::Diff);
        assert(diff_pixel(cb[0], d.prev) == p);
    } else if c.0 == ChunkType::Luma {
        lemma_luma_fields(dg + 32, dr - dg + 8, db - dg + 8);
        assert(cb[0] == 128 + dg + 32);
        assert(cb[1] == (dr - dg + 8) * 16 + (db - dg + 8));
        assert(tag_kind(cb[0]) == ChunkType::Luma);
        assert(luma_pixel(cb[0], cb[1], d.prev) == p);
    }
}

/// One chunk that the encoder emits decodes to the pixel it encodes, when the
/// decoder's previous pixel and cache match the encoder's.
proof fn lemma_decode_chunk(d: DecState, s: EncState, p: Pixel, rest: Seq<u8>)
    requires
        d.prev == s.prev,
        caches_agree(s.cache, d.cache),
        classify(p, s.prev, s.cache).0 != ChunkType::Run,
    ensures
        dec_walk(d, chunk_bytes(p, classify(p, s.prev, s.cache)) + rest) == dec_walk(
            emit(d, p),
            rest,
        ),
{
    let cb = chunk_bytes(p, classify(p, s.prev, s.cache));
    let body = cb + rest;
    let n = cb.len() as int;
    lemma_decode_chunk_bytes(d, s, p);
    assert(body[0] == cb[0]);
    assert(body.take(n) =~= cb);
    assert(body.skip(n) =~= rest);
}

/// The decoder state after a run of `k` copies of its previous pixel.
spec fn after_run(d: DecState, k: nat) -> DecState {
    if k == 0 {
        d
    } else {
        DecState {
            prev: d.prev,
            cache: d.cache.update(hash_of(d.prev), d.prev),
            out: d.out + Seq::new(k, |i: int| d.prev),
        }
    }
}

/// The run chunks of a run of `k` decode to `k` copies of the previous pixel.
proof fn lemma_decode_run(d: DecState, k: nat, rest: Seq<u8>)
    requires
        d.cache.len() == 64,
    ensures
        dec_walk(d, run_bytes(k) + rest) == dec_walk(after_run(d, k), rest),
    decreases k,
{
    if k == 0 {
        assert(run_bytes(0) + rest =~= rest);
    } else if k <= 62 {
        let body = run_bytes(k) + rest;
        assert(body[0] == 192 + k - 1);
        assert(tag_kind(body[0]) == ChunkType::Run);
        assert(body.take(1) =~= run_bytes(k));
        assert(body.skip(1) =~= rest);
        assert(dec_chunk(d, run_bytes(k)) =~= after_run(d, k));
    } else {
        let first = run_bytes(62);
        let more = run_bytes((k - 62) as nat);
        let body = run_bytes(k) + rest;
        assert(run_bytes(k) == first + more);
        assert(body =~= first + (more + rest));
        lemma_decode_run(d, 62, more + rest);
        let d1 = after_run(d, 62);
        lemma_decode_run(d1, (k - 62) as nat, rest);
        assert(after_run(d1, (k - 62) as nat).out =~= after_run(d, k).out);
        assert(after_run(d1, (k - 62) as nat).cache =~= after_run(d, k).cache);
    }
}

/// The slot of the encoder's previous pixel holds that pixel, or a pixel that
/// does not hash to the slot (the blank start pixel).
spec fn prev_slot_ok(s: EncState) -> bool {
    let h = hash_of(s.prev);
    s.cache[h] == s.prev || hash_of(s.cache[h]) != h
}

/// What the decoder makes of the chunks that the encoder has emitted after
/// the first `n` pixels: all of them but the pending run, with a previous
/// pixel and a cache that match the encoder's.
proof fn lemma_encode_prefix(pixels: Seq<Pixel>, n: nat, rest: Seq<u8>) -> (d: DecState)
    requires
        n <= pixels.len(),
    ensures
        dec_walk(dec_start(), enc_prefix(pixels, n).out + rest) == dec_walk(d, rest),
        ({
            let s = enc_prefix(pixels, n);
            &&& s.run <= n
            &&& d.out == pixels.take(n - s.run)
            &&& forall|k: int| n - s.run <= k < n ==> pixels[k] == s.prev
            &&& d.prev == s.prev
            &&& caches_agree(s.cache, d.cache)
            &&& prev_slot_ok(s)
        }),
    decreases n,
{
    lemma_enc_cache_len(pixels, n);
    if n == 0 {
        assert(seq![] + rest =~= rest);
        assert(pixels.take(0) =~= seq![]);
        assert(hash_of(start_pixel()) == 53);
        dec_start()
    } else {
        let m = (n - 1) as nat;
        let s = enc_prefix(pixels, m);
        let p = pixels[m as int];
        let c = classify(p, s.prev, s.cache);
        lemma_enc_cache_len(pixels, m);
        assert(enc_prefix(pixels, n) == enc_step(s, p));
        if c.0 == ChunkType::Run {
            lemma_encode_prefix(pixels, m, rest)
        } else {
            let cb = chunk_bytes(p, c);
            let rb = run_bytes(s.run);
            let d0 = lemma_encode_prefix(pixels, m, rb + (cb + rest));
            assert(enc_prefix(pixels, n).out + rest =~= s.out + (rb + (cb + rest)));
            lemma_decode_run(d0, s.run, cb + rest);
            let d1 = after_run(d0, s.run);
            assert(caches_agree(s.cache, d1.cache));
            lemma_decode_chunk(d1, s, p, rest);
            let d = emit(d1, p);
            assert(d.out =~= pixels.take(n as int));
            d
        }
    }
}

/// A width or height survives its four big-endian bytes.
proof fn lemma_be_round_trip(v: u32)
    ensures
        be_value(be_bytes(v)[0], be_bytes(v)[1], be_bytes(v)[2], be_bytes(v)[3]) == v,
{
    assert(be_value((v >> 24u32) as u8, (v >> 16u32) as u8, (v >> 8u32) as u8, v as u8) == v)
        by (bit_vector);
}

/// Decoding the encoding of a well-formed image gives back the same width,
/// height, channels, colorspace and pixels.
pub proof fn lemma_round_trip(img: ImageView)
    requires
        img.wf(),
    ensures
        decode_bytes(encode_image(img)) == Ok::<ImageView, ImgError>(img),
{
    let pixels = img.pixels;
    let n = pixels.len();
    let header = header_bytes(img.width, img.height, img.channels, img.colorspace);
    let s = enc_prefix(pixels, n);
    let body = encode_body(pixels);
    let bytes = encode_image(img);
    let len = bytes.len();
    assert(bytes == header + body + end_marker());
    assert(bytes.subrange(0, 4) =~= magic());
    lemma_be_round_trip(img.width);
    lemma_be_round_trip(img.height);
    assert(parse_header(bytes) == Ok::<(u32, u32, u8, u8), ImgError>(
        (img.width, img.height, img.channels, img.colorspace),
    ));
    assert(bytes.subrange(len - END_LEN, len as int) =~= end_marker());
    assert(bytes.subrange(HEADER_LEN as int, len - END_LEN) =~= body);

    let d = lemma_encode_prefix(pixels, n, run_bytes(s.run));
    lemma_decode_run(d, s.run, seq![]);
    assert(run_bytes(s.run) + seq![] =~= run_bytes(s.run));
    let last = after_run(d, s.run);
    assert(dec_walk(dec_start(), body) == Some(last));
    assert(last.out =~= pixels);
}

} // verus!
