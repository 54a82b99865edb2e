use qoi_img::{checkerboard, decode, encode_from_image, qoi_file_name, read_header, Image, ImgError, Pixel};

const END: [u8; 8] = [0, 0, 0, 0, 0, 0, 0, 1];

fn header(width: u32, height: u32, channels: u8, colorspace: u8) -> Vec<u8> {
    let mut h = b"qoif".to_vec();
    h.extend_from_slice(&width.to_be_bytes());
    h.extend_from_slice(&height.to_be_bytes());
    h.push(channels);
    h.push(colorspace);
    h
}

fn stream(head: Vec<u8>, body: &[u8]) -> Vec<u8> {
    let mut s = head;
    s.extend_from_slice(body);
    s.extend_from_slice(&END);
    s
}

fn row(pixels: Vec<Pixel>) -> Image {
    let n = pixels.len() as u32;
    Image::from_pixels(pixels, 1, n, 4, 0).unwrap()
}

fn body_of(encoded: &[u8]) -> &[u8] {
    &encoded[14..encoded.len() - 8]
}

#[test]
fn two_equal_pixels_encode_byte_for_byte() {
    let px = Pixel::new(10, 10, 10, 255);
    let img = Image::from_pixels(vec![px, px], 1, 2, 4, 0).unwrap();
    let encoded = encode_from_image(img);
    // the first pixel is a luma chunk (all channels +10), the second a run of one
    let expected = stream(header(2, 1, 4, 0), &[0b1010_1010, 0b1000_1000, 0b1100_0000]);
    assert_eq!(encoded, expected);
}

#[test]
fn run_of_62_is_one_chunk() {
    let img = row(vec![Pixel::new(0, 0, 0, 255); 62]);
    let encoded = encode_from_image(img);
    assert_eq!(body_of(&encoded), &[0xC0 | 61]);
}

#[test]
fn run_of_63_is_two_chunks() {
    let img = row(vec![Pixel::new(0, 0, 0, 255); 63]);
    let encoded = encode_from_image(img);
    assert_eq!(body_of(&encoded), &[0xC0 | 61, 0xC0]);
}

#[test]
fn run_of_124_is_two_full_chunks() {
    let img = row(vec![Pixel::new(0, 0, 0, 255); 124]);
    let encoded = encode_from_image(img);
    assert_eq!(body_of(&encoded), &[0xC0 | 61, 0xC0 | 61]);
}

#[test]
fn run_is_flushed_before_next_chunk() {
    let mut pixels = vec![Pixel::new(0, 0, 0, 255); 3];
    pixels.push(Pixel::new(0, 0, 0, 7));
    let encoded = encode_from_image(row(pixels));
    assert_eq!(body_of(&encoded), &[0xC0 | 2, 0xFF, 0, 0, 0, 7]);
}

#[test]
fn repeated_colour_becomes_index() {
    let a = Pixel::new(200, 10, 30, 255);
    let b = Pixel::new(0, 100, 250, 255);
    let encoded = encode_from_image(row(vec![a, b, a]));
    let slot = qoi_img::color_hash(&a);
    assert_eq!(body_of(&encoded), &[0xFE, 200, 10, 30, 0xFE, 0, 100, 250, slot]);
}

fn distinct_alternating(n: usize) -> Vec<Pixel> {
    (0..n)
        .map(|i| {
            let v = (i * 3) as u8;
            if i % 2 == 0 {
                Pixel::new(v, 10, 20, 255)
            } else {
                Pixel::new(200, v, 40, 128)
            }
        })
        .collect()
}

fn chunk_tags(body: &[u8]) -> Vec<u8> {
    let mut tags = Vec::new();
    let mut i = 0;
    while i < body.len() {
        let tag = body[i];
        tags.push(tag);
        i += match tag {
            0xFE => 4,
            0xFF => 5,
            t if t & 0xC0 == 0x80 => 2,
            _ => 1,
        };
    }
    tags
}

#[test]
fn alternating_distinct_colours_have_no_run_or_index() {
    let pixels = distinct_alternating(80);
    let encoded = encode_from_image(row(pixels.clone()));
    let tags = chunk_tags(body_of(&encoded));
    assert_eq!(tags.len(), 80);
    for tag in tags {
        let top = tag & 0xC0;
        assert!(tag == 0xFE || tag == 0xFF || top == 0x40 || top == 0x80, "tag {tag:#x}");
    }
    let decoded = decode(encoded).unwrap();
    assert_eq!(decoded.pixels(), &pixels);
}

#[test]
fn round_trip_keeps_everything() {
    let mut pixels = Vec::new();
    for y in 0..9u32 {
        for x in 0..13u32 {
            let p = if (x + y) % 5 == 0 {
                Pixel::new(12, 34, 56, 255)
            } else {
                Pixel::new((x * 19) as u8, (y * 23) as u8, ((x + y) * 7) as u8, if x < 6 { 255 } else { 90 })
            };
            pixels.push(p);
        }
    }
    let img = Image::from_pixels(pixels.clone(), 9, 13, 3, 1).unwrap();
    let decoded = decode(encode_from_image(img)).unwrap();
    assert_eq!(decoded.width(), 13);
    assert_eq!(decoded.height(), 9);
    assert_eq!(decoded.channels(), 3);
    assert_eq!(decoded.colorspace(), 1);
    assert_eq!(decoded.pixels(), &pixels);
}

#[test]
fn round_trip_long_runs_and_wraparound() {
    let mut pixels = vec![Pixel::new(0, 0, 0, 255); 130];
    pixels.push(Pixel::new(255, 1, 0, 255));
    pixels.extend(vec![Pixel::new(254, 0, 255, 255); 70]);
    pixels.push(Pixel::new(0, 0, 0, 0));
    pixels.push(Pixel::new(0, 0, 0, 255));
    let n = pixels.len() as u32;
    let img = Image::from_pixels(pixels.clone(), 1, n, 4, 0).unwrap();
    let decoded = decode(encode_from_image(img)).unwrap();
    assert_eq!(decoded.pixels(), &pixels);
}

#[test]
fn empty_image_round_trip() {
    let img = Image::from_pixels(Vec::new(), 0, 0, 4, 0).unwrap();
    let encoded = encode_from_image(img);
    assert_eq!(encoded, stream(header(0, 0, 4, 0), &[]));
    let decoded = decode(encoded).unwrap();
    assert_eq!(decoded.pixels().len(), 0);
}

#[test]
fn cleared_end_marker_is_decode_error() {
    let img = row(vec![Pixel::new(1, 2, 3, 255), Pixel::new(4, 5, 6, 255)]);
    let mut encoded = encode_from_image(img);
    let last = encoded.len() - 1;
    encoded[last] = 0;
    assert_eq!(decode(encoded).err(), Some(ImgError::DecodeError));
}

#[test]
fn nonzero_end_padding_is_decode_error() {
    let mut s = stream(header(1, 1, 4, 0), &[0xFE, 1, 2, 3]);
    let at = s.len() - 5;
    s[at] = 9;
    assert_eq!(decode(s).err(), Some(ImgError::DecodeError));
}

#[test]
fn wrong_magic_is_header_error() {
    let img = row(vec![Pixel::new(1, 2, 3, 255)]);
    let mut encoded = encode_from_image(img);
    encoded[0] = b'p';
    assert_eq!(decode(encoded).err(), Some(ImgError::HeaderError));
    let mut bare = header(1, 1, 4, 0);
    bare[3] = b'g';
    assert_eq!(decode(bare).err(), Some(ImgError::HeaderError));
}

#[test]
fn too_short_for_header_is_header_error() {
    assert_eq!(decode(b"qoif".to_vec()).err(), Some(ImgError::HeaderError));
    assert_eq!(decode(Vec::new()).err(), Some(ImgError::HeaderError));
}

#[test]
fn header_without_end_marker_is_decode_error() {
    assert_eq!(decode(header(0, 0, 4, 0)).err(), Some(ImgError::DecodeError));
}

#[test]
fn cut_off_chunk_is_decode_error() {
    let s = stream(header(1, 1, 4, 0), &[0xFE, 1, 2]);
    assert_eq!(decode(s).err(), Some(ImgError::DecodeError));
}

#[test]
fn wrong_pixel_count_is_decode_error() {
    let s = stream(header(2, 1, 4, 0), &[0xC0]);
    assert_eq!(decode(s).err(), Some(ImgError::DecodeError));
    let s = stream(header(1, 1, 4, 0), &[0xC1]);
    assert_eq!(decode(s).err(), Some(ImgError::DecodeError));
}

#[test]
fn index_into_fresh_cache_gives_blank_pixel() {
    let s = stream(header(1, 1, 4, 0), &[0x00]);
    let img = decode(s).unwrap();
    assert_eq!(img.pixels(), &vec![Pixel::new(0, 0, 0, 0)]);
}

#[test]
fn decoder_reads_every_chunk_kind() {
    let body = [
        0xFE, 10, 20, 30, // rgb, alpha kept from the start pixel
        0xFF, 1, 2, 3, 4, // rgba
        0x40 | (3 << 4) | (0 << 2) | 2, // diff +1, -2, 0
        0x80 | 40, (3 << 4) | 12, // luma: dg = 8, dr = 3, db = 12
        0xC1, // run of two
    ];
    let s = stream(header(6, 1, 4, 0), &body);
    let img = decode(s).unwrap();
    let expected = vec![
        Pixel::new(10, 20, 30, 255),
        Pixel::new(1, 2, 3, 4),
        Pixel::new(2, 0, 3, 4),
        Pixel::new(5, 8, 15, 4),
        Pixel::new(5, 8, 15, 4),
        Pixel::new(5, 8, 15, 4),
    ];
    assert_eq!(img.pixels(), &expected);
}

#[test]
fn header_fields_are_big_endian() {
    let h = header(0x0102_0304, 0x0A0B_0C0D, 3, 1);
    assert_eq!(read_header(&h), Ok((0x0102_0304, 0x0A0B_0C0D, 3, 1)));
    let img = Image::from_pixels(Vec::new(), 0, 0x0102_0304, 3, 1).unwrap();
    let encoded = encode_from_image(img);
    assert_eq!(&encoded[..14], &header(0x0102_0304, 0, 3, 1)[..]);
}

#[test]
fn image_from_rgba_bytes() {
    let data = vec![1, 2, 3, 4, 5, 6, 7, 8];
    let img = Image::new(data.clone(), 1, 2, 4, 0).unwrap();
    assert_eq!(img.pixels(), &vec![Pixel::new(1, 2, 3, 4), Pixel::new(5, 6, 7, 8)]);
    assert_eq!(img.pixels_to_bytes(), data);
}

#[test]
fn image_from_rgb_bytes_gets_opaque_alpha() {
    let img = Image::new(vec![1, 2, 3, 4, 5, 6], 2, 1, 3, 0).unwrap();
    assert_eq!(img.pixels(), &vec![Pixel::new(1, 2, 3, 255), Pixel::new(4, 5, 6, 255)]);
    assert_eq!(img.pixels_to_bytes(), vec![1, 2, 3, 255, 4, 5, 6, 255]);
}

#[test]
fn image_with_partial_pixel_is_data_error() {
    assert_eq!(Image::new(vec![0; 7], 1, 2, 4, 0).err(), Some(ImgError::DataError));
    assert_eq!(Image::new(vec![0; 8], 1, 2, 3, 0).err(), Some(ImgError::DataError));
}

#[test]
fn image_with_wrong_count_is_pixel_number_error() {
    assert_eq!(Image::new(vec![0; 9], 2, 2, 3, 0).err(), Some(ImgError::PixelNumberError));
    assert_eq!(
        Image::from_pixels(vec![Pixel::new(0, 0, 0, 0); 3], 2, 2, 4, 0).err(),
        Some(ImgError::PixelNumberError)
    );
}

#[test]
fn error_messages() {
    assert_eq!(ImgError::HeaderError.message(), "not a valid QOI file header");
    assert_eq!(ImgError::DecodeError.message(), "decoder failed to construct valid image");
    assert!(!ImgError::DataError.message().is_empty());
    assert!(!ImgError::PixelNumberError.message().is_empty());
}

#[test]
fn file_name_gets_extension() {
    assert_eq!(qoi_file_name("checkerboard"), "checkerboard.qoi");
    assert_eq!(qoi_file_name(""), ".qoi");
}

#[test]
fn checkerboard_squares() {
    let img = checkerboard();
    assert_eq!((img.width(), img.height(), img.channels(), img.colorspace()), (64, 64, 4, 0));
    let px = img.pixels();
    assert_eq!(px.len(), 64 * 64);
    let purple = Pixel::new(150, 0, 150, 255);
    let white = Pixel::new(255, 255, 255, 255);
    assert_eq!(px[0], purple);
    assert_eq!(px[15], purple);
    assert_eq!(px[16], white);
    assert_eq!(px[16 * 64], white);
    assert_eq!(px[16 * 64 + 16], purple);
    assert_eq!(px[63 * 64 + 63], purple);
    let decoded = decode(encode_from_image(checkerboard())).unwrap();
    assert_eq!(decoded.pixels(), px);
}
