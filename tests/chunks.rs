use qoi_img::{dec_diff, dec_luma, read_tag, ChunkType, Pixel};

#[test]
fn diff_test() {
    let pix1: Pixel = Pixel::new(0, 0, 0, 255);
    let pix2: Pixel = Pixel::new(255, 255, 255, 255);

    let pix3: Pixel = Pixel::new(155, 155, 155, 255);
    let pix4: Pixel = Pixel::new(160, 160, 160, 255);

    assert_eq!(pix1.diff(&pix2), (1, 1, 1));
    assert_eq!(pix2.diff(&pix1), (-1, -1, -1));
    assert_eq!(pix4.diff(&pix3), (5, 5, 5));
    assert_eq!(pix3.diff(&pix4), (-5, -5, -5));
}

#[test]
fn tag_test() {
    let test_rgb: u8 = 0b1111_1110;
    let test_rgba: u8 = 0b1111_1111;
    let test_luma: u8 = 0b1011_1010;
    let test_run: u8 = 0b1110_1101;
    let test_diff: u8 = 0b0110_1010;
    let test_index: u8 = 0b0010_1010;

    assert_eq!(Ok(ChunkType::RGB), read_tag(test_rgb));
    assert_eq!(Ok(ChunkType::RGBA), read_tag(test_rgba));
    assert_eq!(Ok(ChunkType::Luma), read_tag(test_luma));
    assert_eq!(Ok(ChunkType::Diff), read_tag(test_diff));
    assert_eq!(Ok(ChunkType::Index), read_tag(test_index));
    assert_eq!(Ok(ChunkType::Run), read_tag(test_run));
}

#[test]
fn sub_decoders_test() {
    let pix: Pixel = Pixel { r: 255, g: 255, b: 255, a: 255 };
    let prev: Pixel = Pixel { r: 1, g: 1, b: 1, a: 255 };
    let byte: u8 = 0b01000000;

    assert_eq!(pix, dec_diff(byte, &prev));

    let pix: Pixel = Pixel { r: 17, g: 22, b: 28, a: 100 };
    let prev: Pixel = Pixel { r: 10, g: 10, b: 10, a: 100 };
    let byte: [u8; 2] = [0b10101100, 0b00111110];

    assert_eq!(pix, dec_luma(&byte[0..2], &prev));
}

#[test]
fn diff_is_negated_when_swapped() {
    let pairs = [
        (Pixel::new(0, 0, 0, 255), Pixel::new(255, 255, 255, 255)),
        (Pixel::new(10, 200, 3, 1), Pixel::new(250, 20, 130, 9)),
        (Pixel::new(127, 0, 60, 0), Pixel::new(0, 127, 61, 0)),
    ];
    for (a, b) in pairs {
        let d = a.diff(&b);
        let e = b.diff(&a);
        assert_eq!(d, (-e.0, -e.1, -e.2));
    }
}

#[test]
fn diff_tie_at_128_stays_positive() {
    let a = Pixel::new(128, 0, 0, 255);
    let b = Pixel::new(0, 0, 0, 255);
    assert_eq!(a.diff(&b), (128, 0, 0));
    assert_eq!(b.diff(&a), (128, 0, 0));
}

#[test]
fn diff_picks_smallest_magnitude() {
    let a = Pixel::new(0, 200, 10, 255);
    let b = Pixel::new(129, 10, 200, 255);
    assert_eq!(a.diff(&b), (127, -66, 66));
}

#[test]
fn hash_stays_below_64() {
    for v in [0u8, 1, 7, 63, 64, 128, 200, 254, 255] {
        for w in [0u8, 3, 99, 255] {
            let p = Pixel::new(v, w, v, w);
            assert!(qoi_img::color_hash(&p) < 64);
        }
    }
    assert_eq!(qoi_img::color_hash(&Pixel::new(255, 255, 255, 255)), 38);
    assert_eq!(qoi_img::color_hash(&Pixel::new(0, 0, 0, 255)), 53);
    assert_eq!(qoi_img::color_hash(&Pixel::new(1, 2, 3, 4)), 14);
}

#[test]
fn equality_checks() {
    let a = Pixel::new(1, 2, 3, 4);
    assert!(a.equals(&Pixel::new(1, 2, 3, 4)));
    assert!(!a.equals(&Pixel::new(1, 2, 3, 5)));
    assert!(a.equals_rgb(&Pixel::new(1, 2, 3, 5)));
    assert!(!a.equals_rgb(&Pixel::new(1, 2, 4, 4)));
}

fn blank_cache() -> Vec<Pixel> {
    vec![Pixel::new(0, 0, 0, 0); 64]
}

#[test]
fn run_wins_over_index() {
    let p = Pixel::new(9, 8, 7, 255);
    let mut cache = blank_cache();
    cache[qoi_img::color_hash(&p) as usize] = p;
    assert_eq!(p.determine_chunk(&p, &cache), (ChunkType::Run, None));
}

#[test]
fn classification_is_repeatable() {
    let cur = Pixel::new(40, 50, 60, 255);
    let prev = Pixel::new(30, 45, 52, 255);
    let cache = blank_cache();
    let first = cur.determine_chunk(&prev, &cache);
    let second = cur.determine_chunk(&prev, &cache);
    assert_eq!(first, second);
    assert_eq!(first, (ChunkType::Luma, Some((37, 13, 11))));
}

#[test]
fn classifier_kinds_and_payloads() {
    let cache = blank_cache();
    let prev = Pixel::new(100, 100, 100, 255);
    // index: the pixel sits at its slot
    let mut with_hit = blank_cache();
    let hit = Pixel::new(1, 2, 3, 255);
    with_hit[qoi_img::color_hash(&hit) as usize] = hit;
    assert_eq!(
        hit.determine_chunk(&prev, &with_hit),
        (ChunkType::Index, Some((qoi_img::color_hash(&hit), 0, 0)))
    );
    // alpha change
    assert_eq!(Pixel::new(100, 100, 100, 7).determine_chunk(&prev, &cache), (ChunkType::RGBA, None));
    // diff bounds -2..=1
    assert_eq!(
        Pixel::new(98, 101, 100, 255).determine_chunk(&prev, &cache),
        (ChunkType::Diff, Some((0, 3, 2)))
    );
    assert_eq!(
        Pixel::new(102, 100, 100, 255).determine_chunk(&prev, &cache),
        (ChunkType::Luma, Some((32, 10, 8)))
    );
    // luma bounds: dg in -32..=31, relative differences in -8..=7
    assert_eq!(
        Pixel::new(68, 68, 68, 255).determine_chunk(&prev, &cache),
        (ChunkType::Luma, Some((0, 8, 8)))
    );
    assert_eq!(Pixel::new(67, 67, 67, 255).determine_chunk(&prev, &cache), (ChunkType::RGB, None));
    assert_eq!(
        Pixel::new(138, 131, 123, 255).determine_chunk(&prev, &cache),
        (ChunkType::Luma, Some((63, 15, 0)))
    );
    assert_eq!(Pixel::new(139, 131, 131, 255).determine_chunk(&prev, &cache), (ChunkType::RGB, None));
    assert_eq!(Pixel::new(132, 131, 131, 255).determine_chunk(&prev, &cache), (ChunkType::Luma, Some((63, 9, 8))));
}
