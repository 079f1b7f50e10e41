use mictrayrs::png::Canvas;

#[test]
fn png_of_one_pixel_matches_reference_bytes() {
    let mut c = Canvas::new(1, 1, (0, 0, 0));
    c.px = vec![10, 20, 30, 255];
    let expected: Vec<u8> = vec![
        137, 80, 78, 71, 13, 10, 26, 10, 0, 0, 0, 13, 73, 72, 68, 82, 0, 0, 0, 1, 0, 0, 0, 1, 8,
        6, 0, 0, 0, 31, 21, 196, 137, 0, 0, 0, 16, 73, 68, 65, 84, 120, 1, 1, 5, 0, 250, 255, 0,
        10, 20, 30, 255, 1, 164, 1, 60, 180, 228, 184, 40, 0, 0, 0, 0, 73, 69, 78, 68, 174, 66,
        96, 130,
    ];
    assert_eq!(c.to_png(), expected);
}

#[test]
fn png_of_two_pixels_has_expected_length() {
    let mut c = Canvas::new(2, 1, (0, 0, 0));
    c.px = vec![1, 2, 3, 4, 5, 6, 7, 8];
    assert_eq!(c.to_png().len(), 77);
}

#[test]
fn png_spanning_two_stored_blocks() {
    let (w, h) = (200u32, 100u32);
    let mut c = Canvas::new(w, h, (0, 0, 0));
    for i in 0..c.px.len() {
        c.px[i] = ((i * 7) % 256) as u8;
    }
    let png = c.to_png();
    assert_eq!(png.len(), 80173);
    // IDAT length, tag, zlib header, then a non-final block of 65535 bytes.
    assert_eq!(&png[33..45], &[0, 1, 56, 244, 73, 68, 65, 84, 120, 1, 0, 255]);
    assert_eq!(png[45], 255);
    // Adler-32 of the scanlines, CRC of IDAT, then the IEND chunk.
    assert_eq!(
        &png[png.len() - 20..],
        &[70, 124, 168, 86, 2, 110, 6, 128, 0, 0, 0, 0, 73, 69, 78, 68, 174, 66, 96, 130]
    );
}

#[test]
fn png_of_empty_canvas_uses_one_empty_final_block() {
    let c = Canvas::new(0, 0, (1, 2, 3));
    let png = c.to_png();
    // IDAT payload: zlib header, empty final stored block, Adler-32 of nothing (1).
    assert_eq!(&png[37..41], &[73, 68, 65, 84]);
    assert_eq!(&png[41..52], &[0x78, 0x01, 1, 0, 0, 0xFF, 0xFF, 0, 0, 0, 1]);
}

#[test]
fn new_canvas_is_filled_with_the_opaque_background() {
    let c = Canvas::new(3, 2, (1, 2, 3));
    assert_eq!(c.px.len(), 24);
    for p in c.px.chunks(4) {
        assert_eq!(p, &[1, 2, 3, 255]);
    }
}

#[test]
fn fill_rect_is_clipped_to_the_canvas() {
    let mut c = Canvas::new(4, 3, (0, 0, 0));
    c.fill_rect(-1, 1, 3, 5, (9, 8, 7));
    for y in 0..3usize {
        for x in 0..4usize {
            let i = (y * 4 + x) * 4;
            if y >= 1 && x < 2 {
                assert_eq!(&c.px[i..i + 4], &[9, 8, 7, 255]);
            } else {
                assert_eq!(&c.px[i..i + 4], &[0, 0, 0, 255]);
            }
        }
    }
}

#[test]
fn blit_blends_straight_alpha_and_skips_transparent_pixels() {
    let mut c = Canvas::new(2, 1, (100, 100, 100));
    let src = vec![200, 0, 50, 128, 255, 255, 255, 0];
    c.blit(&src, 2, 1, 0, 0);
    // (200*128 + 100*127)/255 = 150, (0*128 + 100*127)/255 = 49, (50*128+100*127)/255 = 74
    assert_eq!(&c.px[0..4], &[150, 49, 74, 255]);
    assert_eq!(&c.px[4..8], &[100, 100, 100, 255]);
}

#[test]
fn blit_with_opaque_alpha_copies_color_and_clips() {
    let mut c = Canvas::new(2, 2, (0, 0, 0));
    let src = vec![10, 20, 30, 255, 40, 50, 60, 255];
    c.blit(&src, 2, 1, 1, 1);
    assert_eq!(&c.px[12..16], &[10, 20, 30, 255]);
    assert_eq!(&c.px[0..12], &[0, 0, 0, 255, 0, 0, 0, 255, 0, 0, 0, 255]);
}

#[test]
fn blit_zoom_enlarges_each_pixel_to_a_block() {
    let mut c = Canvas::new(4, 4, (0, 0, 0));
    let src = vec![255, 0, 0, 255];
    c.blit_zoom(&src, 1, 1, 1, 1, 2);
    for y in 0..4usize {
        for x in 0..4usize {
            let i = (y * 4 + x) * 4;
            let inside = (1..3).contains(&x) && (1..3).contains(&y);
            let want: [u8; 4] = if inside { [255, 0, 0, 255] } else { [0, 0, 0, 255] };
            assert_eq!(&c.px[i..i + 4], &want);
        }
    }
}

#[test]
fn blit_zoom_of_zero_counts_as_one() {
    let mut a = Canvas::new(3, 3, (5, 5, 5));
    let mut b = Canvas::new(3, 3, (5, 5, 5));
    let src = vec![1, 2, 3, 255, 4, 5, 6, 255];
    a.blit_zoom(&src, 2, 1, 1, 0, 0);
    b.blit(&src, 2, 1, 1, 0);
    assert_eq!(a.px, b.px);
}
