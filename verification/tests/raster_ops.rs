use docstamp::pixel::Rgba;
use docstamp::raster::Raster;
use docstamp::glyph::GlyphMask;
use docstamp::glyph::draw_mask;
use docstamp::stamp::blit_overlay;
use docstamp::watermark::rotated_overlay;

fn solid(w: u32, h: u32, p: [u8; 4]) -> Raster {
    let mut data = Vec::new();
    for _ in 0..(w * h) {
        data.extend_from_slice(&p);
    }
    Raster::from_raw(w, h, data).unwrap()
}

#[test]
fn from_raw_rejects_mismatched_lengths() {
    assert!(Raster::from_raw(2, 2, vec![0u8; 15]).is_none());
    assert!(Raster::from_raw(2, 2, vec![0u8; 17]).is_none());
    assert!(Raster::from_raw(2, 2, vec![0u8; 16]).is_some());
}

#[test]
fn put_and_get_pixel_round_trip() {
    let mut c = solid(4, 3, [9, 9, 9, 9]);
    c.put_pixel(2, 1, Rgba { r: 1, g: 2, b: 3, a: 4 });
    let p = c.get_pixel(2, 1);
    assert_eq!((p.r, p.g, p.b, p.a), (1, 2, 3, 4));
    let q = c.get_pixel(1, 2);
    assert_eq!((q.r, q.g, q.b, q.a), (9, 9, 9, 9));
}

#[test]
fn out_of_bounds_blends_never_write_or_panic() {
    let mut c = solid(5, 5, [10, 20, 30, 40]);
    let before = c.data.clone();
    let color = Rgba { r: 0, g: 50, b: 150, a: 255 };
    let coords: [(i64, i64); 8] = [
        (-1, 0),
        (0, -1),
        (5, 0),
        (0, 5),
        (i64::MIN / 4, 2),
        (2, i64::MAX / 4),
        (-1000000, -1000000),
        (1000000000, 3),
    ];
    for (x, y) in coords {
        c.blend_text_at(x, y, color, 200);
        c.blend_over_at(x, y, Rgba { r: 1, g: 1, b: 1, a: 255 });
    }
    assert_eq!(c.data, before);
}

#[test]
fn mask_partly_off_canvas_is_clipped_silently() {
    let mut c = solid(6, 6, [255, 255, 255, 255]);
    // A fully covered 4x4 mask whose top-left corner is off-canvas.
    let m = GlyphMask { min_x: -2, min_y: -2, width: 4, height: 4, coverage: vec![255u8; 16] };
    let ink = Rgba { r: 0, g: 50, b: 150, a: 255 };
    draw_mask(&mut c, &m, ink);
    // (0,0) and (1,1) are inside both mask and canvas: inked.
    let p = c.get_pixel(0, 0);
    assert_eq!((p.r, p.g, p.b, p.a), (0, 50, 150, 255));
    let p = c.get_pixel(1, 1);
    assert_eq!((p.r, p.g, p.b), (0, 50, 150));
    // (2,2) is outside the mask: untouched.
    let p = c.get_pixel(2, 2);
    assert_eq!((p.r, p.g, p.b, p.a), (255, 255, 255, 255));
}

#[test]
fn overlay_blit_out_of_bounds_contributes_nothing() {
    let mut c = solid(4, 4, [7, 7, 7, 7]);
    let before = c.data.clone();
    let src = solid(3, 3, [0, 0, 0, 255]);
    blit_overlay(&mut c, &src, -100, -100, 1000);
    blit_overlay(&mut c, &src, 1000, 1000, 1000);
    assert_eq!(c.data, before);
}

#[test]
fn rotated_overlay_far_out_of_bounds_contributes_nothing() {
    let mut c = solid(4, 4, [7, 7, 7, 7]);
    let before = c.data.clone();
    let src = solid(3, 3, [0, 0, 0, 255]);
    let c45 = docstamp::trig::cos_fp(45000);
    let s45 = docstamp::trig::sin_fp(45000);
    rotated_overlay(&mut c, &src, -9000000, 2, c45, s45, 500);
    rotated_overlay(&mut c, &src, 2, 9999999, c45, s45, 500);
    assert_eq!(c.data, before);
}

#[test]
fn stamp_blends_with_source_alpha() {
    let mut c = solid(2, 2, [100, 100, 100, 60]);
    // Opaque black source covering the whole canvas.
    let src = solid(2, 2, [0, 0, 0, 255]);
    blit_overlay(&mut c, &src, 0, 0, 1000);
    for y in 0..2 {
        for x in 0..2 {
            let p = c.get_pixel(x, y);
            assert_eq!((p.r, p.g, p.b, p.a), (0, 0, 0, 255));
        }
    }
    // A fully transparent source leaves everything alone.
    let mut c2 = solid(2, 2, [100, 100, 100, 60]);
    let before = c2.data.clone();
    let clear = solid(2, 2, [200, 200, 200, 0]);
    blit_overlay(&mut c2, &clear, 0, 0, 1000);
    assert_eq!(c2.data, before);
}
