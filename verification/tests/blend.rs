use docstamp::pixel::{Rgba, blend_channel, blend_colors, blend_pixels};

fn px(r: u8, g: u8, b: u8, a: u8) -> Rgba {
    Rgba { r, g, b, a }
}

#[test]
fn full_alpha_yields_foreground_for_all_backgrounds() {
    let fg = px(0, 50, 150, 255);
    for bg_val in 0..=255u8 {
        let bg = px(bg_val, bg_val.wrapping_add(10), bg_val.wrapping_add(99), bg_val);
        let out = blend_colors(bg, fg, 255);
        assert_eq!(out.r, 0);
        assert_eq!(out.g, 50);
        assert_eq!(out.b, 150);
        assert_eq!(out.a, 255);
    }
}

#[test]
fn zero_alpha_keeps_background_channels() {
    let fg = px(200, 10, 30, 255);
    for bg_val in 0..=255u8 {
        let bg = px(bg_val, bg_val, bg_val, 77);
        let out = blend_colors(bg, fg, 0);
        assert_eq!(out.r, bg_val);
        assert_eq!(out.g, bg_val);
        assert_eq!(out.b, bg_val);
        assert_eq!(out.a, 255);
    }
}

#[test]
fn blending_twice_with_zero_alpha_equals_once() {
    let fg = px(1, 2, 3, 255);
    let bg = px(90, 91, 92, 200);
    let once = blend_colors(bg, fg, 0);
    let twice = blend_colors(once, fg, 0);
    assert_eq!(once, twice);
}

#[test]
fn blending_twice_with_full_alpha_equals_once() {
    let fg = px(7, 8, 9, 255);
    let bg = px(250, 1, 128, 30);
    let once = blend_colors(bg, fg, 255);
    let twice = blend_colors(once, fg, 255);
    assert_eq!(once, twice);
}

#[test]
fn blend_channel_midpoint_matches_formula() {
    // alpha 128: (200*128 + 100*127) / 255, truncated.
    let expected = ((200u32 * 128 + 100 * 127) / 255) as u8;
    assert_eq!(blend_channel(200, 100, 128), expected);
}

#[test]
fn blend_pixels_uses_foreground_alpha_and_max_alpha() {
    let bg = px(100, 100, 100, 60);
    let fg = px(0, 0, 0, 255);
    let out = blend_pixels(bg, fg);
    assert_eq!(out, px(0, 0, 0, 255));

    let translucent = px(255, 255, 255, 0);
    let kept = blend_pixels(bg, translucent);
    assert_eq!(kept.r, 100);
    assert_eq!(kept.g, 100);
    assert_eq!(kept.b, 100);
    assert_eq!(kept.a, 60);
}
