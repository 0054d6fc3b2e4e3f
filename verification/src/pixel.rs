use vstd::prelude::*;

verus! {

/// One RGBA pixel, eight bits per channel.
#[derive(Clone, Copy, PartialEq, Eq, Structural, Debug)]
pub struct Rgba {
    pub r: u8,
    pub g: u8,
    pub b: u8,
    pub a: u8,
}

/// Alpha-over interpolation for a single channel: the foreground weighted by
/// `alpha`, the background by `255 - alpha`, truncated back to a byte.
pub open spec fn spec_blend_channel(fg: u8, bg: u8, alpha: u8) -> u8 {
    (((fg * alpha + bg * (255 - alpha)) / 255) as u8)
}

/// Text compositing: blend the foreground color over the background with an
/// explicit coverage alpha; the result is fully opaque (text is ink).
pub open spec fn spec_blend_colors(bg: Rgba, fg: Rgba, alpha: u8) -> Rgba {
    Rgba {
        r: spec_blend_channel(fg.r, bg.r, alpha),
        g: spec_blend_channel(fg.g, bg.g, alpha),
        b: spec_blend_channel(fg.b, bg.b, alpha),
        a: 255,
    }
}

/// Overlay compositing: blend the foreground over the background weighted by
/// the foreground's own alpha; the result keeps the more opaque of the two
/// alpha values.
pub open spec fn spec_blend_pixels(bg: Rgba, fg: Rgba) -> Rgba {
    Rgba {
        r: spec_blend_channel(fg.r, bg.r, fg.a),
        g: spec_blend_channel(fg.g, bg.g, fg.a),
        b: spec_blend_channel(fg.b, bg.b, fg.a),
        a: if bg.a >= fg.a {
            bg.a
        } else {
            fg.a
        },
    }
}

proof fn lemma_blend_channel_bounded(fg: u8, bg: u8, alpha: u8)
    ensures
        fg * alpha + bg * (255 - alpha) <= 255 * 255,
{
    assert(fg * alpha + bg * (255 - alpha) <= 255 * 255) by (nonlinear_arith)
        requires
            fg <= 255,
            bg <= 255,
            alpha <= 255,
    ;
}

/// The shared per-channel alpha-over primitive used by every compositor.
pub fn blend_channel(fg: u8, bg: u8, alpha: u8) -> (r: u8)
    ensures
        r == spec_blend_channel(fg, bg, alpha),
{
    proof {
        lemma_blend_channel_bounded(fg, bg, alpha);
    }
    let v: u32 = (fg as u32) * (alpha as u32) + (bg as u32) * (255 - alpha as u32);
    (v / 255) as u8
}

/// Blend a foreground color over a background pixel with an explicit coverage
/// alpha, producing a fully opaque pixel.
pub fn blend_colors(background: Rgba, foreground: Rgba, alpha: u8) -> (r: Rgba)
    ensures
        r == spec_blend_colors(background, foreground, alpha),
{
    Rgba {
        r: blend_channel(foreground.r, background.r, alpha),
        g: blend_channel(foreground.g, background.g, alpha),
        b: blend_channel(foreground.b, background.b, alpha),
        a: 255,
    }
}

/// Blend a foreground pixel over a background pixel using the foreground's
/// own alpha; the result's alpha is the maximum of the two.
pub fn blend_pixels(background: Rgba, foreground: Rgba) -> (r: Rgba)
    ensures
        r == spec_blend_pixels(background, foreground),
{
    Rgba {
        r: blend_channel(foreground.r, background.r, foreground.a),
        g: blend_channel(foreground.g, background.g, foreground.a),
        b: blend_channel(foreground.b, background.b, foreground.a),
        a: if background.a >= foreground.a {
            background.a
        } else {
            foreground.a
        },
    }
}

/// With full coverage the blend yields exactly the foreground channel; with
/// zero coverage it leaves the background channel unchanged, for every
/// background value.
pub proof fn lemma_blend_channel_extremes(fg: u8, bg: u8)
    ensures
        spec_blend_channel(fg, bg, 255) == fg,
        spec_blend_channel(fg, bg, 0) == bg,
{
    assert(fg * 255 + bg * (255 - 255) == fg * 255) by (nonlinear_arith);
    assert((fg * 255) / 255 == fg) by (nonlinear_arith);
    assert(fg * 0 + bg * (255 - 0) == bg * 255) by (nonlinear_arith);
    assert((bg * 255) / 255 == bg) by (nonlinear_arith);
}

/// Compositing with source alpha 255 yields exactly the foreground color
/// regardless of the background; with alpha 0 the background's color channels
/// are unchanged.
pub proof fn lemma_blend_colors_extremes(bg: Rgba, fg: Rgba)
    ensures
        spec_blend_colors(bg, fg, 255).r == fg.r,
        spec_blend_colors(bg, fg, 255).g == fg.g,
        spec_blend_colors(bg, fg, 255).b == fg.b,
        spec_blend_colors(bg, fg, 0).r == bg.r,
        spec_blend_colors(bg, fg, 0).g == bg.g,
        spec_blend_colors(bg, fg, 0).b == bg.b,
{
    lemma_blend_channel_extremes(fg.r, bg.r);
    lemma_blend_channel_extremes(fg.g, bg.g);
    lemma_blend_channel_extremes(fg.b, bg.b);
}

/// Compositing twice with alpha 0 is the same as once (both leave the color
/// channels alone), and compositing twice with alpha 255 is the same as once
/// (both yield the foreground color).
pub proof fn lemma_blend_colors_idempotent(bg: Rgba, fg: Rgba)
    ensures
        spec_blend_colors(spec_blend_colors(bg, fg, 0), fg, 0).r == spec_blend_colors(
            bg,
            fg,
            0,
        ).r,
        spec_blend_colors(spec_blend_colors(bg, fg, 0), fg, 0).g == spec_blend_colors(
            bg,
            fg,
            0,
        ).g,
        spec_blend_colors(spec_blend_colors(bg, fg, 0), fg, 0).b == spec_blend_colors(
            bg,
            fg,
            0,
        ).b,
        spec_blend_colors(spec_blend_colors(bg, fg, 255), fg, 255) == spec_blend_colors(
            bg,
            fg,
            255,
        ),
{
    lemma_blend_colors_extremes(bg, fg);
    lemma_blend_colors_extremes(spec_blend_colors(bg, fg, 0), fg);
    lemma_blend_colors_extremes(spec_blend_colors(bg, fg, 255), fg);
}

} // verus!
