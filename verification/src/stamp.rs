use vstd::prelude::*;
use crate::pixel::{Rgba, spec_blend_pixels, spec_blend_channel};
use crate::raster::{
    Raster, chan, pix, rgba_chan, in_bounds, lemma_pix_idx_bounds, lemma_idx_decompose,
    lemma_blend_over_at_chan,
};

verus! {

/// The pixel with its alpha scaled by `op` thousandths; color channels are
/// unchanged.
pub open spec fn spec_attenuate(p: Rgba, op: int) -> Rgba {
    Rgba { r: p.r, g: p.g, b: p.b, a: (((p.a * op) / 1000) as u8) }
}

/// Scale a pixel's alpha by `op` thousandths.
pub fn attenuate(p: Rgba, op: u32) -> (r: Rgba)
    requires
        op <= 1000,
    ensures
        r == spec_attenuate(p, op as int),
{
    proof {
        assert(p.a * op <= 255 * 1000) by (nonlinear_arith)
            requires
                p.a <= 255,
                op <= 1000,
        ;
    }
    let a: u32 = ((p.a as u32) * op) / 1000;
    Rgba { r: p.r, g: p.g, b: p.b, a: a as u8 }
}

/// The byte at channel `k` after alpha-over compositing an attenuated source
/// pixel: color channels blend by the attenuated alpha; the alpha channel
/// keeps the more opaque of background and attenuated source.
pub open spec fn overlay_byte(bg: u8, sp: Rgba, op: int, k: int) -> u8 {
    let f = spec_attenuate(sp, op);
    if k == 3 {
        if bg >= f.a {
            bg
        } else {
            f.a
        }
    } else {
        spec_blend_channel(rgba_chan(f, k), bg, f.a)
    }
}

/// The canvas bytes after axis-aligned compositing of a source raster whose
/// top-left corner sits at `(sx0, sy0)`: every destination pixel under the
/// source and inside the canvas is blended, all others are untouched.
pub open spec fn spec_blit_overlay(
    d: Seq<u8>,
    w: int,
    h: int,
    src: Seq<u8>,
    nw: int,
    nh: int,
    sx0: int,
    sy0: int,
    op: int,
) -> Seq<u8> {
    Seq::new(
        d.len(),
        |i: int|
            {
                let x = (i / 4) % w;
                let y = (i / 4) / w;
                let k = i % 4;
                if sx0 <= x < sx0 + nw && sy0 <= y < sy0 + nh {
                    overlay_byte(d[i], pix(src, nw, x - sx0, y - sy0), op, k)
                } else {
                    d[i]
                }
            },
    )
}

/// Composite `src` axis-aligned onto the canvas with its top-left corner at
/// `(start_x, start_y)`, scaling the source alpha by `opacity_milli`
/// thousandths. Destination pixels outside the canvas are silently skipped.
pub fn blit_overlay(
    canvas: &mut Raster,
    src: &Raster,
    start_x: i64,
    start_y: i64,
    opacity_milli: u32,
)
    requires
        old(canvas).wf(),
        src.wf(),
        opacity_milli <= 1000,
        -10000000 <= start_x <= 10000000,
        -10000000 <= start_y <= 10000000,
    ensures
        final(canvas).wf(),
        final(canvas).width == old(canvas).width,
        final(canvas).height == old(canvas).height,
        final(canvas).data@ == spec_blit_overlay(
            old(canvas).data@,
            old(canvas).width as int,
            old(canvas).height as int,
            src.data@,
            src.width as int,
            src.height as int,
            start_x as int,
            start_y as int,
            opacity_milli as int,
        ),
{
    let ghost d0 = canvas.data@;
    let ghost wi = canvas.width as int;
    let ghost hi = canvas.height as int;
    let nw = src.width as usize;
    let nh = src.height as usize;
    let mut sy: usize = 0;
    while sy < nh
        invariant
            0 <= sy <= nh,
            nw == src.width as int,
            nh == src.height as int,
            src.wf(),
            opacity_milli <= 1000,
            -10000000 <= start_x <= 10000000,
            -10000000 <= start_y <= 10000000,
            canvas.wf(),
            canvas.width as int == wi,
            canvas.height as int == hi,
            canvas.data@.len() == d0.len(),
            d0.len() == 4 * (wi * hi),
            forall|x: int, y: int, k: int|
                in_bounds(wi, hi, x, y) && 0 <= k < 4 ==> #[trigger] chan(canvas.data@, wi, x, y, k)
                    == (if start_x <= x < start_x + nw && start_y <= y < start_y + nh && y - start_y
                    < sy {
                    overlay_byte(
                        chan(d0, wi, x, y, k),
                        pix(src.data@, nw as int, x - start_x, y - start_y),
                        opacity_milli as int,
                        k,
                    )
                } else {
                    chan(d0, wi, x, y, k)
                }),
        decreases nh - sy,
    {
        let mut sx: usize = 0;
        while sx < nw
            invariant
                0 <= sy < nh,
                0 <= sx <= nw,
                nw == src.width as int,
                nh == src.height as int,
                src.wf(),
                opacity_milli <= 1000,
                -10000000 <= start_x <= 10000000,
                -10000000 <= start_y <= 10000000,
                canvas.wf(),
                canvas.width as int == wi,
                canvas.height as int == hi,
                canvas.data@.len() == d0.len(),
                d0.len() == 4 * (wi * hi),
                forall|x: int, y: int, k: int|
                    in_bounds(wi, hi, x, y) && 0 <= k < 4 ==> #[trigger] chan(
                        canvas.data@,
                        wi,
                        x,
                        y,
                        k,
                    ) == (if start_x <= x < start_x + nw && start_y <= y < start_y + nh && (y
                        - start_y < sy || (y - start_y == sy && x - start_x < sx)) {
                        overlay_byte(
                            chan(d0, wi, x, y, k),
                            pix(src.data@, nw as int, x - start_x, y - start_y),
                            opacity_milli as int,
                            k,
                        )
                    } else {
                        chan(d0, wi, x, y, k)
                    }),
            decreases nw - sx,
        {
            let p = src.get_pixel(sx, sy);
            let f = attenuate(p, opacity_milli);
            let tx: i64 = start_x + sx as i64;
            let ty: i64 = start_y + sy as i64;
            let ghost dprev = canvas.data@;
            canvas.blend_over_at(tx, ty, f);
            proof {
                lemma_blend_over_at_chan(dprev, wi, hi, tx as int, ty as int, f);
                assert forall|x: int, y: int, k: int|
                    in_bounds(wi, hi, x, y) && 0 <= k < 4 implies #[trigger] chan(
                    canvas.data@,
                    wi,
                    x,
                    y,
                    k,
                ) == (if start_x <= x < start_x + nw && start_y <= y < start_y + nh && (y - start_y
                    < sy || (y - start_y == sy && x - start_x < sx + 1)) {
                    overlay_byte(
                        chan(d0, wi, x, y, k),
                        pix(src.data@, nw as int, x - start_x, y - start_y),
                        opacity_milli as int,
                        k,
                    )
                } else {
                    chan(d0, wi, x, y, k)
                }) by {
                    if x == tx as int && y == ty as int {
                        assert(chan(dprev, wi, x, y, k) == chan(d0, wi, x, y, k));
                        assert(pix(src.data@, nw as int, x - start_x, y - start_y) == p);
                        assert(rgba_chan(spec_blend_pixels(pix(dprev, wi, x, y), f), k)
                            == overlay_byte(
                            chan(d0, wi, x, y, k),
                            p,
                            opacity_milli as int,
                            k,
                        ));
                    }
                }
            }
            sx = sx + 1;
        }
        sy = sy + 1;
    }
    proof {
        let res = spec_blit_overlay(
            d0,
            wi,
            hi,
            src.data@,
            nw as int,
            nh as int,
            start_x as int,
            start_y as int,
            opacity_milli as int,
        );
        assert forall|i: int| 0 <= i < d0.len() implies canvas.data@[i] == res[i] by {
            lemma_idx_decompose(wi, hi, i);
            let x = (i / 4) % wi;
            let y = (i / 4) / wi;
            let k = i % 4;
            assert(chan(canvas.data@, wi, x, y, k) == canvas.data@[i]);
            assert(chan(d0, wi, x, y, k) == d0[i]);
        }
        assert(canvas.data@ =~= res);
    }
}

} // verus!
