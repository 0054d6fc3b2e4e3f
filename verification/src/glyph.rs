use vstd::prelude::*;
use crate::pixel::{Rgba, spec_blend_colors, spec_blend_channel};
use crate::raster::{
    Raster, chan, pix, rgba_chan, in_bounds, pix_idx, lemma_pix_idx_bounds, lemma_idx_decompose,
    lemma_blend_text_at_chan, spec_blend_text_at,
};

verus! {

/// One glyph's antialiased coverage mask: a grid of coverage values placed
/// with its top-left corner at `(min_x, min_y)` in canvas space (possibly
/// negative or beyond the canvas; such parts are clipped).
pub struct GlyphMask {
    pub min_x: i64,
    pub min_y: i64,
    pub width: u32,
    pub height: u32,
    pub coverage: Vec<u8>,
}

impl GlyphMask {
    pub open spec fn wf(self) -> bool {
        &&& self.coverage@.len() == self.width as int * self.height as int
        &&& self.width <= 100000
        &&& self.height <= 100000
        &&& -10000000 <= self.min_x <= 10000000
        &&& -10000000 <= self.min_y <= 10000000
    }

    /// Whether the mask covers canvas position `(x, y)`.
    pub open spec fn covers(self, x: int, y: int) -> bool {
        &&& self.min_x <= x < self.min_x + self.width
        &&& self.min_y <= y < self.min_y + self.height
    }

    /// The coverage value of the mask at canvas position `(x, y)`.
    pub open spec fn cov_at(self, x: int, y: int) -> u8 {
        self.coverage@[(y - self.min_y) * self.width + (x - self.min_x)]
    }
}

/// The byte at channel `k` after text-compositing with coverage `cov`: color
/// channels are alpha-over blended, the alpha channel is forced opaque.
pub open spec fn text_byte(bg: u8, cov: u8, color: Rgba, k: int) -> u8 {
    if k == 3 {
        255
    } else {
        spec_blend_channel(rgba_chan(color, k), bg, cov)
    }
}

/// The canvas bytes after compositing one coverage mask: every covered pixel
/// inside the canvas is blended, everything else is untouched.
pub open spec fn spec_draw_mask(d: Seq<u8>, w: int, h: int, m: GlyphMask, color: Rgba) -> Seq<
    u8,
> {
    Seq::new(
        d.len(),
        |i: int|
            {
                let x = (i / 4) % w;
                let y = (i / 4) / w;
                let k = i % 4;
                if m.covers(x, y) {
                    text_byte(d[i], m.cov_at(x, y), color, k)
                } else {
                    d[i]
                }
            },
    )
}

/// The canvas bytes after compositing a sequence of coverage masks in order.
pub open spec fn spec_draw_masks(
    d: Seq<u8>,
    w: int,
    h: int,
    ms: Seq<GlyphMask>,
    color: Rgba,
) -> Seq<u8>
    decreases ms.len(),
{
    if ms.len() == 0 {
        d
    } else {
        spec_draw_mask(spec_draw_masks(d, w, h, ms.drop_last(), color), w, h, ms.last(), color)
    }
}

proof fn lemma_spec_draw_masks_len(d: Seq<u8>, w: int, h: int, ms: Seq<GlyphMask>, color: Rgba)
    ensures
        spec_draw_masks(d, w, h, ms, color).len() == d.len(),
    decreases ms.len(),
{
    if ms.len() > 0 {
        lemma_spec_draw_masks_len(d, w, h, ms.drop_last(), color);
    }
}

/// Composite one glyph coverage mask onto the canvas with the text color.
/// Out-of-canvas parts of the mask are silently clipped.
pub fn draw_mask(canvas: &mut Raster, m: &GlyphMask, color: Rgba)
    requires
        old(canvas).wf(),
        m.wf(),
    ensures
        final(canvas).wf(),
        final(canvas).width == old(canvas).width,
        final(canvas).height == old(canvas).height,
        final(canvas).data@ == spec_draw_mask(
            old(canvas).data@,
            old(canvas).width as int,
            old(canvas).height as int,
            *m,
            color,
        ),
{
    let w = canvas.width;
    let h = canvas.height;
    let ghost d0 = canvas.data@;
    let ghost wi = w as int;
    let ghost hi = h as int;
    let mw = m.width as usize;
    let mh = m.height as usize;
    let clen = m.coverage.len();
    let mut gy: usize = 0;
    while gy < mh
        invariant
            0 <= gy <= mh,
            mw == m.width as int,
            mh == m.height as int,
            clen == m.coverage@.len(),
            m.wf(),
            canvas.wf(),
            canvas.width == w,
            canvas.height == h,
            wi == w as int,
            hi == h as int,
            canvas.data@.len() == d0.len(),
            d0.len() == 4 * (wi * hi),
            forall|x: int, y: int, k: int|
                in_bounds(wi, hi, x, y) && 0 <= k < 4 ==> #[trigger] chan(canvas.data@, wi, x, y, k)
                    == (if m.covers(x, y) && y - m.min_y < gy {
                    text_byte(chan(d0, wi, x, y, k), m.cov_at(x, y), color, k)
                } else {
                    chan(d0, wi, x, y, k)
                }),
        decreases mh - gy,
    {
        let mut gx: usize = 0;
        while gx < mw
            invariant
                0 <= gy < mh,
                0 <= gx <= mw,
                mw == m.width as int,
                mh == m.height as int,
                clen == m.coverage@.len(),
                m.wf(),
                canvas.wf(),
                canvas.width == w,
                canvas.height == h,
                wi == w as int,
                hi == h as int,
                canvas.data@.len() == d0.len(),
                d0.len() == 4 * (wi * hi),
                forall|x: int, y: int, k: int|
                    in_bounds(wi, hi, x, y) && 0 <= k < 4 ==> #[trigger] chan(
                        canvas.data@,
                        wi,
                        x,
                        y,
                        k,
                    ) == (if m.covers(x, y) && (y - m.min_y < gy || (y - m.min_y == gy && x
                        - m.min_x < gx)) {
                        text_byte(chan(d0, wi, x, y, k), m.cov_at(x, y), color, k)
                    } else {
                        chan(d0, wi, x, y, k)
                    }),
            decreases mw - gx,
        {
            proof {
                lemma_pix_idx_bounds(mw as int, mh as int, gx as int, gy as int, 0);
            }
            let cov = m.coverage[gy * mw + gx];
            let tx: i64 = m.min_x + gx as i64;
            let ty: i64 = m.min_y + gy as i64;
            let ghost dprev = canvas.data@;
            canvas.blend_text_at(tx, ty, color, cov);
            proof {
                lemma_blend_text_at_chan(dprev, wi, hi, tx as int, ty as int, color, cov);
                assert forall|x: int, y: int, k: int|
                    in_bounds(wi, hi, x, y) && 0 <= k < 4 implies #[trigger] chan(
                    canvas.data@,
                    wi,
                    x,
                    y,
                    k,
                ) == (if m.covers(x, y) && (y - m.min_y < gy || (y - m.min_y == gy && x - m.min_x
                    < gx + 1)) {
                    text_byte(chan(d0, wi, x, y, k), m.cov_at(x, y), color, k)
                } else {
                    chan(d0, wi, x, y, k)
                }) by {
                    if x == tx as int && y == ty as int {
                        assert(m.covers(x, y));
                        assert(chan(dprev, wi, x, y, k) == chan(d0, wi, x, y, k));
                        assert(rgba_chan(
                            spec_blend_colors(pix(dprev, wi, x, y), color, cov),
                            k,
                        ) == text_byte(chan(d0, wi, x, y, k), cov, color, k));
                        assert(m.cov_at(x, y) == cov);
                    }
                }
            }
            gx = gx + 1;
        }
        gy = gy + 1;
        proof {
            assert forall|x: int, y: int, k: int|
                in_bounds(wi, hi, x, y) && 0 <= k < 4 implies #[trigger] chan(
                canvas.data@,
                wi,
                x,
                y,
                k,
            ) == (if m.covers(x, y) && y - m.min_y < gy {
                text_byte(chan(d0, wi, x, y, k), m.cov_at(x, y), color, k)
            } else {
                chan(d0, wi, x, y, k)
            }) by {
                assert(chan(canvas.data@, wi, x, y, k) == (if m.covers(x, y) && (y - m.min_y < gy
                    - 1 || (y - m.min_y == gy - 1 && x - m.min_x < mw as int)) {
                    text_byte(chan(d0, wi, x, y, k), m.cov_at(x, y), color, k)
                } else {
                    chan(d0, wi, x, y, k)
                }));
            }
        }
    }
    proof {
        let res = spec_draw_mask(d0, wi, hi, *m, color);
        assert forall|i: int| 0 <= i < d0.len() implies canvas.data@[i] == res[i] by {
            lemma_idx_decompose(wi, hi, i);
            let x = (i / 4) % wi;
            let y = (i / 4) / wi;
            let k = i % 4;
            assert(chan(canvas.data@, wi, x, y, k) == canvas.data@[i]);
            assert(chan(d0, wi, x, y, k) == d0[i]);
        }
        assert(canvas.data@ =~= res);
    }
}

/// Composite a sequence of glyph coverage masks, left to right, onto the
/// canvas: one text occurrence at one anchor.
pub fn draw_text_at_position(canvas: &mut Raster, masks: &Vec<GlyphMask>, color: Rgba)
    requires
        old(canvas).wf(),
        forall|i: int| 0 <= i < masks@.len() ==> (#[trigger] masks@[i]).wf(),
    ensures
        final(canvas).wf(),
        final(canvas).width == old(canvas).width,
        final(canvas).height == old(canvas).height,
        final(canvas).data@ == spec_draw_masks(
            old(canvas).data@,
            old(canvas).width as int,
            old(canvas).height as int,
            masks@,
            color,
        ),
{
    let ghost d0 = canvas.data@;
    let ghost wi = canvas.width as int;
    let ghost hi = canvas.height as int;
    let n = masks.len();
    let mut i: usize = 0;
    while i < n
        invariant
            0 <= i <= n,
            n == masks@.len(),
            forall|j: int| 0 <= j < masks@.len() ==> (#[trigger] masks@[j]).wf(),
            canvas.wf(),
            canvas.width as int == wi,
            canvas.height as int == hi,
            canvas.data@ == spec_draw_masks(d0, wi, hi, masks@.take(i as int), color),
        decreases n - i,
    {
        draw_mask(canvas, &masks[i], color);
        proof {
            let pre = masks@.take(i as int);
            let post = masks@.take(i as int + 1);
            assert(post.drop_last() =~= pre);
            assert(post.last() == masks@[i as int]);
        }
        i = i + 1;
    }
    proof {
        assert(masks@.take(n as int) =~= masks@);
    }
}

} // verus!
