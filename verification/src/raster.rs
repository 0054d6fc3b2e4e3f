use vstd::prelude::*;
use vstd::arithmetic::div_mod::{lemma_fundamental_div_mod, lemma_mod_bound};
use vstd::pervasive::VecAdditionalExecFns;
use crate::pixel::{Rgba, spec_blend_colors, spec_blend_pixels, blend_colors, blend_pixels};

verus! {

/// Widest raster edge the compositors accept; keeps every coordinate product
/// comfortably inside `i64`.
pub const MAX_DIM: u32 = 100000;

/// An RGBA raster: `data` holds `4 * width * height` bytes, row-major,
/// channels interleaved in R, G, B, A order. Used both for the immutable
/// decoded assets and for the mutable per-render canvas.
pub struct Raster {
    pub width: u32,
    pub height: u32,
    pub data: Vec<u8>,
}

/// Byte index of channel `k` of the pixel at column `x`, row `y`.
pub open spec fn pix_idx(w: int, x: int, y: int, k: int) -> int {
    4 * (y * w + x) + k
}

/// Channel `k` of the pixel at `(x, y)` in a raster of width `w`.
pub open spec fn chan(d: Seq<u8>, w: int, x: int, y: int, k: int) -> u8 {
    d[pix_idx(w, x, y, k)]
}

/// The pixel at `(x, y)` in a raster of width `w`.
pub open spec fn pix(d: Seq<u8>, w: int, x: int, y: int) -> Rgba {
    Rgba {
        r: chan(d, w, x, y, 0),
        g: chan(d, w, x, y, 1),
        b: chan(d, w, x, y, 2),
        a: chan(d, w, x, y, 3),
    }
}

/// Channel `k` of a pixel value, in the R, G, B, A order of the byte layout.
pub open spec fn rgba_chan(p: Rgba, k: int) -> u8 {
    if k == 0 {
        p.r
    } else if k == 1 {
        p.g
    } else if k == 2 {
        p.b
    } else {
        p.a
    }
}

/// Whether `(x, y)` lies on a `w` by `h` grid.
pub open spec fn in_bounds(w: int, h: int, x: int, y: int) -> bool {
    0 <= x < w && 0 <= y < h
}

/// The raster bytes with the pixel at `(x, y)` replaced by `p`.
pub open spec fn write_pix(d: Seq<u8>, w: int, x: int, y: int, p: Rgba) -> Seq<u8> {
    d.update(pix_idx(w, x, y, 0), p.r).update(pix_idx(w, x, y, 1), p.g).update(
        pix_idx(w, x, y, 2),
        p.b,
    ).update(pix_idx(w, x, y, 3), p.a)
}

pub proof fn lemma_pix_idx_bounds(w: int, h: int, x: int, y: int, k: int)
    requires
        0 <= x < w,
        0 <= y < h,
        0 <= k < 4,
    ensures
        0 <= y * w + x < w * h,
        0 <= pix_idx(w, x, y, k) < 4 * (w * h),
{
    assert(0 <= y * w + x < w * h) by (nonlinear_arith)
        requires
            0 <= x < w,
            0 <= y < h,
    ;
}

pub proof fn lemma_pix_idx_inj(w: int, h: int, x1: int, y1: int, k1: int, x2: int, y2: int, k2: int)
    requires
        0 <= x1 < w,
        0 <= y1 < h,
        0 <= k1 < 4,
        0 <= x2 < w,
        0 <= y2 < h,
        0 <= k2 < 4,
        pix_idx(w, x1, y1, k1) == pix_idx(w, x2, y2, k2),
    ensures
        x1 == x2,
        y1 == y2,
        k1 == k2,
{
    assert(x1 == x2 && y1 == y2 && k1 == k2) by (nonlinear_arith)
        requires
            0 <= x1 < w,
            0 <= y1 < h,
            0 <= k1 < 4,
            0 <= x2 < w,
            0 <= y2 < h,
            0 <= k2 < 4,
            4 * (y1 * w + x1) + k1 == 4 * (y2 * w + x2) + k2,
    ;
}

/// Every byte index decomposes uniquely into a pixel coordinate and channel.
pub proof fn lemma_idx_decompose(w: int, h: int, i: int)
    requires
        0 < w,
        0 < h,
        0 <= i < 4 * (w * h),
    ensures
        in_bounds(w, h, (i / 4) % w, (i / 4) / w),
        0 <= i % 4 < 4,
        pix_idx(w, (i / 4) % w, (i / 4) / w, i % 4) == i,
{
    let q = i / 4;
    let k = i % 4;
    lemma_fundamental_div_mod(i, 4);
    lemma_mod_bound(i, 4);
    assert(0 <= q < w * h);
    let x = q % w;
    let y = q / w;
    lemma_fundamental_div_mod(q, w);
    lemma_mod_bound(q, w);
    assert(q == w * y + x);
    if y < 0 {
        assert(w * y + x < w * 0 + x) by (nonlinear_arith)
            requires
                w * y <= w * -1,
                0 < w,
        ;
    }
    if y >= h {
        assert(w * y >= w * h) by (nonlinear_arith)
            requires
                y >= h,
                0 < w,
        ;
    }
    assert(pix_idx(w, x, y, k) == 4 * (y * w + x) + k);
    assert(y * w == w * y) by (nonlinear_arith);
}

impl Raster {
    /// Well-formed: the byte buffer matches the dimensions, and the
    /// dimensions are small enough for all coordinate arithmetic.
    pub open spec fn wf(self) -> bool {
        &&& self.data@.len() == 4 * (self.width as int * self.height as int)
        &&& self.width <= MAX_DIM
        &&& self.height <= MAX_DIM
    }

    /// Build a raster from raw RGBA bytes, refusing mismatched lengths or
    /// oversized dimensions.
    pub fn from_raw(width: u32, height: u32, data: Vec<u8>) -> (r: Option<Raster>)
        ensures
            match r {
                Some(rr) => rr.wf() && rr.width == width && rr.height == height && rr.data@
                    == data@,
                None => !(data@.len() == 4 * (width as int * height as int) && width <= MAX_DIM
                    && height <= MAX_DIM),
            },
    {
        if width > MAX_DIM || height > MAX_DIM {
            return None;
        }
        proof {
            assert((4 * (width as int)) * (height as int) <= 40000000000 && (4 * (width as int))
                * (height as int) == 4 * ((width as int) * (height as int))) by (nonlinear_arith)
                requires
                    width <= 100000,
                    height <= 100000,
            ;
        }
        let need: u64 = 4u64 * (width as u64) * (height as u64);
        let n = data.len();
        if (n as u64) != need {
            return None;
        }
        Some(Raster { width, height, data })
    }

    /// An exact copy, as when the immutable template is cloned into the
    /// per-render canvas.
    pub fn duplicate(&self) -> (r: Self)
        requires
            self.wf(),
        ensures
            r.wf(),
            r.width == self.width,
            r.height == self.height,
            r.data@ == self.data@,
    {
        let d = self.data.clone();
        proof {
            assert(d@ =~= self.data@);
        }
        Raster { width: self.width, height: self.height, data: d }
    }

    /// Read the pixel at `(x, y)`.
    pub fn get_pixel(&self, x: usize, y: usize) -> (p: Rgba)
        requires
            self.wf(),
            x < self.width,
            y < self.height,
        ensures
            p == pix(self.data@, self.width as int, x as int, y as int),
    {
        let w = self.width as usize;
        let n = self.data.len();
        proof {
            lemma_pix_idx_bounds(w as int, self.height as int, x as int, y as int, 0);
            assert(4 * ((y as int) * (w as int) + (x as int)) + 3 < n);
        }
        let base: usize = 4 * (y * w + x);
        Rgba {
            r: self.data[base],
            g: self.data[base + 1],
            b: self.data[base + 2],
            a: self.data[base + 3],
        }
    }

    /// Overwrite the pixel at `(x, y)`.
    pub fn put_pixel(&mut self, x: usize, y: usize, p: Rgba)
        requires
            old(self).wf(),
            x < old(self).width,
            y < old(self).height,
        ensures
            final(self).wf(),
            final(self).width == old(self).width,
            final(self).height == old(self).height,
            final(self).data@ == write_pix(
                old(self).data@,
                old(self).width as int,
                x as int,
                y as int,
                p,
            ),
            forall|x2: int, y2: int, k2: int|
                in_bounds(old(self).width as int, old(self).height as int, x2, y2) && 0 <= k2 < 4
                    ==> #[trigger] chan(final(self).data@, old(self).width as int, x2, y2, k2) == (if x2
                    == x as int && y2 == y as int {
                    rgba_chan(p, k2)
                } else {
                    chan(old(self).data@, old(self).width as int, x2, y2, k2)
                }),
    {
        let w = self.width as usize;
        let h = self.height as usize;
        let n = self.data.len();
        proof {
            lemma_pix_idx_bounds(w as int, h as int, x as int, y as int, 0);
            assert(4 * ((y as int) * (w as int) + (x as int)) + 3 < n);
        }
        let base: usize = 4 * (y * w + x);
        self.data.set(base, p.r);
        self.data.set(base + 1, p.g);
        self.data.set(base + 2, p.b);
        self.data.set(base + 3, p.a);
        proof {
            let wi = w as int;
            let hi = h as int;
            let xi = x as int;
            let yi = y as int;
            assert forall|x2: int, y2: int, k2: int|
                in_bounds(wi, hi, x2, y2) && 0 <= k2 < 4 implies #[trigger] chan(
                self.data@,
                wi,
                x2,
                y2,
                k2,
            ) == (if x2 == xi && y2 == yi {
                rgba_chan(p, k2)
            } else {
                chan(old(self).data@, wi, x2, y2, k2)
            }) by {
                lemma_pix_idx_bounds(wi, hi, x2, y2, k2);
                lemma_pix_idx_bounds(wi, hi, xi, yi, 0);
                if x2 == xi && y2 == yi {
                } else {
                    if pix_idx(wi, x2, y2, k2) == pix_idx(wi, xi, yi, 0) {
                        lemma_pix_idx_inj(wi, hi, x2, y2, k2, xi, yi, 0);
                    }
                    if pix_idx(wi, x2, y2, k2) == pix_idx(wi, xi, yi, 1) {
                        lemma_pix_idx_inj(wi, hi, x2, y2, k2, xi, yi, 1);
                    }
                    if pix_idx(wi, x2, y2, k2) == pix_idx(wi, xi, yi, 2) {
                        lemma_pix_idx_inj(wi, hi, x2, y2, k2, xi, yi, 2);
                    }
                    if pix_idx(wi, x2, y2, k2) == pix_idx(wi, xi, yi, 3) {
                        lemma_pix_idx_inj(wi, hi, x2, y2, k2, xi, yi, 3);
                    }
                }
            }
        }
    }
}

/// The raster after blending a foreground color with explicit coverage alpha
/// over the pixel at `(x, y)`: out-of-bounds targets leave the raster
/// untouched.
pub open spec fn spec_blend_text_at(
    d: Seq<u8>,
    w: int,
    h: int,
    x: int,
    y: int,
    color: Rgba,
    cov: u8,
) -> Seq<u8> {
    if in_bounds(w, h, x, y) {
        write_pix(d, w, x, y, spec_blend_colors(pix(d, w, x, y), color, cov))
    } else {
        d
    }
}

/// The raster after alpha-over compositing a foreground pixel onto the pixel
/// at `(x, y)`: out-of-bounds targets leave the raster untouched.
pub open spec fn spec_blend_over_at(
    d: Seq<u8>,
    w: int,
    h: int,
    x: int,
    y: int,
    fg: Rgba,
) -> Seq<u8> {
    if in_bounds(w, h, x, y) {
        write_pix(d, w, x, y, spec_blend_pixels(pix(d, w, x, y), fg))
    } else {
        d
    }
}

impl Raster {
    /// Text compositing with silent clipping: write only when the target is
    /// inside the canvas; any out-of-range coordinate, including negative
    /// ones, is a no-op, never an error.
    pub fn blend_text_at(&mut self, x: i64, y: i64, color: Rgba, cov: u8)
        requires
            old(self).wf(),
        ensures
            final(self).wf(),
            final(self).width == old(self).width,
            final(self).height == old(self).height,
            final(self).data@ == spec_blend_text_at(
                old(self).data@,
                old(self).width as int,
                old(self).height as int,
                x as int,
                y as int,
                color,
                cov,
            ),
    {
        if 0 <= x && x < self.width as i64 && 0 <= y && y < self.height as i64 {
            let xu = x as usize;
            let yu = y as usize;
            let bg = self.get_pixel(xu, yu);
            let blended = blend_colors(bg, color, cov);
            self.put_pixel(xu, yu, blended);
        }
    }

    /// Overlay compositing with silent clipping, as for text.
    pub fn blend_over_at(&mut self, x: i64, y: i64, fg: Rgba)
        requires
            old(self).wf(),
        ensures
            final(self).wf(),
            final(self).width == old(self).width,
            final(self).height == old(self).height,
            final(self).data@ == spec_blend_over_at(
                old(self).data@,
                old(self).width as int,
                old(self).height as int,
                x as int,
                y as int,
                fg,
            ),
    {
        if 0 <= x && x < self.width as i64 && 0 <= y && y < self.height as i64 {
            let xu = x as usize;
            let yu = y as usize;
            let bg = self.get_pixel(xu, yu);
            let blended = blend_pixels(bg, fg);
            self.put_pixel(xu, yu, blended);
        }
    }
}

/// Pixelwise reading of `spec_blend_text_at`: only the target pixel changes,
/// and only when it is in bounds.
pub proof fn lemma_blend_text_at_chan(
    d: Seq<u8>,
    w: int,
    h: int,
    tx: int,
    ty: int,
    color: Rgba,
    cov: u8,
)
    requires
        d.len() == 4 * (w * h),
    ensures
        spec_blend_text_at(d, w, h, tx, ty, color, cov).len() == d.len(),
        forall|x: int, y: int, k: int|
            in_bounds(w, h, x, y) && 0 <= k < 4 ==> #[trigger] chan(
                spec_blend_text_at(d, w, h, tx, ty, color, cov),
                w,
                x,
                y,
                k,
            ) == (if x == tx && y == ty {
                rgba_chan(spec_blend_colors(pix(d, w, tx, ty), color, cov), k)
            } else {
                chan(d, w, x, y, k)
            }),
{
    let res = spec_blend_text_at(d, w, h, tx, ty, color, cov);
    if in_bounds(w, h, tx, ty) {
        lemma_pix_idx_bounds(w, h, tx, ty, 0);
        lemma_write_pix_chan(d, w, h, tx, ty, spec_blend_colors(pix(d, w, tx, ty), color, cov));
    }
}

/// Pixelwise reading of `spec_blend_over_at`.
pub proof fn lemma_blend_over_at_chan(d: Seq<u8>, w: int, h: int, tx: int, ty: int, fg: Rgba)
    requires
        d.len() == 4 * (w * h),
    ensures
        spec_blend_over_at(d, w, h, tx, ty, fg).len() == d.len(),
        forall|x: int, y: int, k: int|
            in_bounds(w, h, x, y) && 0 <= k < 4 ==> #[trigger] chan(
                spec_blend_over_at(d, w, h, tx, ty, fg),
                w,
                x,
                y,
                k,
            ) == (if x == tx && y == ty {
                rgba_chan(spec_blend_pixels(pix(d, w, tx, ty), fg), k)
            } else {
                chan(d, w, x, y, k)
            }),
{
    let res = spec_blend_over_at(d, w, h, tx, ty, fg);
    if in_bounds(w, h, tx, ty) {
        lemma_pix_idx_bounds(w, h, tx, ty, 0);
        lemma_write_pix_chan(d, w, h, tx, ty, spec_blend_pixels(pix(d, w, tx, ty), fg));
    }
}

/// Pixelwise reading of `write_pix`: the four bytes of the written pixel take
/// the new value, all others are unchanged.
pub proof fn lemma_write_pix_chan(d: Seq<u8>, w: int, h: int, tx: int, ty: int, p: Rgba)
    requires
        d.len() == 4 * (w * h),
        in_bounds(w, h, tx, ty),
    ensures
        write_pix(d, w, tx, ty, p).len() == d.len(),
        forall|x: int, y: int, k: int|
            in_bounds(w, h, x, y) && 0 <= k < 4 ==> #[trigger] chan(
                write_pix(d, w, tx, ty, p),
                w,
                x,
                y,
                k,
            ) == (if x == tx && y == ty {
                rgba_chan(p, k)
            } else {
                chan(d, w, x, y, k)
            }),
{
    lemma_pix_idx_bounds(w, h, tx, ty, 0);
    assert forall|x: int, y: int, k: int|
        in_bounds(w, h, x, y) && 0 <= k < 4 implies #[trigger] chan(
        write_pix(d, w, tx, ty, p),
        w,
        x,
        y,
        k,
    ) == (if x == tx && y == ty {
        rgba_chan(p, k)
    } else {
        chan(d, w, x, y, k)
    }) by {
        lemma_pix_idx_bounds(w, h, x, y, k);
        if x == tx && y == ty {
        } else {
            if pix_idx(w, x, y, k) == pix_idx(w, tx, ty, 0) {
                lemma_pix_idx_inj(w, h, x, y, k, tx, ty, 0);
            }
            if pix_idx(w, x, y, k) == pix_idx(w, tx, ty, 1) {
                lemma_pix_idx_inj(w, h, x, y, k, tx, ty, 1);
            }
            if pix_idx(w, x, y, k) == pix_idx(w, tx, ty, 2) {
                lemma_pix_idx_inj(w, h, x, y, k, tx, ty, 2);
            }
            if pix_idx(w, x, y, k) == pix_idx(w, tx, ty, 3) {
                lemma_pix_idx_inj(w, h, x, y, k, tx, ty, 3);
            }
        }
    }
}

} // verus!
