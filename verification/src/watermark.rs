use vstd::prelude::*;
use vstd::arithmetic::div_mod::lemma_div_is_ordered;
use crate::pixel::{Rgba, lemma_blend_channel_extremes};
use crate::raster::{
    Raster, chan, pix, rgba_chan, in_bounds, lemma_idx_decompose, lemma_blend_over_at_chan,
};
use crate::stamp::{overlay_byte, spec_attenuate, attenuate};
use crate::trig::{spec_abs, spec_round_fp, round_fp, abs_fp};

verus! {

/// The source column the inverse rotation samples for destination pixel
/// `(x, y)`: translate into the placement's local frame, rotate by the
/// negated angle around the resized watermark's center, and round to the
/// nearest pixel.
pub open spec fn spec_inv_src_x(
    x: int,
    y: int,
    start_x: int,
    start_y: int,
    cosv: int,
    sinv: int,
    nw: int,
) -> int {
    spec_round_fp((x - start_x) * cosv + (y - start_y) * sinv + (nw * 65536) / 2)
}

/// The source row the inverse rotation samples for destination pixel
/// `(x, y)`.
pub open spec fn spec_inv_src_y(
    x: int,
    y: int,
    start_x: int,
    start_y: int,
    cosv: int,
    sinv: int,
    nh: int,
) -> int {
    spec_round_fp((-(x - start_x)) * sinv + (y - start_y) * cosv + (nh * 65536) / 2)
}

/// Half the width of the rotated watermark's bounding box.
pub open spec fn spec_rot_half_w(nw: int, nh: int, cosv: int, sinv: int) -> int {
    ((nw * spec_abs(cosv) + nh * spec_abs(sinv)) / 65536) / 2
}

/// Half the height of the rotated watermark's bounding box.
pub open spec fn spec_rot_half_h(nw: int, nh: int, cosv: int, sinv: int) -> int {
    ((nw * spec_abs(sinv) + nh * spec_abs(cosv)) / 65536) / 2
}

/// Whether the rotated watermark writes destination pixel `(x, y)`: the
/// pixel lies in the rotated bounding box around `(start_x, start_y)` and
/// its inverse-mapped source lies inside the resized watermark. (The
/// destination must also lie on the canvas; the canvas grid supplies that
/// bound.)
pub open spec fn spec_wm_covers(
    nw: int,
    nh: int,
    start_x: int,
    start_y: int,
    cosv: int,
    sinv: int,
    x: int,
    y: int,
) -> bool {
    let rw2 = spec_rot_half_w(nw, nh, cosv, sinv);
    let rh2 = spec_rot_half_h(nw, nh, cosv, sinv);
    &&& start_x - rw2 <= x < start_x + rw2
    &&& start_y - rh2 <= y < start_y + rh2
    &&& 0 <= spec_inv_src_x(x, y, start_x, start_y, cosv, sinv, nw) < nw
    &&& 0 <= spec_inv_src_y(x, y, start_x, start_y, cosv, sinv, nh) < nh
}

/// The byte a covered destination pixel takes: the original byte alpha-over
/// blended with the attenuated inverse-mapped source pixel.
pub open spec fn wm_byte(
    d0: Seq<u8>,
    w: int,
    src: Seq<u8>,
    nw: int,
    nh: int,
    start_x: int,
    start_y: int,
    cosv: int,
    sinv: int,
    op: int,
    x: int,
    y: int,
    k: int,
) -> u8 {
    overlay_byte(
        chan(d0, w, x, y, k),
        pix(
            src,
            nw,
            spec_inv_src_x(x, y, start_x, start_y, cosv, sinv, nw),
            spec_inv_src_y(x, y, start_x, start_y, cosv, sinv, nh),
        ),
        op,
        k,
    )
}

/// The canvas bytes after compositing one rotated, opacity-attenuated
/// watermark copy: every covered destination pixel is alpha-over blended
/// with the inverse-mapped source pixel, everything else is untouched.
pub open spec fn spec_rotated_overlay(
    d: Seq<u8>,
    w: int,
    h: int,
    src: Seq<u8>,
    nw: int,
    nh: int,
    start_x: int,
    start_y: int,
    cosv: int,
    sinv: int,
    op: int,
) -> Seq<u8> {
    Seq::new(
        d.len(),
        |i: int|
            {
                let x = (i / 4) % w;
                let y = (i / 4) / w;
                let k = i % 4;
                if spec_wm_covers(nw, nh, start_x, start_y, cosv, sinv, x, y) {
                    wm_byte(d, w, src, nw, nh, start_x, start_y, cosv, sinv, op, x, y, k)
                } else {
                    d[i]
                }
            },
    )
}

/// A source pixel with zero alpha leaves the destination byte unchanged,
/// whatever the opacity.
proof fn lemma_overlay_transparent(bg: u8, sp: Rgba, op: int, k: int)
    requires
        sp.a == 0,
        0 <= op <= 1000,
    ensures
        overlay_byte(bg, sp, op, k) == bg,
{
    assert((0 * op) / 1000 == 0) by (nonlinear_arith)
        requires
            0 <= op,
    ;
    let f = spec_attenuate(sp, op);
    assert(f.a == 0);
    if k != 3 {
        lemma_blend_channel_extremes(rgba_chan(f, k), bg);
    }
}

/// Composite one resized watermark copy onto the canvas, rotated by the
/// angle whose fixed-point cosine and sine are `cosv` and `sinv`, centered
/// at `(start_x, start_y)`, with source alpha scaled by `opacity_milli`
/// thousandths. Iteration is restricted to the rotated bounding box; every
/// destination pixel outside the canvas is silently skipped, so placements
/// that extend beyond the canvas simply contribute no visible pixels there.
pub fn rotated_overlay(
    canvas: &mut Raster,
    src: &Raster,
    start_x: i64,
    start_y: i64,
    cosv: i64,
    sinv: i64,
    opacity_milli: u32,
)
    requires
        old(canvas).wf(),
        src.wf(),
        opacity_milli <= 1000,
        -10000000 <= start_x <= 10000000,
        -10000000 <= start_y <= 10000000,
        -131072 <= cosv <= 131072,
        -131072 <= sinv <= 131072,
    ensures
        final(canvas).wf(),
        final(canvas).width == old(canvas).width,
        final(canvas).height == old(canvas).height,
        final(canvas).data@ == spec_rotated_overlay(
            old(canvas).data@,
            old(canvas).width as int,
            old(canvas).height as int,
            src.data@,
            src.width as int,
            src.height as int,
            start_x as int,
            start_y as int,
            cosv as int,
            sinv as int,
            opacity_milli as int,
        ),
{
    let ghost d0 = canvas.data@;
    let ghost wi = canvas.width as int;
    let ghost hi = canvas.height as int;
    let ghost sxg = start_x as int;
    let ghost syg = start_y as int;
    let ghost cvg = cosv as int;
    let ghost svg = sinv as int;
    let ghost opg = opacity_milli as int;
    let nw = src.width;
    let nh = src.height;
    let ghost nwi = nw as int;
    let ghost nhi = nh as int;
    let acos = abs_fp(cosv);
    let asin = abs_fp(sinv);
    proof {
        assert((nw as int) * (acos as int) <= 100000int * 131072 && (nh as int) * (asin as int)
            <= 100000int * 131072 && (nw as int) * (asin as int) <= 100000int * 131072 && (
        nh as int) * (acos as int) <= 100000int * 131072) by (nonlinear_arith)
            requires
                nw <= 100000,
                nh <= 100000,
                0 <= acos <= 131072,
                0 <= asin <= 131072,
        ;
        lemma_div_is_ordered(
            ((nw as int) * (acos as int) + (nh as int) * (asin as int)),
            2 * (100000int * 131072),
            65536,
        );
        lemma_div_is_ordered(
            ((nw as int) * (asin as int) + (nh as int) * (acos as int)),
            2 * (100000int * 131072),
            65536,
        );
    }
    let rwu: u64 = ((nw as u64) * (acos as u64) + (nh as u64) * (asin as u64)) / 65536;
    let rhu: u64 = ((nw as u64) * (asin as u64) + (nh as u64) * (acos as u64)) / 65536;
    let rw2: i64 = (rwu / 2) as i64;
    let rh2: i64 = (rhu / 2) as i64;
    let cx_fp: i64 = (((nw as u64) * 65536) / 2) as i64;
    let cy_fp: i64 = (((nh as u64) * 65536) / 2) as i64;
    let w64 = canvas.width as i64;
    let h64 = canvas.height as i64;
    let lo_x: i64 = if start_x - rw2 > 0 {
        start_x - rw2
    } else {
        0
    };
    let hi_x: i64 = if start_x + rw2 < w64 {
        start_x + rw2
    } else {
        w64
    };
    let lo_y: i64 = if start_y - rh2 > 0 {
        start_y - rh2
    } else {
        0
    };
    let hi_y: i64 = if start_y + rh2 < h64 {
        start_y + rh2
    } else {
        h64
    };
    proof {
        assert(rw2 == spec_rot_half_w(nwi, nhi, cvg, svg));
        assert(rh2 == spec_rot_half_h(nwi, nhi, cvg, svg));
    }
    let mut ty: i64 = lo_y;
    while ty < hi_y
        invariant
            lo_y <= ty <= hi_y || (hi_y <= lo_y && ty == lo_y),
            src.wf(),
            nw == src.width,
            nh == src.height,
            nwi == nw as int,
            nhi == nh as int,
            sxg == start_x as int,
            syg == start_y as int,
            cvg == cosv as int,
            svg == sinv as int,
            opg == opacity_milli as int,
            opacity_milli <= 1000,
            -10000000 <= start_x <= 10000000,
            -10000000 <= start_y <= 10000000,
            -131072 <= cosv <= 131072,
            -131072 <= sinv <= 131072,
            0 <= rw2 <= 200000,
            0 <= rh2 <= 200000,
            rw2 == spec_rot_half_w(nwi, nhi, cvg, svg),
            rh2 == spec_rot_half_h(nwi, nhi, cvg, svg),
            cx_fp == (nwi * 65536) / 2,
            cy_fp == (nhi * 65536) / 2,
            w64 == wi,
            h64 == hi,
            lo_x == (if sxg - rw2 > 0 {
                sxg - rw2
            } else {
                0
            }),
            hi_x == (if sxg + rw2 < wi {
                sxg + rw2
            } else {
                wi
            }),
            lo_y == (if syg - rh2 > 0 {
                syg - rh2
            } else {
                0
            }),
            hi_y == (if syg + rh2 < hi {
                syg + rh2
            } else {
                hi
            }),
            canvas.wf(),
            canvas.width as int == wi,
            canvas.height as int == hi,
            canvas.data@.len() == d0.len(),
            d0.len() == 4 * (wi * hi),
            forall|x: int, y: int, k: int|
                in_bounds(wi, hi, x, y) && 0 <= k < 4 ==> #[trigger] chan(canvas.data@, wi, x, y, k)
                    == (if spec_wm_covers(nwi, nhi, sxg, syg, cvg, svg, x, y) && y < ty {
                    wm_byte(d0, wi, src.data@, nwi, nhi, sxg, syg, cvg, svg, opg, x, y, k)
                } else {
                    chan(d0, wi, x, y, k)
                }),
        decreases hi_y - ty,
    {
        let mut tx: i64 = lo_x;
        while tx < hi_x
            invariant
                lo_y <= ty < hi_y,
                lo_x <= tx <= hi_x || (hi_x <= lo_x && tx == lo_x),
                src.wf(),
                nw == src.width,
                nh == src.height,
                nwi == nw as int,
                nhi == nh as int,
                sxg == start_x as int,
                syg == start_y as int,
                cvg == cosv as int,
                svg == sinv as int,
                opg == opacity_milli as int,
                opacity_milli <= 1000,
                -10000000 <= start_x <= 10000000,
                -10000000 <= start_y <= 10000000,
                -131072 <= cosv <= 131072,
                -131072 <= sinv <= 131072,
                0 <= rw2 <= 200000,
                0 <= rh2 <= 200000,
                rw2 == spec_rot_half_w(nwi, nhi, cvg, svg),
                rh2 == spec_rot_half_h(nwi, nhi, cvg, svg),
                cx_fp == (nwi * 65536) / 2,
                cy_fp == (nhi * 65536) / 2,
                w64 == wi,
                h64 == hi,
                lo_x == (if sxg - rw2 > 0 {
                    sxg - rw2
                } else {
                    0
                }),
                hi_x == (if sxg + rw2 < wi {
                    sxg + rw2
                } else {
                    wi
                }),
                lo_y == (if syg - rh2 > 0 {
                    syg - rh2
                } else {
                    0
                }),
                hi_y == (if syg + rh2 < hi {
                    syg + rh2
                } else {
                    hi
                }),
                canvas.wf(),
                canvas.width as int == wi,
                canvas.height as int == hi,
                canvas.data@.len() == d0.len(),
                d0.len() == 4 * (wi * hi),
                forall|x: int, y: int, k: int|
                    in_bounds(wi, hi, x, y) && 0 <= k < 4 ==> #[trigger] chan(
                        canvas.data@,
                        wi,
                        x,
                        y,
                        k,
                    ) == (if spec_wm_covers(nwi, nhi, sxg, syg, cvg, svg, x, y) && (y < ty || (y
                        == ty && x < tx)) {
                        wm_byte(d0, wi, src.data@, nwi, nhi, sxg, syg, cvg, svg, opg, x, y, k)
                    } else {
                        chan(d0, wi, x, y, k)
                    }),
            decreases hi_x - tx,
        {
            let rel_x: i64 = tx - start_x;
            let rel_y: i64 = ty - start_y;
            proof {
                assert(rel_x * cosv <= 10300000int * 131072 && rel_x * cosv >= -(10300000int
                    * 131072) && rel_x * sinv <= 10300000int * 131072 && rel_x * sinv >= -(
                10300000int * 131072) && rel_y * cosv <= 10300000int * 131072 && rel_y * cosv >= -(
                10300000int * 131072) && rel_y * sinv <= 10300000int * 131072 && rel_y * sinv >= -(
                10300000int * 131072) && (-rel_x) * sinv <= 10300000int * 131072 && (-rel_x) * sinv
                    >= -(10300000int * 131072)) by (nonlinear_arith)
                    requires
                        -10300000 <= rel_x <= 10300000,
                        -10300000 <= rel_y <= 10300000,
                        -131072 <= cosv <= 131072,
                        -131072 <= sinv <= 131072,
                ;
            }
            let vx: i64 = rel_x * cosv + rel_y * sinv + cx_fp;
            let vy: i64 = (-rel_x) * sinv + rel_y * cosv + cy_fp;
            let sxr = round_fp(vx);
            let syr = round_fp(vy);
            let ghost sxi = spec_inv_src_x(tx as int, ty as int, sxg, syg, cvg, svg, nwi);
            let ghost syi = spec_inv_src_y(tx as int, ty as int, sxg, syg, cvg, svg, nhi);
            proof {
                assert(sxr == sxi && syr == syi);
                assert(spec_wm_covers(nwi, nhi, sxg, syg, cvg, svg, tx as int, ty as int) == (0
                    <= sxi < nwi && 0 <= syi < nhi));
            }
            let ghost dprev = canvas.data@;
            if 0 <= sxr && sxr < nw as i64 && 0 <= syr && syr < nh as i64 {
                let p = src.get_pixel(sxr as usize, syr as usize);
                if p.a != 0 {
                    let f = attenuate(p, opacity_milli);
                    canvas.blend_over_at(tx, ty, f);
                    proof {
                        lemma_blend_over_at_chan(dprev, wi, hi, tx as int, ty as int, f);
                    }
                } else {
                    proof {
                        assert forall|k: int| 0 <= k < 4 implies wm_byte(
                            d0,
                            wi,
                            src.data@,
                            nwi,
                            nhi,
                            sxg,
                            syg,
                            cvg,
                            svg,
                            opg,
                            tx as int,
                            ty as int,
                            k,
                        ) == chan(d0, wi, tx as int, ty as int, k) by {
                            lemma_overlay_transparent(
                                chan(d0, wi, tx as int, ty as int, k),
                                p,
                                opg,
                                k,
                            );
                        }
                    }
                }
            }
            proof {
                assert forall|x: int, y: int, k: int|
                    in_bounds(wi, hi, x, y) && 0 <= k < 4 implies #[trigger] chan(
                    canvas.data@,
                    wi,
                    x,
                    y,
                    k,
                ) == (if spec_wm_covers(nwi, nhi, sxg, syg, cvg, svg, x, y) && (y < ty || (y == ty
                    && x < tx + 1)) {
                    wm_byte(d0, wi, src.data@, nwi, nhi, sxg, syg, cvg, svg, opg, x, y, k)
                } else {
                    chan(d0, wi, x, y, k)
                }) by {
                    if x == tx as int && y == ty as int {
                        if spec_wm_covers(nwi, nhi, sxg, syg, cvg, svg, x, y) {
                            assert(chan(dprev, wi, x, y, k) == chan(d0, wi, x, y, k));
                        }
                    } else {
                        assert(chan(canvas.data@, wi, x, y, k) == chan(dprev, wi, x, y, k));
                    }
                }
            }
            tx = tx + 1;
        }
        ty = ty + 1;
        proof {
            assert forall|x: int, y: int, k: int|
                in_bounds(wi, hi, x, y) && 0 <= k < 4 implies #[trigger] chan(
                canvas.data@,
                wi,
                x,
                y,
                k,
            ) == (if spec_wm_covers(nwi, nhi, sxg, syg, cvg, svg, x, y) && y < ty {
                wm_byte(d0, wi, src.data@, nwi, nhi, sxg, syg, cvg, svg, opg, x, y, k)
            } else {
                chan(d0, wi, x, y, k)
            }) by {
                if spec_wm_covers(nwi, nhi, sxg, syg, cvg, svg, x, y) && y == ty - 1 {
                    assert(x < hi_x);
                }
            }
        }
    }
    proof {
        let res = spec_rotated_overlay(
            d0,
            wi,
            hi,
            src.data@,
            nwi,
            nhi,
            sxg,
            syg,
            cvg,
            svg,
            opg,
        );
        assert forall|i: int| 0 <= i < d0.len() implies canvas.data@[i] == res[i] by {
            lemma_idx_decompose(wi, hi, i);
            let x = (i / 4) % wi;
            let y = (i / 4) / wi;
            let k = i % 4;
            assert(chan(canvas.data@, wi, x, y, k) == canvas.data@[i]);
            assert(chan(d0, wi, x, y, k) == d0[i]);
            if spec_wm_covers(nwi, nhi, sxg, syg, cvg, svg, x, y) {
                assert(y < hi_y && lo_y <= y && lo_x <= x && x < hi_x);
            }
        }
        assert(canvas.data@ =~= res);
    }
}

/// Rounding an exact fixed-point integer recovers it.
proof fn lemma_round_exact(m: int)
    ensures
        spec_round_fp(m * 65536) == m,
{
    if m >= 0 {
        assert(m * 65536 >= 0) by (nonlinear_arith)
            requires
                m >= 0,
        ;
        assert((m * 65536 + 32768) / 65536 == m) by (nonlinear_arith);
    } else {
        assert(m * 65536 < 0) by (nonlinear_arith)
            requires
                m < 0,
        ;
        assert(-(m * 65536) == (-m) * 65536);
        assert(((-m) * 65536 + 32768) / 65536 == -m) by (nonlinear_arith);
    }
}

/// With rotation angle zero (fixed-point cosine 65536, sine 0) the inverse
/// rotation mapping reproduces the unrotated axis-aligned blit exactly: the
/// composite equals `spec_blit_overlay` of the same source with its top-left
/// corner at the placement point shifted by half the source dimensions. The
/// even-dimension bound keeps the source center on the pixel grid; with an
/// odd dimension the half-pixel center rounds and the two composites differ
/// in the edge columns.
pub proof fn lemma_zero_rotation_is_axis_blit(
    d: Seq<u8>,
    w: int,
    h: int,
    src: Seq<u8>,
    nw: int,
    nh: int,
    start_x: int,
    start_y: int,
    op: int,
)
    requires
        0 < w,
        0 < h,
        d.len() == 4 * (w * h),
        0 <= nw,
        0 <= nh,
        nw % 2 == 0,
        nh % 2 == 0,
    ensures
        spec_rotated_overlay(d, w, h, src, nw, nh, start_x, start_y, 65536, 0, op)
            == crate::stamp::spec_blit_overlay(
            d,
            w,
            h,
            src,
            nw,
            nh,
            start_x - nw / 2,
            start_y - nh / 2,
            op,
        ),
{
    let rot = spec_rotated_overlay(d, w, h, src, nw, nh, start_x, start_y, 65536, 0, op);
    let blit = crate::stamp::spec_blit_overlay(
        d,
        w,
        h,
        src,
        nw,
        nh,
        start_x - nw / 2,
        start_y - nh / 2,
        op,
    );
    assert((nw * 65536) / 65536 == nw) by (nonlinear_arith);
    assert((nh * 65536) / 65536 == nh) by (nonlinear_arith);
    assert(nw * 0 == 0 && nh * 0 == 0) by (nonlinear_arith);
    assert(0int / 65536 == 0) by (nonlinear_arith);
    assert((nw * 65536 + nh * 0) / 65536 == nw) by (nonlinear_arith);
    assert((nw * 0 + nh * 65536) / 65536 == nh) by (nonlinear_arith);
    assert((nw * 65536) / 2 == (nw / 2) * 65536) by (nonlinear_arith)
        requires
            nw % 2 == 0,
    ;
    assert((nh * 65536) / 2 == (nh / 2) * 65536) by (nonlinear_arith)
        requires
            nh % 2 == 0,
    ;
    assert(spec_rot_half_w(nw, nh, 65536, 0) == nw / 2);
    assert(spec_rot_half_h(nw, nh, 65536, 0) == nh / 2);
    assert forall|x: int, y: int| true implies spec_inv_src_x(x, y, start_x, start_y, 65536, 0, nw)
        == x - (start_x - nw / 2) && spec_inv_src_y(x, y, start_x, start_y, 65536, 0, nh) == y - (
    start_y - nh / 2) by {
        let mx = x - start_x + nw / 2;
        let my = y - start_y + nh / 2;
        assert((x - start_x) * 65536 + (y - start_y) * 0 + (nw / 2) * 65536 == mx * 65536)
            by (nonlinear_arith)
            requires
                mx == x - start_x + nw / 2,
        ;
        assert((-(x - start_x)) * 0 + (y - start_y) * 65536 + (nh / 2) * 65536 == my * 65536)
            by (nonlinear_arith)
            requires
                my == y - start_y + nh / 2,
        ;
        lemma_round_exact(mx);
        lemma_round_exact(my);
    }
    assert forall|i: int| 0 <= i < d.len() implies rot[i] == blit[i] by {
        lemma_idx_decompose(w, h, i);
        let x = (i / 4) % w;
        let y = (i / 4) / w;
        let sx0 = start_x - nw / 2;
        let sy0 = start_y - nh / 2;
        assert(spec_wm_covers(nw, nh, start_x, start_y, 65536, 0, x, y) == (sx0 <= x < sx0 + nw
            && sy0 <= y < sy0 + nh));
    }
    assert(rot =~= blit);
}

} // verus!
