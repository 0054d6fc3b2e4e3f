use vstd::prelude::*;
use vstd::string::*;
use vstd::arithmetic::div_mod::lemma_div_is_ordered;
use vstd::pervasive::unreached;
use crate::models::{GenerateRequest, GenerateError};
use crate::raster::Raster;
use crate::glyph::{GlyphMask, spec_draw_masks, draw_text_at_position};
use crate::stamp::{blit_overlay, spec_blit_overlay};
use crate::watermark::{rotated_overlay, spec_rotated_overlay};
use crate::imageio::{decode_rgba, rgba_decode, lanczos_resize, lanczos_resized, encode_png, png_encoded};
use crate::trig::{
    spec_cos_fp, spec_sin_fp, cos_fp, sin_fp, spec_milli_to_px, milli_to_px, isqrt, spec_isqrt,
};
use crate::layout::{
    FieldId, FieldPosition, JitterRanges, spec_field_positions, spec_field_jitter,
    spec_sign_positions, spec_text_color, field_positions, field_jitter, sign_positions,
    text_color, issuer_position_text, issuer_initials_text, lemma_field_tables_bounded,
};
use crate::textfmt::{
    spec_decimal, spec_two_digit, spec_time_string, u64_to_dec_string, time_string, year_suffix,
};
use crate::rng::{sample_range, current_year};

verus! {

/// One text occurrence: the string to rasterize, its jittered placement
/// point, and the sampled font size, all in milli-pixels.
pub struct TextPlacement {
    pub text: String,
    pub x_milli: i64,
    pub y_milli: i64,
    pub size_milli: i64,
}

/// One signature stamp occurrence: jittered placement point and sampled
/// scale factor in thousandths.
pub struct SignPlacement {
    pub x_milli: i64,
    pub y_milli: i64,
    pub scale_milli: i64,
}

/// One watermark copy: placement center, scale factor in thousandths,
/// rotation in milli-degrees, and opacity multiplier in thousandths.
pub struct WatermarkPlacement {
    pub x_milli: i64,
    pub y_milli: i64,
    pub scale_milli: i64,
    pub rotation_mdeg: i64,
    pub opacity_milli: i64,
}

impl TextPlacement {
    pub open spec fn wf(self) -> bool {
        &&& -10000000000 <= self.x_milli <= 10000000000
        &&& -10000000000 <= self.y_milli <= 10000000000
        &&& 0 < self.size_milli <= 100000
    }
}

impl SignPlacement {
    pub open spec fn wf(self) -> bool {
        &&& -10000000000 <= self.x_milli <= 10000000000
        &&& -10000000000 <= self.y_milli <= 10000000000
        &&& 0 <= self.scale_milli <= 1000
    }
}

impl WatermarkPlacement {
    pub open spec fn wf(self) -> bool {
        &&& -10000000000 <= self.x_milli <= 10000000000
        &&& -10000000000 <= self.y_milli <= 10000000000
        &&& 0 <= self.scale_milli <= 1000
        &&& -90000 <= self.rotation_mdeg <= 90000
        &&& 0 <= self.opacity_milli <= 1000
    }
}

/// The three watermark placement strategies: no watermark stage at all,
/// placement in a safe interior region with a minimum pairwise distance
/// enforced by bounded retry, or unconstrained placement that may extend
/// beyond the canvas.
pub enum PlacementPolicy {
    Skip,
    AvoidOverlap,
    Unconstrained,
}

/// Watermark stage configuration: the strategy and the half-open range the
/// number of copies is drawn from.
pub struct WatermarkConfig {
    pub policy: PlacementPolicy,
    pub count_min: u32,
    pub count_max: u32,
}

impl WatermarkConfig {
    pub open spec fn wf(self) -> bool {
        self.count_min <= self.count_max
    }
}

/// Everything one render samples before any pixel is touched: the text
/// occurrences (with the sampled document number, hour and minute recorded),
/// the signature placements, and the watermark placements.
pub struct RenderPlan {
    pub text: Vec<TextPlacement>,
    pub signs: Vec<SignPlacement>,
    pub watermarks: Vec<WatermarkPlacement>,
    pub number: u32,
    pub hour: u8,
    pub minute: u8,
}

impl RenderPlan {
    pub open spec fn wf(self) -> bool {
        &&& forall|i: int| 0 <= i < self.text@.len() ==> (#[trigger] self.text@[i]).wf()
        &&& forall|i: int| 0 <= i < self.signs@.len() ==> (#[trigger] self.signs@[i]).wf()
        &&& forall|i: int|
            0 <= i < self.watermarks@.len() ==> (#[trigger] self.watermarks@[i]).wf()
    }
}

/// A dimension scaled by a factor in thousandths, truncated.
pub open spec fn spec_scaled_dim(dim: int, scale: int) -> int {
    (dim * scale) / 1000
}

/// Whether a byte stream decodes as an RGBA image whose dimensions are at
/// most `max_dim`.
pub open spec fn spec_asset_decodes(bytes: Seq<u8>, max_dim: int) -> bool {
    match rgba_decode(bytes) {
        Some(t) => t.0 <= max_dim && t.1 <= max_dim,
        None => false,
    }
}

/// The document image compositor: the three decoded raster assets, shared
/// read-only across renders. The glyph font is parsed and rasterized by the
/// caller, which hands finished coverage masks to `generate_image`.
pub struct ImageGenerator {
    pub template: Raster,
    pub sign: Raster,
    pub watermark: Raster,
}

impl ImageGenerator {
    /// Well-formed: all three assets decoded, with the overlay assets small
    /// enough that any scaled copy stays within resampling range.
    pub open spec fn wf(self) -> bool {
        &&& self.template.wf()
        &&& self.sign.wf()
        &&& self.watermark.wf()
        &&& self.sign.width <= 30000
        &&& self.sign.height <= 30000
        &&& self.watermark.width <= 30000
        &&& self.watermark.height <= 30000
    }

    /// Decode the template, signature and watermark images. The generator is
    /// built exactly when all three byte streams decode within the size
    /// bounds, and it holds exactly the decoded rasters; any undecodable or
    /// oversized asset is fatal: an `InitializationError`, and no generator
    /// is built.
    pub fn new(template_bytes: &Vec<u8>, sign_bytes: &Vec<u8>, watermark_bytes: &Vec<u8>) -> (r:
        Result<ImageGenerator, GenerateError>)
        ensures
            r is Ok <==> spec_asset_decodes(template_bytes@, 100000) && spec_asset_decodes(
                sign_bytes@,
                30000,
            ) && spec_asset_decodes(watermark_bytes@, 30000),
            r matches Ok(g) ==> g.wf() && rgba_decode(template_bytes@) == Some(
                ((g.template.width as int, g.template.height as int, g.template.data@)),
            ) && rgba_decode(sign_bytes@) == Some(
                ((g.sign.width as int, g.sign.height as int, g.sign.data@)),
            ) && rgba_decode(watermark_bytes@) == Some(
                ((g.watermark.width as int, g.watermark.height as int, g.watermark.data@)),
            ),
            r matches Err(e) ==> e is InitializationError,
    {
        let template = match decode_rgba(template_bytes) {
            Ok((w, h, data)) => {
                match Raster::from_raw(w, h, data) {
                    Some(t) => t,
                    None => {
                        return Err(
                            GenerateError::InitializationError(
                                String::from_str("Template image is too large"),
                            ),
                        );
                    },
                }
            },
            Err(_) => {
                return Err(
                    GenerateError::InitializationError(
                        String::from_str("Failed to open template image"),
                    ),
                );
            },
        };
        let sign = match decode_rgba(sign_bytes) {
            Ok((w, h, data)) => {
                if w > 30000 || h > 30000 {
                    return Err(
                        GenerateError::InitializationError(
                            String::from_str("Sign image is too large"),
                        ),
                    );
                }
                match Raster::from_raw(w, h, data) {
                    Some(t) => t,
                    None => { return unreached() },
                }
            },
            Err(_) => {
                return Err(
                    GenerateError::InitializationError(
                        String::from_str("Failed to open sign image"),
                    ),
                );
            },
        };
        let watermark = match decode_rgba(watermark_bytes) {
            Ok((w, h, data)) => {
                if w > 30000 || h > 30000 {
                    return Err(
                        GenerateError::InitializationError(
                            String::from_str("Watermark image is too large"),
                        ),
                    );
                }
                match Raster::from_raw(w, h, data) {
                    Some(t) => t,
                    None => { return unreached() },
                }
            },
            Err(_) => {
                return Err(
                    GenerateError::InitializationError(
                        String::from_str("Failed to open watermark image"),
                    ),
                );
            },
        };
        Ok(ImageGenerator { template, sign, watermark })
    }

    /// The canvas bytes after the text stage: all mask sets composited in
    /// order with the fixed ink color.
    pub open spec fn spec_draw_all_text(
        d: Seq<u8>,
        w: int,
        h: int,
        mss: Seq<Vec<GlyphMask>>,
    ) -> Seq<u8>
        decreases mss.len(),
    {
        if mss.len() == 0 {
            d
        } else {
            spec_draw_masks(
                Self::spec_draw_all_text(d, w, h, mss.drop_last()),
                w,
                h,
                mss.last()@,
                spec_text_color(),
            )
        }
    }

    /// The canvas bytes after compositing one signature placement: the
    /// signature asset is Lanczos-resized by the sampled scale and blitted
    /// axis-aligned, with its own per-pixel alpha (no attenuation).
    pub open spec fn spec_draw_signature(self, d: Seq<u8>, w: int, h: int, p: SignPlacement) -> Seq<
        u8,
    > {
        let nw = spec_scaled_dim(self.sign.width as int, p.scale_milli as int);
        let nh = spec_scaled_dim(self.sign.height as int, p.scale_milli as int);
        spec_blit_overlay(
            d,
            w,
            h,
            lanczos_resized(self.sign.data@, self.sign.width as int, self.sign.height as int, nw,
                nh),
            nw,
            nh,
            spec_milli_to_px(p.x_milli as int),
            spec_milli_to_px(p.y_milli as int),
            1000,
        )
    }

    /// The canvas bytes after the signature stage.
    pub open spec fn spec_draw_signatures(
        self,
        d: Seq<u8>,
        w: int,
        h: int,
        ps: Seq<SignPlacement>,
    ) -> Seq<u8>
        decreases ps.len(),
    {
        if ps.len() == 0 {
            d
        } else {
            self.spec_draw_signature(
                self.spec_draw_signatures(d, w, h, ps.drop_last()),
                w,
                h,
                ps.last(),
            )
        }
    }

    /// The canvas bytes after compositing one watermark placement: the
    /// watermark asset is Lanczos-resized by the sampled scale, rotated by
    /// the inverse mapping, attenuated by the sampled opacity, and blended.
    pub open spec fn spec_draw_watermark(
        self,
        d: Seq<u8>,
        w: int,
        h: int,
        p: WatermarkPlacement,
    ) -> Seq<u8> {
        let nw = spec_scaled_dim(self.watermark.width as int, p.scale_milli as int);
        let nh = spec_scaled_dim(self.watermark.height as int, p.scale_milli as int);
        spec_rotated_overlay(
            d,
            w,
            h,
            lanczos_resized(self.watermark.data@, self.watermark.width as int,
                self.watermark.height as int, nw, nh),
            nw,
            nh,
            spec_milli_to_px(p.x_milli as int),
            spec_milli_to_px(p.y_milli as int),
            spec_cos_fp(p.rotation_mdeg as int),
            spec_sin_fp(p.rotation_mdeg as int),
            p.opacity_milli as int,
        )
    }

    /// The canvas bytes after the watermark stage.
    pub open spec fn spec_draw_watermarks(
        self,
        d: Seq<u8>,
        w: int,
        h: int,
        ps: Seq<WatermarkPlacement>,
    ) -> Seq<u8>
        decreases ps.len(),
    {
        if ps.len() == 0 {
            d
        } else {
            self.spec_draw_watermark(
                self.spec_draw_watermarks(d, w, h, ps.drop_last()),
                w,
                h,
                ps.last(),
            )
        }
    }

    /// The fully composited canvas: the template, then text, then the
    /// signature stamps, then the watermark copies.
    pub open spec fn spec_composite(
        self,
        mss: Seq<Vec<GlyphMask>>,
        signs: Seq<SignPlacement>,
        wms: Seq<WatermarkPlacement>,
    ) -> Seq<u8> {
        let w = self.template.width as int;
        let h = self.template.height as int;
        let c1 = Self::spec_draw_all_text(self.template.data@, w, h, mss);
        let c2 = self.spec_draw_signatures(c1, w, h, signs);
        self.spec_draw_watermarks(c2, w, h, wms)
    }

    /// Composite every text occurrence's glyph masks onto the canvas, in
    /// order, with the fixed ink color.
    pub fn draw_all_text(&self, canvas: &mut Raster, masks: &Vec<Vec<GlyphMask>>)
        requires
            old(canvas).wf(),
            forall|i: int, j: int|
                0 <= i < masks@.len() && 0 <= j < masks@[i]@.len() ==> (#[trigger] masks@[i]@[j]).wf(),
        ensures
            final(canvas).wf(),
            final(canvas).width == old(canvas).width,
            final(canvas).height == old(canvas).height,
            final(canvas).data@ == Self::spec_draw_all_text(
                old(canvas).data@,
                old(canvas).width as int,
                old(canvas).height as int,
                masks@,
            ),
    {
        let ghost d0 = canvas.data@;
        let ghost wi = canvas.width as int;
        let ghost hi = canvas.height as int;
        let color = text_color();
        let n = masks.len();
        let mut i: usize = 0;
        while i < n
            invariant
                0 <= i <= n,
                n == masks@.len(),
                color == spec_text_color(),
                forall|a: int, j: int|
                    0 <= a < masks@.len() && 0 <= j < masks@[a]@.len() ==> (#[trigger] masks@[a]@[j]).wf(),
                canvas.wf(),
                canvas.width as int == wi,
                canvas.height as int == hi,
                canvas.data@ == Self::spec_draw_all_text(d0, wi, hi, masks@.take(i as int)),
            decreases n - i,
        {
            draw_text_at_position(canvas, &masks[i], color);
            proof {
                let pre = masks@.take(i as int);
                let post = masks@.take(i as int + 1);
                assert(post.drop_last() =~= pre);
                assert(post.last() == masks@[i as int]);
            }
            i = i + 1;
        }
        proof {
            assert(masks@.take(n as int) =~= masks@);
        }
    }

    /// Resize the signature by the sampled scale and blit it axis-aligned at
    /// the placement point, blending by the signature's own alpha.
    pub fn draw_signature_at_position(&self, canvas: &mut Raster, p: &SignPlacement)
        requires
            old(canvas).wf(),
            self.wf(),
            p.wf(),
        ensures
            final(canvas).wf(),
            final(canvas).width == old(canvas).width,
            final(canvas).height == old(canvas).height,
            final(canvas).data@ == self.spec_draw_signature(
                old(canvas).data@,
                old(canvas).width as int,
                old(canvas).height as int,
                *p,
            ),
    {
        proof {
            assert((self.sign.width as int) * (p.scale_milli as int) <= 30000int * 1000)
                by (nonlinear_arith)
                requires
                    self.sign.width <= 30000,
                    0 <= p.scale_milli <= 1000,
            ;
            assert((self.sign.height as int) * (p.scale_milli as int) <= 30000int * 1000)
                by (nonlinear_arith)
                requires
                    self.sign.height <= 30000,
                    0 <= p.scale_milli <= 1000,
            ;
            lemma_div_is_ordered(
                (self.sign.width as int) * (p.scale_milli as int),
                30000int * 1000,
                1000,
            );
            lemma_div_is_ordered(
                (self.sign.height as int) * (p.scale_milli as int),
                30000int * 1000,
                1000,
            );
        }
        let nw: u32 = (((self.sign.width as u64) * (p.scale_milli as u64)) / 1000) as u32;
        let nh: u32 = (((self.sign.height as u64) * (p.scale_milli as u64)) / 1000) as u32;
        let rv = lanczos_resize(&self.sign, nw, nh);
        let resized = match Raster::from_raw(nw, nh, rv) {
            Some(r) => r,
            None => { return unreached() },
        };
        let sx = milli_to_px(p.x_milli);
        let sy = milli_to_px(p.y_milli);
        proof {
            crate::trig::lemma_milli_to_px_bound(p.x_milli as int, 10000000);
            crate::trig::lemma_milli_to_px_bound(p.y_milli as int, 10000000);
        }
        blit_overlay(canvas, &resized, sx, sy, 1000);
    }

    /// Composite every signature placement onto the canvas.
    pub fn draw_all_signatures(&self, canvas: &mut Raster, ps: &Vec<SignPlacement>)
        requires
            old(canvas).wf(),
            self.wf(),
            forall|i: int| 0 <= i < ps@.len() ==> (#[trigger] ps@[i]).wf(),
        ensures
            final(canvas).wf(),
            final(canvas).width == old(canvas).width,
            final(canvas).height == old(canvas).height,
            final(canvas).data@ == self.spec_draw_signatures(
                old(canvas).data@,
                old(canvas).width as int,
                old(canvas).height as int,
                ps@,
            ),
    {
        let ghost d0 = canvas.data@;
        let ghost wi = canvas.width as int;
        let ghost hi = canvas.height as int;
        let n = ps.len();
        let mut i: usize = 0;
        while i < n
            invariant
                0 <= i <= n,
                n == ps@.len(),
                self.wf(),
                forall|a: int| 0 <= a < ps@.len() ==> (#[trigger] ps@[a]).wf(),
                canvas.wf(),
                canvas.width as int == wi,
                canvas.height as int == hi,
                canvas.data@ == self.spec_draw_signatures(d0, wi, hi, ps@.take(i as int)),
            decreases n - i,
        {
            self.draw_signature_at_position(canvas, &ps[i]);
            proof {
                let pre = ps@.take(i as int);
                let post = ps@.take(i as int + 1);
                assert(post.drop_last() =~= pre);
                assert(post.last() == ps@[i as int]);
            }
            i = i + 1;
        }
        proof {
            assert(ps@.take(n as int) =~= ps@);
        }
    }

    /// Resize the watermark by the sampled scale, then composite it rotated
    /// by the sampled angle and attenuated by the sampled opacity.
    pub fn draw_watermark_at_position(&self, canvas: &mut Raster, p: &WatermarkPlacement)
        requires
            old(canvas).wf(),
            self.wf(),
            p.wf(),
        ensures
            final(canvas).wf(),
            final(canvas).width == old(canvas).width,
            final(canvas).height == old(canvas).height,
            final(canvas).data@ == self.spec_draw_watermark(
                old(canvas).data@,
                old(canvas).width as int,
                old(canvas).height as int,
                *p,
            ),
    {
        proof {
            assert((self.watermark.width as int) * (p.scale_milli as int) <= 30000int * 1000)
                by (nonlinear_arith)
                requires
                    self.watermark.width <= 30000,
                    0 <= p.scale_milli <= 1000,
            ;
            assert((self.watermark.height as int) * (p.scale_milli as int) <= 30000int * 1000)
                by (nonlinear_arith)
                requires
                    self.watermark.height <= 30000,
                    0 <= p.scale_milli <= 1000,
            ;
            lemma_div_is_ordered(
                (self.watermark.width as int) * (p.scale_milli as int),
                30000int * 1000,
                1000,
            );
            lemma_div_is_ordered(
                (self.watermark.height as int) * (p.scale_milli as int),
                30000int * 1000,
                1000,
            );
        }
        let nw: u32 = (((self.watermark.width as u64) * (p.scale_milli as u64)) / 1000) as u32;
        let nh: u32 = (((self.watermark.height as u64) * (p.scale_milli as u64)) / 1000) as u32;
        let rv = lanczos_resize(&self.watermark, nw, nh);
        let resized = match Raster::from_raw(nw, nh, rv) {
            Some(r) => r,
            None => { return unreached() },
        };
        let sx = milli_to_px(p.x_milli);
        let sy = milli_to_px(p.y_milli);
        proof {
            crate::trig::lemma_milli_to_px_bound(p.x_milli as int, 10000000);
            crate::trig::lemma_milli_to_px_bound(p.y_milli as int, 10000000);
        }
        let cv = cos_fp(p.rotation_mdeg);
        let sv = sin_fp(p.rotation_mdeg);
        rotated_overlay(canvas, &resized, sx, sy, cv, sv, p.opacity_milli as u32);
    }

    /// Composite every watermark placement onto the canvas.
    pub fn draw_all_watermarks(&self, canvas: &mut Raster, ps: &Vec<WatermarkPlacement>)
        requires
            old(canvas).wf(),
            self.wf(),
            forall|i: int| 0 <= i < ps@.len() ==> (#[trigger] ps@[i]).wf(),
        ensures
            final(canvas).wf(),
            final(canvas).width == old(canvas).width,
            final(canvas).height == old(canvas).height,
            final(canvas).data@ == self.spec_draw_watermarks(
                old(canvas).data@,
                old(canvas).width as int,
                old(canvas).height as int,
                ps@,
            ),
    {
        let ghost d0 = canvas.data@;
        let ghost wi = canvas.width as int;
        let ghost hi = canvas.height as int;
        let n = ps.len();
        let mut i: usize = 0;
        while i < n
            invariant
                0 <= i <= n,
                n == ps@.len(),
                self.wf(),
                forall|a: int| 0 <= a < ps@.len() ==> (#[trigger] ps@[a]).wf(),
                canvas.wf(),
                canvas.width as int == wi,
                canvas.height as int == hi,
                canvas.data@ == self.spec_draw_watermarks(d0, wi, hi, ps@.take(i as int)),
            decreases n - i,
        {
            self.draw_watermark_at_position(canvas, &ps[i]);
            proof {
                let pre = ps@.take(i as int);
                let post = ps@.take(i as int + 1);
                assert(post.drop_last() =~= pre);
                assert(post.last() == ps@[i as int]);
            }
            i = i + 1;
        }
        proof {
            assert(ps@.take(n as int) =~= ps@);
        }
    }

    /// An empty watermark placement list leaves the canvas exactly as the
    /// stage found it: zero configured copies and a skipped watermark stage
    /// are the same canvas.
    pub proof fn lemma_no_watermarks_is_identity(self, d: Seq<u8>, w: int, h: int)
        ensures
            self.spec_draw_watermarks(d, w, h, Seq::<WatermarkPlacement>::empty()) == d,
    {
    }

    /// Render one document image from a sampled plan and the glyph coverage
    /// masks rasterized for its text occurrences: clone the template,
    /// composite text, signatures and watermarks, and encode the canvas as a
    /// PNG. The render succeeds exactly when the template has non-zero
    /// dimensions (out-of-canvas geometry is clipped, never an error), and
    /// the bytes are then exactly the PNG encoding of the composited canvas;
    /// the only failure is the encoder's rejection of an empty canvas,
    /// reported as a `GenerationError`.
    pub fn generate_image(&self, plan: &RenderPlan, masks: &Vec<Vec<GlyphMask>>) -> (r: Result<
        Vec<u8>,
        GenerateError,
    >)
        requires
            self.wf(),
            plan.wf(),
            forall|i: int, j: int|
                0 <= i < masks@.len() && 0 <= j < masks@[i]@.len() ==> (#[trigger] masks@[i]@[j]).wf(),
        ensures
            r is Ok <==> self.template.width > 0 && self.template.height > 0,
            r matches Ok(bytes) ==> bytes@ == png_encoded(
                self.spec_composite(masks@, plan.signs@, plan.watermarks@),
                self.template.width as int,
                self.template.height as int,
            ),
            r matches Err(e) ==> e is GenerationError,
    {
        let mut canvas = self.template.duplicate();
        self.draw_all_text(&mut canvas, masks);
        self.draw_all_signatures(&mut canvas, &plan.signs);
        self.draw_all_watermarks(&mut canvas, &plan.watermarks);
        match encode_png(&canvas) {
            Ok(bytes) => Ok(bytes),
            Err(_) => Err(
                GenerateError::GenerationError(String::from_str("Failed to encode PNG")),
            ),
        }
    }
}

/// One text occurrence placed as the layout and jitter tables prescribe: the
/// given text, at the anchor displaced by a jitter inside the field's
/// ranges, with a size inside the field's size range.
pub open spec fn text_placement_matches(
    e: TextPlacement,
    pos: FieldPosition,
    j: JitterRanges,
    txt: Seq<char>,
) -> bool {
    &&& e.text@ == txt
    &&& pos.x_milli + j.dx_lo <= e.x_milli < pos.x_milli + j.dx_hi
    &&& pos.y_milli + j.dy_lo <= e.y_milli < pos.y_milli + j.dy_hi
    &&& j.size_lo <= e.size_milli < j.size_hi
}

/// The occurrences of field `f` stand in `t` starting at `start`, one per
/// anchor, in anchor order, all carrying `txt`.
pub open spec fn field_entries_ok_at(
    t: Seq<TextPlacement>,
    start: int,
    f: FieldId,
    txt: Seq<char>,
) -> bool {
    forall|a: int|
        0 <= a < spec_field_positions(f).len() ==> text_placement_matches(
            #[trigger] t[start + a],
            spec_field_positions(f)[a],
            spec_field_jitter(f),
            txt,
        )
}

/// One signature placement as the stamp tables prescribe: anchor jitter in
/// `[-3000, 3000)` by `[-2000, 5000)` milli-pixels, scale in `[65, 80)`
/// thousandths.
pub open spec fn sign_placement_matches(e: SignPlacement, pos: FieldPosition) -> bool {
    &&& pos.x_milli - 3000 <= e.x_milli < pos.x_milli + 3000
    &&& pos.y_milli - 2000 <= e.y_milli < pos.y_milli + 5000
    &&& 65 <= e.scale_milli < 80
}

/// The sampled ranges of one watermark placement: scale in `[300, 900)`
/// thousandths, rotation in `[-40000, 40000)` milli-degrees, opacity in
/// `[40, 100)` thousandths.
pub open spec fn watermark_ranges_ok(p: WatermarkPlacement) -> bool {
    &&& 300 <= p.scale_milli < 900
    &&& -40000 <= p.rotation_mdeg < 40000
    &&& 40 <= p.opacity_milli < 100
}

/// The extra interior margin of one safe-area watermark placement: six
/// tenths of the scaled watermark's diagonal, in milli-pixels, so a rotated
/// copy stays inside the margins.
pub open spec fn spec_wm_extra_margin(wm_w: int, wm_h: int, scale: int) -> int {
    let ww = wm_w * scale;
    let wh = wm_h * scale;
    (spec_isqrt(ww * ww + wh * wh) * 600) / 1000
}

/// The sampling span of one safe-area axis: the canvas minus the fixed
/// 100-pixel margins and the extra margin on both sides, floored at the
/// scaled watermark's own size.
pub open spec fn spec_wm_span(img_px: int, wm_milli: int, extra: int) -> int {
    let adj = img_px * 1000 - 200000 - 2 * extra;
    if adj >= wm_milli {
        adj
    } else {
        wm_milli
    }
}

/// Where a safe-area coordinate lands on one axis: inside the half-open
/// window that starts at the fixed margin plus the extra margin when the
/// span is positive, and exactly at that lower edge otherwise.
pub open spec fn wm_coord_in_window(v: int, img_px: int, wm_milli: int, extra: int) -> bool {
    let span = spec_wm_span(img_px, wm_milli, extra);
    if span > 0 {
        100000 + extra <= v < 100000 + extra + span
    } else {
        v == 100000 + extra
    }
}

/// The two-digit year text printed on the document: the last two digits of
/// a four-digit year, or a default century for an out-of-range clock.
pub open spec fn spec_year_text(year: int) -> Seq<char> {
    spec_two_digit(
        if 1000 <= year <= 9999 {
            year % 100
        } else {
            0
        },
    )
}

/// The full text-plan contract: fifteen occurrences in layout order (name
/// twice, address once, issuer twice, issuer position once, issuer initials
/// once, number twice, year five times, time once), each anchored and
/// jittered as its field's tables prescribe.
pub open spec fn spec_plan_text_ok(plan: RenderPlan, request: GenerateRequest, year: int) -> bool {
    let t = plan.text@;
    &&& t.len() == 15
    &&& field_entries_ok_at(t, 0, FieldId::Name, request.name@)
    &&& field_entries_ok_at(t, 2, FieldId::Address, request.address@)
    &&& field_entries_ok_at(t, 3, FieldId::Issuer, request.issuer@)
    &&& field_entries_ok_at(t, 5, FieldId::IssuerPosition, "Президент України"@)
    &&& field_entries_ok_at(t, 6, FieldId::IssuerInitials, "Зеленський В. О."@)
    &&& field_entries_ok_at(t, 7, FieldId::Number, spec_decimal(plan.number as int))
    &&& field_entries_ok_at(t, 9, FieldId::Year, spec_year_text(year))
    &&& field_entries_ok_at(t, 14, FieldId::Time, spec_time_string(plan.hour as int, plan.minute as int))
}

/// Squared distance between two placement centers, in milli-pixels squared.
pub open spec fn spec_dist_sq(ax: int, ay: int, bx: int, by: int) -> int {
    (ax - bx) * (ax - bx) + (ay - by) * (ay - by)
}

/// Minimum squared center distance between two watermark copies under the
/// overlap-avoiding policy: 200 pixels, squared, in milli-pixel units.
pub const MIN_DIST_SQ_MILLI: i64 = 40000000000;

/// Whether a candidate center is within the minimum distance of any already
/// placed copy.
fn too_close(placed: &Vec<WatermarkPlacement>, x: i64, y: i64) -> (b: bool)
    requires
        0 <= x <= 200000000,
        0 <= y <= 200000000,
        forall|i: int|
            0 <= i < placed@.len() ==> 0 <= (#[trigger] placed@[i]).x_milli <= 200000000 && 0
                <= placed@[i].y_milli <= 200000000,
    ensures
        b == exists|i: int|
            0 <= i < placed@.len() && spec_dist_sq(
                (#[trigger] placed@[i]).x_milli as int,
                placed@[i].y_milli as int,
                x as int,
                y as int,
            ) < MIN_DIST_SQ_MILLI,
{
    let n = placed.len();
    let mut i: usize = 0;
    while i < n
        invariant
            0 <= i <= n,
            n == placed@.len(),
            0 <= x <= 200000000,
            0 <= y <= 200000000,
            forall|a: int|
                0 <= a < placed@.len() ==> 0 <= (#[trigger] placed@[a]).x_milli <= 200000000 && 0
                    <= placed@[a].y_milli <= 200000000,
            forall|a: int|
                0 <= a < i ==> spec_dist_sq(
                    (#[trigger] placed@[a]).x_milli as int,
                    placed@[a].y_milli as int,
                    x as int,
                    y as int,
                ) >= MIN_DIST_SQ_MILLI,
        decreases n - i,
    {
        let e = &placed[i];
        let dx: i64 = e.x_milli - x;
        let dy: i64 = e.y_milli - y;
        proof {
            assert(dx * dx <= 200000000int * 200000000 && dx * dx >= 0 && dy * dy <= 200000000int
                * 200000000 && dy * dy >= 0) by (nonlinear_arith)
                requires
                    -200000000 <= dx <= 200000000,
                    -200000000 <= dy <= 200000000,
            ;
        }
        let dsq: i64 = dx * dx + dy * dy;
        if dsq < MIN_DIST_SQ_MILLI {
            return true;
        }
        i = i + 1;
    }
    false
}

impl ImageGenerator {
    /// Sample the document's time-of-day: an hour in 8 to 18 and a minute
    /// that is a multiple of five, rendered as `HH:MM`.
    pub fn generate_time(rng: &mut rand::rngs::StdRng) -> (r: (String, u8, u8))
        ensures
            8 <= r.1 < 19,
            r.2 < 60,
            (r.2 as int) % 5 == 0,
            r.0@ == spec_time_string(r.1 as int, r.2 as int),
    {
        let hour = sample_range(rng, 8, 19);
        let midx = sample_range(rng, 0, 12);
        let minute: i64 = midx * 5;
        proof {
            assert((midx * 5) % 5 == 0 && 0 <= midx * 5 < 60) by (nonlinear_arith)
                requires
                    0 <= midx < 12,
            ;
        }
        let s = time_string(hour as u64, minute as u64);
        (s, hour as u8, minute as u8)
    }

    /// Sample the placements of one field's occurrences and append them: one
    /// entry per anchor, each with independently sampled jitter and size.
    fn plan_field(
        &self,
        out: &mut Vec<TextPlacement>,
        f: FieldId,
        text: &String,
        rng: &mut rand::rngs::StdRng,
    )
        ensures
            final(out)@.len() == old(out)@.len() + spec_field_positions(f).len(),
            forall|i: int| 0 <= i < old(out)@.len() ==> final(out)@[i] == old(out)@[i],
            field_entries_ok_at(final(out)@, old(out)@.len() as int, f, text@),
            forall|i: int|
                old(out)@.len() <= i < final(out)@.len() ==> (#[trigger] final(out)@[i]).wf(),
    {
        let ghost base = old(out)@.len() as int;
        let positions = field_positions(f);
        let j = field_jitter(f);
        proof {
            lemma_field_tables_bounded(f);
        }
        let n = positions.len();
        let mut i: usize = 0;
        while i < n
            invariant
                0 <= i <= n,
                n == spec_field_positions(f).len(),
                positions@ == spec_field_positions(f),
                j == spec_field_jitter(f),
                base == old(out)@.len() as int,
                out@.len() == base + i,
                forall|a: int| 0 <= a < base ==> out@[a] == old(out)@[a],
                forall|a: int|
                    0 <= a < i ==> text_placement_matches(
                        #[trigger] out@[base + a],
                        spec_field_positions(f)[a],
                        spec_field_jitter(f),
                        text@,
                    ),
                forall|a: int| base <= a < out@.len() ==> (#[trigger] out@[a]).wf(),
            decreases n - i,
        {
            proof {
                lemma_field_tables_bounded(f);
            }
            let pos = positions[i];
            let dx = sample_range(rng, j.dx_lo, j.dx_hi);
            let dy = sample_range(rng, j.dy_lo, j.dy_hi);
            let size = sample_range(rng, j.size_lo, j.size_hi);
            let e = TextPlacement {
                text: text.clone(),
                x_milli: pos.x_milli + dx,
                y_milli: pos.y_milli + dy,
                size_milli: size,
            };
            out.push(e);
            i = i + 1;
        }
    }

    /// Sample the signature placements: one per stamp anchor, with jitter
    /// and a scale factor in the stamp's ranges.
    pub fn plan_signs(&self, rng: &mut rand::rngs::StdRng) -> (v: Vec<SignPlacement>)
        ensures
            v@.len() == spec_sign_positions().len(),
            forall|i: int|
                0 <= i < v@.len() ==> sign_placement_matches(
                    #[trigger] v@[i],
                    spec_sign_positions()[i],
                ),
            forall|i: int| 0 <= i < v@.len() ==> (#[trigger] v@[i]).wf(),
    {
        let positions = sign_positions();
        let n = positions.len();
        let mut v: Vec<SignPlacement> = Vec::new();
        let mut i: usize = 0;
        while i < n
            invariant
                0 <= i <= n,
                n == spec_sign_positions().len(),
                positions@ == spec_sign_positions(),
                v@.len() == i,
                forall|a: int|
                    0 <= a < i ==> sign_placement_matches(
                        #[trigger] v@[a],
                        spec_sign_positions()[a],
                    ),
                forall|a: int| 0 <= a < i ==> (#[trigger] v@[a]).wf(),
            decreases n - i,
        {
            let pos = positions[i];
            proof {
                assert(spec_sign_positions()[i as int].x_milli == 618000);
                assert(spec_sign_positions()[i as int].y_milli == 716000);
            }
            let scale = sample_range(rng, 65, 80);
            let dx = sample_range(rng, -3000, 3000);
            let dy = sample_range(rng, -2000, 5000);
            v.push(
                SignPlacement {
                    x_milli: pos.x_milli + dx,
                    y_milli: pos.y_milli + dy,
                    scale_milli: scale,
                },
            );
            i = i + 1;
        }
        v
    }

    /// Sample one watermark placement confined to the safe interior region:
    /// scale, rotation and opacity from their ranges, and a center inside
    /// the canvas margins, widened by an extra margin proportional to the
    /// scaled watermark's diagonal so a rotated copy stays visible.
    pub fn generate_watermark_params(&self, rng: &mut rand::rngs::StdRng) -> (p:
        WatermarkPlacement)
        requires
            self.wf(),
        ensures
            p.wf(),
            watermark_ranges_ok(p),
            0 <= p.x_milli <= 200000000,
            0 <= p.y_milli <= 200000000,
            ({
                let extra = spec_wm_extra_margin(
                    self.watermark.width as int,
                    self.watermark.height as int,
                    p.scale_milli as int,
                );
                &&& wm_coord_in_window(
                    p.x_milli as int,
                    self.template.width as int,
                    self.watermark.width as int * p.scale_milli as int,
                    extra,
                )
                &&& wm_coord_in_window(
                    p.y_milli as int,
                    self.template.height as int,
                    self.watermark.height as int * p.scale_milli as int,
                    extra,
                )
            }),
    {
        let scale = sample_range(rng, 300, 900);
        let rot = sample_range(rng, -40000, 40000);
        let op = sample_range(rng, 40, 100);
        let margin: i64 = 100000;
        let img_w_milli: i64 = (self.template.width as i64) * 1000;
        let img_h_milli: i64 = (self.template.height as i64) * 1000;
        let safe_w: i64 = img_w_milli - 2 * margin;
        let safe_h: i64 = img_h_milli - 2 * margin;
        proof {
            assert((self.watermark.width as int) * (scale as int) <= 27000000 && (
            self.watermark.height as int) * (scale as int) <= 27000000) by (nonlinear_arith)
                requires
                    self.watermark.width <= 30000,
                    self.watermark.height <= 30000,
                    0 <= scale < 900,
            ;
        }
        let ww: u64 = (self.watermark.width as u64) * (scale as u64);
        let wh: u64 = (self.watermark.height as u64) * (scale as u64);
        proof {
            assert(ww * ww <= 27000000int * 27000000 && wh * wh <= 27000000int * 27000000)
                by (nonlinear_arith)
                requires
                    ww <= 27000000,
                    wh <= 27000000,
            ;
        }
        let diag: u64 = isqrt(ww * ww + wh * wh);
        proof {
            assert(diag <= 38200000) by (nonlinear_arith)
                requires
                    diag * diag <= 1458000000000000,
            ;
        }
        let extra: i64 = ((diag * 600) / 1000) as i64;
        proof {
            lemma_div_is_ordered((diag * 600) as int, 38200000int * 600, 1000);
            assert(extra as int == spec_wm_extra_margin(
                self.watermark.width as int,
                self.watermark.height as int,
                scale as int,
            ));
        }
        let adj_w0: i64 = safe_w - 2 * extra;
        let adj_h0: i64 = safe_h - 2 * extra;
        let adj_w: i64 = if adj_w0 >= ww as i64 {
            adj_w0
        } else {
            ww as i64
        };
        let adj_h: i64 = if adj_h0 >= wh as i64 {
            adj_h0
        } else {
            wh as i64
        };
        let x: i64 = if adj_w > 0 {
            margin + extra + sample_range(rng, 0, adj_w)
        } else {
            margin + extra
        };
        let y: i64 = if adj_h > 0 {
            margin + extra + sample_range(rng, 0, adj_h)
        } else {
            margin + extra
        };
        WatermarkPlacement {
            x_milli: x,
            y_milli: y,
            scale_milli: scale,
            rotation_mdeg: rot,
            opacity_milli: op,
        }
    }

    /// Sample one unconstrained watermark placement: the center may fall
    /// anywhere from one watermark-width before the canvas to its far edge,
    /// so the footprint may extend partly or wholly outside the canvas.
    pub fn unconstrained_watermark_params(&self, rng: &mut rand::rngs::StdRng) -> (p:
        WatermarkPlacement)
        requires
            self.wf(),
        ensures
            p.wf(),
            watermark_ranges_ok(p),
            ({
                let ww = self.watermark.width as int * p.scale_milli as int;
                let img_w = self.template.width as int * 1000;
                if -ww < img_w {
                    -ww <= p.x_milli < img_w
                } else {
                    p.x_milli == 0
                }
            }),
            ({
                let wh = self.watermark.height as int * p.scale_milli as int;
                let img_h = self.template.height as int * 1000;
                if -wh < img_h {
                    -wh <= p.y_milli < img_h
                } else {
                    p.y_milli == 0
                }
            }),
    {
        let scale = sample_range(rng, 300, 900);
        let rot = sample_range(rng, -40000, 40000);
        let op = sample_range(rng, 40, 100);
        proof {
            assert((self.watermark.width as int) * (scale as int) <= 27000000 && (
            self.watermark.height as int) * (scale as int) <= 27000000) by (nonlinear_arith)
                requires
                    self.watermark.width <= 30000,
                    self.watermark.height <= 30000,
                    0 <= scale < 900,
            ;
        }
        let ww: i64 = ((self.watermark.width as u64) * (scale as u64)) as i64;
        let wh: i64 = ((self.watermark.height as u64) * (scale as u64)) as i64;
        let img_w_milli: i64 = (self.template.width as i64) * 1000;
        let img_h_milli: i64 = (self.template.height as i64) * 1000;
        let x: i64 = if -ww < img_w_milli {
            sample_range(rng, -ww, img_w_milli)
        } else {
            0
        };
        let y: i64 = if -wh < img_h_milli {
            sample_range(rng, -wh, img_h_milli)
        } else {
            0
        };
        WatermarkPlacement {
            x_milli: x,
            y_milli: y,
            scale_milli: scale,
            rotation_mdeg: rot,
            opacity_milli: op,
        }
    }

    /// Bounded-retry placement: sample candidates until one keeps the
    /// minimum center distance from every placed copy, for at most twenty
    /// attempts; after exhaustion the last candidate is accepted even if it
    /// violates the distance, which guarantees termination for every safe
    /// area, including degenerate ones.
    fn pick_watermark_placement(
        &self,
        placed: &Vec<WatermarkPlacement>,
        rng: &mut rand::rngs::StdRng,
    ) -> (p: WatermarkPlacement)
        requires
            self.wf(),
            forall|i: int|
                0 <= i < placed@.len() ==> 0 <= (#[trigger] placed@[i]).x_milli <= 200000000 && 0
                    <= placed@[i].y_milli <= 200000000,
        ensures
            p.wf(),
            watermark_ranges_ok(p),
            0 <= p.x_milli <= 200000000,
            0 <= p.y_milli <= 200000000,
    {
        let mut attempts: u32 = 0;
        while attempts < 20
            invariant
                self.wf(),
                forall|i: int|
                    0 <= i < placed@.len() ==> 0 <= (#[trigger] placed@[i]).x_milli <= 200000000
                        && 0 <= placed@[i].y_milli <= 200000000,
            decreases 20 - attempts,
        {
            let cand = self.generate_watermark_params(rng);
            if !too_close(placed, cand.x_milli, cand.y_milli) {
                return cand;
            }
            attempts = attempts + 1;
        }
        self.generate_watermark_params(rng)
    }

    /// Sample the watermark placements for one render under the configured
    /// policy: none at all, overlap-avoiding in the safe region, or
    /// unconstrained. The number of copies is drawn from the configured
    /// half-open range (its lower bound when the range is empty).
    pub fn plan_watermarks(
        &self,
        rng: &mut rand::rngs::StdRng,
        config: &WatermarkConfig,
    ) -> (v: Vec<WatermarkPlacement>)
        requires
            self.wf(),
            config.wf(),
        ensures
            forall|i: int| 0 <= i < v@.len() ==> (#[trigger] v@[i]).wf() && watermark_ranges_ok(v@[i]),
            config.policy is Skip ==> v@.len() == 0,
            !(config.policy is Skip) ==> config.count_min <= v@.len() && (config.count_min
                < config.count_max ==> v@.len() < config.count_max) && (config.count_min
                == config.count_max ==> v@.len() == config.count_min),
    {
        let mut v: Vec<WatermarkPlacement> = Vec::new();
        match config.policy {
            PlacementPolicy::Skip => v,
            PlacementPolicy::AvoidOverlap => {
                let count: u32 = if config.count_min < config.count_max {
                    sample_range(rng, config.count_min as i64, config.count_max as i64) as u32
                } else {
                    config.count_min
                };
                let mut i: u32 = 0;
                while i < count
                    invariant
                        0 <= i <= count,
                        self.wf(),
                        v@.len() == i,
                        forall|a: int|
                            0 <= a < v@.len() ==> (#[trigger] v@[a]).wf() && watermark_ranges_ok(
                                v@[a],
                            ) && 0 <= v@[a].x_milli <= 200000000 && 0 <= v@[a].y_milli
                                <= 200000000,
                    decreases count - i,
                {
                    let p = self.pick_watermark_placement(&v, rng);
                    v.push(p);
                    i = i + 1;
                }
                v
            },
            PlacementPolicy::Unconstrained => {
                let count: u32 = if config.count_min < config.count_max {
                    sample_range(rng, config.count_min as i64, config.count_max as i64) as u32
                } else {
                    config.count_min
                };
                let mut i: u32 = 0;
                while i < count
                    invariant
                        0 <= i <= count,
                        self.wf(),
                        v@.len() == i,
                        forall|a: int|
                            0 <= a < v@.len() ==> (#[trigger] v@[a]).wf() && watermark_ranges_ok(
                                v@[a],
                            ),
                    decreases count - i,
                {
                    let p = self.unconstrained_watermark_params(rng);
                    v.push(p);
                    i = i + 1;
                }
                v
            },
        }
    }

    /// Sample everything one render needs: the document number, the year
    /// and time texts, every text occurrence's jittered placement, the
    /// signature placements, and the watermark placements. The plan is a
    /// pure value: rendering it is a separate, deterministic step.
    pub fn plan_render(
        &self,
        request: &GenerateRequest,
        year: i32,
        rng: &mut rand::rngs::StdRng,
        config: &WatermarkConfig,
    ) -> (plan: RenderPlan)
        requires
            self.wf(),
            config.wf(),
        ensures
            plan.wf(),
            4096 <= plan.number < 262144,
            8 <= plan.hour < 19,
            plan.minute < 60,
            (plan.minute as int) % 5 == 0,
            spec_plan_text_ok(plan, *request, year as int),
            plan.signs@.len() == spec_sign_positions().len(),
            forall|i: int|
                0 <= i < plan.signs@.len() ==> sign_placement_matches(
                    #[trigger] plan.signs@[i],
                    spec_sign_positions()[i],
                ),
            forall|i: int|
                0 <= i < plan.watermarks@.len() ==> watermark_ranges_ok(
                    #[trigger] plan.watermarks@[i],
                ),
            config.policy is Skip ==> plan.watermarks@.len() == 0,
            !(config.policy is Skip) ==> config.count_min <= plan.watermarks@.len() && (
            config.count_min < config.count_max ==> plan.watermarks@.len() < config.count_max) && (
            config.count_min == config.count_max ==> plan.watermarks@.len() == config.count_min),
    {
        let number: u32 = sample_range(rng, 4096, 262144) as u32;
        let yu: u64 = if 1000 <= year && year <= 9999 {
            year as u64
        } else {
            2000
        };
        let ysuffix = year_suffix(yu);
        let (tstr, hour, minute) = Self::generate_time(rng);
        let nstr = u64_to_dec_string(number as u64);
        let ipt = issuer_position_text();
        let iit = issuer_initials_text();
        let mut text: Vec<TextPlacement> = Vec::new();
        self.plan_field(&mut text, FieldId::Name, &request.name, rng);
        let ghost t1 = text@;
        self.plan_field(&mut text, FieldId::Address, &request.address, rng);
        let ghost t2 = text@;
        self.plan_field(&mut text, FieldId::Issuer, &request.issuer, rng);
        let ghost t3 = text@;
        self.plan_field(&mut text, FieldId::IssuerPosition, &ipt, rng);
        let ghost t4 = text@;
        self.plan_field(&mut text, FieldId::IssuerInitials, &iit, rng);
        let ghost t5 = text@;
        self.plan_field(&mut text, FieldId::Number, &nstr, rng);
        let ghost t6 = text@;
        self.plan_field(&mut text, FieldId::Year, &ysuffix, rng);
        let ghost t7 = text@;
        self.plan_field(&mut text, FieldId::Time, &tstr, rng);
        let signs = self.plan_signs(rng);
        let watermarks = self.plan_watermarks(rng, config);
        let plan = RenderPlan { text, signs, watermarks, number, hour, minute };
        proof {
            assert(plan.text@.len() == 15);
            assert(forall|i: int| 0 <= i < 14 ==> plan.text@[i] == t7[i]);
            assert(forall|i: int| 0 <= i < 9 ==> t7[i] == t6[i]);
            assert(forall|i: int| 0 <= i < 7 ==> t6[i] == t5[i]);
            assert(forall|i: int| 0 <= i < 6 ==> t5[i] == t4[i]);
            assert(forall|i: int| 0 <= i < 5 ==> t4[i] == t3[i]);
            assert(forall|i: int| 0 <= i < 3 ==> t3[i] == t2[i]);
            assert(forall|i: int| 0 <= i < 2 ==> t2[i] == t1[i]);
            assert((year as u64 as int) % 100 == (year as int) % 100 || !(1000 <= year <= 9999));
            assert(ysuffix@ == spec_year_text(year as int));
        }
        plan
    }

    /// As `plan_render`, with the year taken from the local clock, as one
    /// render request uses it.
    pub fn plan_render_now(
        &self,
        request: &GenerateRequest,
        rng: &mut rand::rngs::StdRng,
        config: &WatermarkConfig,
    ) -> (plan: RenderPlan)
        requires
            self.wf(),
            config.wf(),
        ensures
            plan.wf(),
            4096 <= plan.number < 262144,
            8 <= plan.hour < 19,
            plan.minute < 60,
            (plan.minute as int) % 5 == 0,
            exists|y: int| spec_plan_text_ok(plan, *request, y),
            plan.signs@.len() == spec_sign_positions().len(),
            forall|i: int|
                0 <= i < plan.signs@.len() ==> sign_placement_matches(
                    #[trigger] plan.signs@[i],
                    spec_sign_positions()[i],
                ),
            forall|i: int|
                0 <= i < plan.watermarks@.len() ==> watermark_ranges_ok(
                    #[trigger] plan.watermarks@[i],
                ),
            config.policy is Skip ==> plan.watermarks@.len() == 0,
            !(config.policy is Skip) ==> config.count_min <= plan.watermarks@.len() && (
            config.count_min < config.count_max ==> plan.watermarks@.len() < config.count_max) && (
            config.count_min == config.count_max ==> plan.watermarks@.len() == config.count_min),
    {
        let year = current_year();
        let plan = self.plan_render(request, year, rng, config);
        proof {
            assert(spec_plan_text_ok(plan, *request, year as int));
        }
        plan
    }
}

} // verus!
