use docstamp::generator::{
    ImageGenerator, RenderPlan, WatermarkConfig, PlacementPolicy, TextPlacement,
};
use docstamp::glyph::GlyphMask;
use docstamp::models::{GenerateRequest, GenerateError};
use docstamp::raster::Raster;
use docstamp::rng::rng_from_seed;
use docstamp::imageio::{encode_png, decode_rgba};
use docstamp::trig::cos_fp;
use docstamp::trig::sin_fp;
use docstamp::watermark::rotated_overlay;
use docstamp::stamp::blit_overlay;

fn solid(w: u32, h: u32, p: [u8; 4]) -> Raster {
    let mut data = Vec::new();
    for _ in 0..(w * h) {
        data.extend_from_slice(&p);
    }
    Raster::from_raw(w, h, data).unwrap()
}

fn generator(tw: u32, th: u32) -> ImageGenerator {
    ImageGenerator {
        template: solid(tw, th, [255, 255, 255, 255]),
        sign: solid(40, 20, [0, 0, 0, 255]),
        watermark: solid(50, 50, [255, 0, 0, 128]),
    }
}

fn request() -> GenerateRequest {
    GenerateRequest {
        name: "Jane Doe".to_string(),
        address: "123 Main St".to_string(),
        issuer: "Acme Corp".to_string(),
    }
}

/// A deterministic stand-in rasterizer: every character becomes a fully
/// covered 6-pixel-wide box of the sampled size at an advancing offset.
fn rasterize(plan_text: &Vec<TextPlacement>) -> Vec<Vec<GlyphMask>> {
    let mut all = Vec::new();
    for p in plan_text {
        let x0 = p.x_milli / 1000;
        let y0 = p.y_milli / 1000;
        let hpx = (p.size_milli / 1000).max(1) as u32;
        let mut masks = Vec::new();
        for (i, _c) in p.text.chars().enumerate() {
            masks.push(GlyphMask {
                min_x: x0 + (i as i64) * 8,
                min_y: y0,
                width: 6,
                height: hpx,
                coverage: vec![255u8; (6 * hpx) as usize],
            });
        }
        all.push(masks);
    }
    all
}

fn avoid_overlap(lo: u32, hi: u32) -> WatermarkConfig {
    WatermarkConfig { policy: PlacementPolicy::AvoidOverlap, count_min: lo, count_max: hi }
}

fn render_with_seed(g: &ImageGenerator, seed: u64, config: &WatermarkConfig) -> (RenderPlan, Vec<u8>) {
    let mut rng = rng_from_seed(seed);
    let plan = g.plan_render(&request(), 2024, &mut rng, config);
    let masks = rasterize(&plan.text);
    let bytes = g.generate_image(&plan, &masks).unwrap();
    (plan, bytes)
}

#[test]
fn zero_rotation_reproduces_axis_aligned_blit() {
    // Even dimensions: the rotation center is on the pixel grid.
    let src = solid(4, 2, [10, 200, 30, 180]);
    let mut rotated = solid(9, 9, [250, 250, 250, 255]);
    let mut blitted = solid(9, 9, [250, 250, 250, 255]);
    rotated_overlay(&mut rotated, &src, 4, 4, cos_fp(0), sin_fp(0), 700);
    blit_overlay(&mut blitted, &src, 4 - 2, 4 - 1, 700);
    assert_eq!(rotated.data, blitted.data);
}

#[test]
fn placement_terminates_on_degenerate_safe_area() {
    // 10x10 template: the safe area is far below the margins, so every
    // candidate is forced through the retry fallback. It must still place
    // exactly the configured number of copies.
    let g = generator(10, 10);
    let mut rng = rng_from_seed(5);
    let placements = g.plan_watermarks(&mut rng, &avoid_overlap(3, 4));
    assert_eq!(placements.len(), 3);

    let none = g.plan_watermarks(&mut rng, &avoid_overlap(0, 0));
    assert_eq!(none.len(), 0);

    let unconstrained = WatermarkConfig {
        policy: PlacementPolicy::Unconstrained,
        count_min: 5,
        count_max: 5,
    };
    let five = g.plan_watermarks(&mut rng, &unconstrained);
    assert_eq!(five.len(), 5);
}

#[test]
fn identical_seeds_give_byte_identical_output() {
    let g = generator(300, 300);
    let (_, bytes1) = render_with_seed(&g, 42, &avoid_overlap(2, 5));
    let (_, bytes2) = render_with_seed(&g, 42, &avoid_overlap(2, 5));
    assert_eq!(bytes1, bytes2);
}

#[test]
fn different_seeds_give_different_output() {
    let g = generator(300, 300);
    let (_, bytes1) = render_with_seed(&g, 42, &avoid_overlap(2, 5));
    let (_, bytes3) = render_with_seed(&g, 43, &avoid_overlap(2, 5));
    assert_ne!(bytes1, bytes3);
}

#[test]
fn end_to_end_renders_all_fields_at_their_anchors() {
    let g = generator(1000, 1200);
    let (plan, bytes) = render_with_seed(&g, 7, &avoid_overlap(2, 5));
    let (w, h, data) = decode_rgba(&bytes).unwrap();
    assert_eq!((w, h), (1000, 1200));

    // The name, address and issuer all start inside the canvas; their first
    // glyph box must be ink-dominated (blue well above red) even under a
    // low-opacity red watermark.
    for idx in [0usize, 2, 3] {
        let p = &plan.text[idx];
        let x = (p.x_milli / 1000 + 1) as u32;
        let y = (p.y_milli / 1000 + 1) as u32;
        let base = ((y * w + x) * 4) as usize;
        let r = data[base];
        let b = data[base + 2];
        assert!(b > 100 && r < 100, "expected ink at entry {} ({}, {}): r={} b={}", idx, x, y, r, b);
    }

    // A corner pixel far from every anchor keeps the template's white
    // (modulo a possible translucent watermark pass).
    let base = ((2 * w + 997) * 4) as usize;
    assert!(data[base + 1] > 200, "expected near-white template background");
}

#[test]
fn overlong_issuer_is_clipped_not_an_error() {
    let g = generator(1000, 1200);
    let mut rng = rng_from_seed(9);
    let mut req = request();
    req.issuer = "W".repeat(100);
    let plan = g.plan_render(&req, 2024, &mut rng, &avoid_overlap(2, 5));
    let masks = rasterize(&plan.text);
    let bytes = g.generate_image(&plan, &masks).unwrap();
    let (w, h, _) = decode_rgba(&bytes).unwrap();
    assert_eq!((w, h), (1000, 1200));
}

#[test]
fn zero_watermark_copies_equal_skipped_stage() {
    let g = generator(200, 200);
    let (_, with_empty_range) = render_with_seed(&g, 11, &avoid_overlap(0, 0));
    let skip = WatermarkConfig { policy: PlacementPolicy::Skip, count_min: 0, count_max: 0 };
    let (_, with_skip) = render_with_seed(&g, 11, &skip);
    assert_eq!(with_empty_range, with_skip);
}

#[test]
fn png_round_trip_preserves_pixels() {
    let mut c = solid(3, 2, [0, 0, 0, 255]);
    c.put_pixel(0, 0, docstamp::pixel::Rgba { r: 1, g: 2, b: 3, a: 4 });
    c.put_pixel(2, 1, docstamp::pixel::Rgba { r: 250, g: 0, b: 128, a: 255 });
    let bytes = encode_png(&c).unwrap();
    assert_ne!(bytes, c.data);
    assert_eq!(&bytes[0..4], &[137u8, 80, 78, 71]);
    let (w, h, data) = decode_rgba(&bytes).unwrap();
    assert_eq!((w, h), (3, 2));
    assert_eq!(data, c.data);
}

#[test]
fn lanczos_resize_returns_requested_dimensions() {
    let src = solid(8, 8, [10, 20, 30, 255]);
    let out = docstamp::imageio::lanczos_resize(&src, 3, 5);
    assert_eq!(out.len(), 4 * 3 * 5);
    // Resampling a constant image yields the constant image.
    for px in out.chunks(4) {
        assert_eq!(px, &[10, 20, 30, 255]);
    }
}

#[test]
fn generator_new_decodes_assets_and_rejects_garbage() {
    let template = solid(30, 40, [9, 9, 9, 255]);
    let sign = solid(4, 4, [1, 1, 1, 255]);
    let wm = solid(5, 5, [2, 2, 2, 128]);
    let tb = encode_png(&template).unwrap();
    let sb = encode_png(&sign).unwrap();
    let wb = encode_png(&wm).unwrap();
    let g = ImageGenerator::new(&tb, &sb, &wb).unwrap();
    assert_eq!((g.template.width, g.template.height), (30, 40));
    assert_eq!(g.sign.data, sign.data);
    assert_eq!(g.watermark.data, wm.data);

    let garbage = vec![1u8, 2, 3, 4];
    match ImageGenerator::new(&garbage, &sb, &wb) {
        Err(GenerateError::InitializationError(m)) => {
            assert_eq!(m, "Failed to open template image");
        }
        _ => panic!("expected an initialization error"),
    }
}

#[test]
fn plan_records_sampled_values_in_ranges() {
    let g = generator(300, 300);
    let mut rng = rng_from_seed(123);
    let plan = g.plan_render(&request(), 2026, &mut rng, &avoid_overlap(2, 5));
    assert!(plan.number >= 4096 && plan.number < 262144);
    assert!(plan.hour >= 8 && plan.hour < 19);
    assert!(plan.minute < 60 && plan.minute % 5 == 0);
    assert_eq!(plan.text.len(), 15);
    assert_eq!(plan.text[0].text, "Jane Doe");
    assert_eq!(plan.text[2].text, "123 Main St");
    assert_eq!(plan.text[3].text, "Acme Corp");
    assert_eq!(plan.text[5].text, "Президент України");
    assert_eq!(plan.text[6].text, "Зеленський В. О.");
    // Name anchors: (255, 22) and (365, 975), jitter within [-2, 3) x [-2, 2).
    assert!(plan.text[0].x_milli >= 253000 && plan.text[0].x_milli < 258000);
    assert!(plan.text[0].y_milli >= 20000 && plan.text[0].y_milli < 24000);
    assert!(plan.text[1].x_milli >= 363000 && plan.text[1].x_milli < 368000);
    // Year suffix of 2026 at five anchors.
    assert_eq!(plan.text[9].text, "26");
    assert_eq!(plan.text[13].text, "26");
    // Time string matches the recorded hour and minute.
    let expected = format!("{:02}:{:02}", plan.hour, plan.minute);
    assert_eq!(plan.text[14].text, expected);
    // Number string matches the recorded number.
    assert_eq!(plan.text[7].text, plan.number.to_string());
    // Signature placement near its anchor.
    assert_eq!(plan.signs.len(), 1);
    assert!(plan.signs[0].x_milli >= 615000 && plan.signs[0].x_milli < 621000);
    assert!(plan.signs[0].scale_milli >= 65 && plan.signs[0].scale_milli < 80);
    // Watermarks: count in [2, 5), every sampled value in range, and every
    // safe-area placement at least the fixed margin plus the diagonal-derived
    // extra margin from the canvas edge.
    assert!(plan.watermarks.len() >= 2 && plan.watermarks.len() < 5);
    for p in &plan.watermarks {
        assert!(p.scale_milli >= 300 && p.scale_milli < 900);
        assert!(p.rotation_mdeg >= -40000 && p.rotation_mdeg < 40000);
        assert!(p.opacity_milli >= 40 && p.opacity_milli < 100);
        let ww = 50 * p.scale_milli;
        let diag_sq = (2 * ww * ww) as u64;
        let diag = (diag_sq as f64).sqrt() as i64;
        let extra_floor = (diag - 1) * 600 / 1000;
        assert!(p.x_milli >= 100000 + extra_floor);
        assert!(p.y_milli >= 100000 + extra_floor);
    }
}

#[test]
fn oversized_overlay_asset_is_rejected_at_startup() {
    let template = solid(30, 40, [9, 9, 9, 255]);
    let wide = solid(30001, 1, [1, 1, 1, 255]);
    let wm = solid(5, 5, [2, 2, 2, 128]);
    let tb = encode_png(&template).unwrap();
    let wide_b = encode_png(&wide).unwrap();
    let wb = encode_png(&wm).unwrap();
    match ImageGenerator::new(&tb, &wide_b, &wb) {
        Err(GenerateError::InitializationError(m)) => {
            assert_eq!(m, "Sign image is too large");
        }
        _ => panic!("expected an initialization error"),
    }
}

#[test]
fn zero_dimension_canvas_cannot_be_encoded() {
    // A 0x0 template is well-formed for the compositors (no pixels to
    // touch) but the PNG encoder rejects it; the render reports a
    // generation error rather than panicking.
    let g = ImageGenerator {
        template: Raster::from_raw(0, 0, Vec::new()).unwrap(),
        sign: solid(4, 4, [0, 0, 0, 255]),
        watermark: solid(4, 4, [0, 0, 0, 128]),
    };
    let mut rng = rng_from_seed(1);
    let plan = g.plan_render(&request(), 2024, &mut rng, &avoid_overlap(0, 0));
    let masks = rasterize(&plan.text);
    match g.generate_image(&plan, &masks) {
        Err(GenerateError::GenerationError(m)) => assert_eq!(m, "Failed to encode PNG"),
        _ => panic!("expected a generation error"),
    }
}
