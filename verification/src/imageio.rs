use vstd::prelude::*;
use crate::raster::Raster;

verus! {

/// The bytes of the Lanczos3 resampling of an RGBA raster to the given
/// dimensions, as `image::imageops::resize` computes them: a deterministic
/// function of the source bytes and the four dimensions.
pub uninterp spec fn lanczos_resized(data: Seq<u8>, w: int, h: int, nw: int, nh: int) -> Seq<u8>;

/// The PNG encoding of an RGBA byte grid, as the `image` crate's PNG encoder
/// writes it: a deterministic function of the bytes and dimensions.
pub uninterp spec fn png_encoded(data: Seq<u8>, w: int, h: int) -> Seq<u8>;

/// What decoding a byte stream as an RGBA8 image yields, as
/// `image::load_from_memory` followed by `DynamicImage::to_rgba8` computes
/// it: `None` when the bytes are not a decodable image, else the width, the
/// height and the RGBA bytes — a deterministic function of the input bytes
/// alone.
pub uninterp spec fn rgba_decode(bytes: Seq<u8>) -> Option<(int, int, Seq<u8>)>;

/// Relies on `image::load_from_memory` and `DynamicImage::to_rgba8`: the
/// call succeeds exactly on decodable images, its result is a function of
/// the bytes alone, named `rgba_decode`, and the RGBA8 buffer it yields
/// holds exactly `4 * width * height` bytes (an `ImageBuffer` invariant).
#[verifier::external_body]
pub fn decode_rgba(bytes: &Vec<u8>) -> (r: Result<(u32, u32, Vec<u8>), ()>)
    ensures
        r is Ok <==> rgba_decode(bytes@) is Some,
        r matches Ok(t) ==> rgba_decode(bytes@) == Some((t.0 as int, t.1 as int, t.2@)) && t.2@.len()
            == 4 * (t.0 as int * t.1 as int),
{
    match image::load_from_memory(bytes) {
        Ok(img) => {
            let rgba = img.to_rgba8();
            Ok((rgba.width(), rgba.height(), rgba.into_raw()))
        },
        Err(_) => Err(()),
    }
}

/// Relies on `image::imageops::resize` with the Lanczos3 filter: the result
/// has exactly the requested dimensions (every output pixel is produced by
/// the resampling loops), and its bytes are a function of the inputs alone,
/// named `lanczos_resized`. The dimension bound keeps the output buffer
/// within address range.
#[verifier::external_body]
pub fn lanczos_resize(src: &Raster, nw: u32, nh: u32) -> (r: Vec<u8>)
    requires
        src.wf(),
        nw <= 30000,
        nh <= 30000,
    ensures
        r@ == lanczos_resized(src.data@, src.width as int, src.height as int, nw as int, nh as int),
        r@.len() == 4 * (nw as int * nh as int),
{
    let img: image::RgbaImage = image::RgbaImage::from_raw(
        src.width,
        src.height,
        src.data.clone(),
    ).unwrap();
    let resized = image::imageops::resize(&img, nw, nh, image::imageops::FilterType::Lanczos3);
    resized.into_raw()
}

/// Relies on `image::codecs::png::PngEncoder::write_image` into a `Vec`
/// sink: on success the bytes written are the PNG encoding of the buffer, a
/// deterministic function of buffer and dimensions, named `png_encoded`.
/// With a length-correct RGBA8 buffer (which `c.wf()` gives, and which also
/// rules out the encoder's buffer-length assertion) and an infallible `Vec`
/// sink, the png crate's only error paths are its zero-width and zero-height
/// checks, so the call succeeds exactly when both dimensions are non-zero.
#[verifier::external_body]
pub fn encode_png(c: &Raster) -> (r: Result<Vec<u8>, ()>)
    requires
        c.wf(),
    ensures
        c.width > 0 && c.height > 0 ==> r is Ok,
        r matches Ok(b) ==> c.width > 0 && c.height > 0 && b@ == png_encoded(
            c.data@,
            c.width as int,
            c.height as int,
        ),
{
    let mut bytes: Vec<u8> = Vec::new();
    let encoder = image::codecs::png::PngEncoder::new(&mut bytes);
    match image::ImageEncoder::write_image(
        encoder,
        &c.data,
        c.width,
        c.height,
        image::ExtendedColorType::Rgba8,
    ) {
        Ok(()) => Ok(bytes),
        Err(_) => Err(()),
    }
}

} // verus!
