//! Document image compositor: overlays randomized text, a signature stamp and
//! rotated watermark copies onto a fixed raster template, then encodes the
//! result as a PNG byte stream.
//!
//! All geometry is carried in integer fixed point: pixel positions and scale
//! factors in thousandths (milli-units), trigonometric values in units of
//! 1/65536. Pixel data is an RGBA byte grid, and every compositing step is
//! specified pixel for pixel.

pub mod pixel;
pub mod raster;
pub mod models;
pub mod textfmt;
pub mod trig;
pub mod glyph;
pub mod stamp;
pub mod imageio;
pub mod rng;
pub mod watermark;
pub mod layout;
pub mod generator;
