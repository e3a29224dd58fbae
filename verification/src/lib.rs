//! A minimal software rasterizer: a byte-buffer canvas with alpha-blended
//! pixel compositing, shape drawing (rectangle, line, circle), image
//! blitting with a color tint, and glyph-based text layout and rendering.
//!
//! Every drawing operation bottoms out in [`Canvas::set`], which composites
//! a color onto one pixel. Colors carry their channels as 8-bit values in
//! `0..=255`; the blend rule is the linear "over" operator on the color
//! channels and an unclamped additive accumulation on the alpha channel.

mod blit;
mod canvas;
mod color;
mod pixel_buffer;
mod shape;
mod text_canvas;

pub use blit::Blit;
pub use blit::BlitSampler;
pub use canvas::clear_by_set;
pub use canvas::Canvas;
pub use color::Color;
pub use pixel_buffer::PixelBuffer;
pub use shape::Shape;
pub use text_canvas::layout_paragraph;
pub use text_canvas::CoverPixel;
pub use text_canvas::Glyph;
pub use text_canvas::GlyphMetric;
pub use text_canvas::GlyphOutline;
pub use text_canvas::KernPair;
pub use text_canvas::ScaledFont;
pub use text_canvas::TextCanvas;
