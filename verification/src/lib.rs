//! A minimal software rasterizer over an in-memory RGBA8 surface.
//!
//! The surface owns a flat byte buffer (4 bytes per pixel, row major) and
//! exposes drawing primitives — clearing, filled rectangles, antialiased
//! filled circles, gradient-shaded ovals and glyph-based text — that
//! composite coverage-scaled colors onto the buffer with the source-over
//! alpha blending rule.
//!
//! All geometry is taken in fixed-point coordinates with 8 subpixel units
//! per pixel, so that coverage sampling, gradient evaluation and blending
//! are exact integer computations with precise contracts.

pub mod blend;
pub mod codec;
pub mod color;
pub mod font;
pub mod laws;
pub mod sample;
pub mod shader;
pub mod sqrt;
pub mod surface;
pub mod text;
