//! Glyph-atlas layout, font selection and frame decisions for a small
//! GPU text-rendering showcase, with their contracts proved by Verus.

pub mod atlas;
pub mod font;
pub mod raster;
pub mod demo;
pub mod window;
pub mod charset;
