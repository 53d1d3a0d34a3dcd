//! Glyph vectorization and geometry caching.
//!
//! A rasterized glyph (a coverage bitmap) is turned into closed polygon
//! contours: boundary pixels are picked out by a neighborhood rule and then
//! grouped by a greedy walk. The contours are laid out as path commands for a
//! fill tessellator, and the resulting triangle meshes are cached per
//! character and resolution.
//!
//! - [`raster`]: coverage bitmaps.
//! - [`edge`]: the boundary pixels of a bitmap.
//! - [`contour`]: the walk that groups boundary pixels into contours.
//! - [`path`]: contours as closed paths, and the whole way from bitmap to path.
//! - [`geometry`]: triangle meshes.
//! - [`font`]: glyph caches and the fonts they belong to.
//! - [`error`]: errors.
//! - [`unicode`]: decoding characters and finding line breaks.

pub mod raster;
pub mod edge;
pub mod contour;
pub mod path;
pub mod geometry;
pub mod error;
pub mod font;
pub mod unicode;
