//! A CPU-only software rendering pipeline for an immediate-mode UI.
//!
//! The pipeline turns a list of textured triangle meshes plus incremental
//! texture-atlas updates into a pixel framebuffer, without any GPU:
//! a texture cache ([`texture`]), a triangle rasterizer ([`raster`]),
//! a frame compositor ([`frame`]), a segment-based fallback font renderer
//! ([`glyph`]), a pixel surface the finished frame is handed to
//! ([`surface`]), and the state of the surrounding text editor ([`editor`]).

pub mod color;
pub mod editor;
pub mod frame;
pub mod glyph;
pub mod raster;
pub mod surface;
pub mod texture;
