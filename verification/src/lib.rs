//! Glyph-atlas caching and text-quad layout for UI labels.
//!
//! Glyph bitmaps are packed once into a texture atlas that only ever grows;
//! labels are laid out against the packed rectangles every frame.

pub mod atlas;
pub mod font;
pub mod font_atlas;
pub mod registry;
pub mod label;
pub mod laws;
pub mod ecs;
