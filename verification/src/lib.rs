//! A tile/terminal-style rendering layer: a grid of glyphs organised into a
//! tree of panels, flattened each frame into a layer-ordered draw list.

pub mod app;
pub mod color;
pub mod error;
pub mod geometry;
pub mod glyph;
pub mod input;
pub mod layers;
pub mod metadata;
pub mod panel;
pub mod render;
pub mod rows;
pub mod sprite;
pub mod terminal;
