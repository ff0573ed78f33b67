//! Core of a small real-time renderer: a vertex-layout engine, a geometry
//! interchange parser, a mesh packing pipeline, a glyph atlas builder and a
//! text layout engine.  Everything here is verified; the windowing loop and
//! the graphics-device adapter live outside this crate.

pub mod atlas;
pub mod fontscan;
pub mod gfx;
pub mod text;
pub mod pack;
pub mod scene;
