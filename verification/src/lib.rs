//! Raster-editing core of a paint program: a pixel buffer with bounds-checked
//! access, per-pixel change records that can be replayed in both directions,
//! the byte-level plan for mirroring a region of the buffer into a
//! presentation texture, and the layout of the canvas inside a viewport.

pub mod canvas;
pub mod color;
pub mod diff;
pub mod point;
pub mod render;
pub mod surface;
