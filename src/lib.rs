//! The frame logic of a small 2D renderer: the geometry table, the texture
//! registry, the per-frame draw-command buffer with its z-ordered instance
//! upload and draw-call plan, glyph atlas packing, and texture data
//! preparation. The GPU, the window and floating-point math stay with the
//! caller, which supplies the transform, color and bind-group values that
//! this library carries through unchanged.
pub mod command;
pub mod mesh;
pub mod renderer;
pub mod text;
pub mod texture;
