//! Rendering core of a small ray tracer: the pixel buffer and its
//! plain-text pixel-map serialization.

pub mod color;
pub mod decimal;
pub mod image;
