//! A sparse pixel-overlay compositing engine, the scene rules of a small
//! real-time 2D game and the ready/frame handshake of its render pipeline.
//!
//! All quantities that the scene measures (positions, sizes, hit points,
//! magnitudes) and all scale factors and opacities are fixed-point integers
//! in thousandths or millionths of a unit, so every rule is exact.

pub mod canvas;
pub mod compose;
pub mod frame;
pub mod overlay;
pub mod pipeline;
pub mod scene;
