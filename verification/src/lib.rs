//! An escape-time fractal renderer: maps a pixel grid onto a square of the
//! complex plane, iterates a chosen complex map per pixel until divergence
//! or a step bound, and colors the resulting escape data through multi-stop
//! gradients, with an optional high-quality resize of the final image.
//!
//! All real-valued quantities are fixed-point numbers (see [`fp`]), so every
//! computation is exact integer arithmetic with a stated contract.

pub mod color;
pub mod definitions;
pub mod draw;
pub mod fp;
