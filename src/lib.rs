//! Recolors a pixel grid so that every pixel is drawn from a fixed palette:
//! optional box averaging, optional pre-quantization, then nearest-color matching.

pub mod average;
pub mod color;
pub mod grid;
pub mod matcher;
pub mod palette;
pub mod pipeline;
pub mod quantize;
pub mod transform;
pub mod xresources;
