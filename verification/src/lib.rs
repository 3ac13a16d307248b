//! Terminal line charts on a braille pixel canvas.
//!
//! A [`Chart`] owns a pixel canvas and turns a sampled function into a
//! line chart: it draws a border, widens its running y-range to cover the
//! new samples, places dotted guide lines where the axes fall, and joins
//! neighbouring samples with line segments.
//!
//! Sampled values travel through the engine as IEEE-754 single-precision
//! bit patterns (see [`sample`]); the caller evaluates the plotted
//! function and maps values to raw row indices, and the engine does the
//! rest: range accumulation, clamping, row inversion, and rasterization.

pub mod canvas;
pub mod chart;
pub mod sample;

pub use crate::chart::Chart;
