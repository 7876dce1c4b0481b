//! Scheduling and visual-mapping core of a real-time spectrum visualizer.
//!
//! Audio blocks flow from a sample source through a playback adapter into a
//! spectral engine; the newest magnitudes are windowed, mapped onto a grid of
//! glowing cells and rasterised as RGBA bytes.

pub mod audio;
pub mod config;
pub mod fft_handler;
pub mod graph_handler;
pub mod grid;

pub use crate::config::WereSoCoolSpectrumConfig;
