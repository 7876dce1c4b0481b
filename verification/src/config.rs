//! Start-up configuration of the pipeline.

use vstd::prelude::*;

verus! {

/// Immutable snapshot of the sizes and rates the pipeline is started with.
pub struct WereSoCoolSpectrumConfig {
    /// Width of the pixel surface.
    pub width: u32,
    /// Height of the pixel surface.
    pub height: u32,
    /// Logical width of the window.
    pub logical_width: u32,
    /// Logical height of the window.
    pub logical_height: u32,
    /// Number of samples the spectral engine transforms at once.
    pub visual_buffer_size: usize,
    /// Number of frames in one audio block.
    pub audio_buffer_size: usize,
    /// Depth of the spectral engine's history ring.
    pub ring_buffer_size: usize,
    /// Divisor that turns the transform size into the number of bins shown.
    pub fft_div: usize,
    /// Sample rate in hertz.
    pub sample_rate: usize,
}

impl WereSoCoolSpectrumConfig {
    /// The default configuration for blocks of `buffer_size` frames.
    pub fn new(buffer_size: usize) -> (config: Self)
        ensures
            config.width == 2048,
            config.height == 1024,
            config.logical_width == 1024,
            config.logical_height == 1024,
            config.visual_buffer_size == 2048,
            config.audio_buffer_size == buffer_size,
            config.ring_buffer_size == 10,
            config.fft_div == 12,
            config.sample_rate == 48_000,
    {
        Self {
            width: 2048,
            height: 1024,
            logical_width: 1024,
            logical_height: 1024,
            visual_buffer_size: 2048,
            audio_buffer_size: buffer_size,
            ring_buffer_size: 10,
            fft_div: 12,
            sample_rate: 48_000,
        }
    }
}

} // verus!
