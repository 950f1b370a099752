//! In-memory transport and transform pipeline for audio samples.
//!
//! The crate moves sample blocks between a producer and a consumer through
//! bounded ring buffers, and converts blocks between sample rates and encoded
//! byte formats. Every operation is non-blocking: short writes and short reads
//! are reported through return counts, never through errors.

pub mod audio;
pub mod buffer;
pub mod platform;

pub use crate::audio::AudioProcessor;
pub use crate::audio::Resampler;
pub use crate::buffer::{BufferStats, RingBuffer, TripleRingBuffer};
pub use crate::platform::{AudioApplication, AudioOutput};

use vstd::prelude::*;

verus! {

/// Error taxonomy for cable operations.
///
/// Buffer truncation and starvation are not errors; they are reported through
/// return counts. The variants exist for the surrounding device and session
/// layer, which maps platform failures into them.
#[derive(Debug)]
pub enum Error {
    /// A buffer-level failure.
    BufferError(String),
    /// An audio-processing failure.
    AudioError(String),
    /// A failure in the platform audio service.
    PlatformError(String),
    /// An I/O failure, described as text.
    IoError(String),
    /// A generic fallback.
    Other(String),
}

/// Audio sample encodings, all little-endian.
#[derive(Debug, Clone, Copy, PartialEq, Eq, Structural)]
pub enum AudioFormat {
    /// 32-bit IEEE-754 floating point, little-endian.
    F32LE,
    /// 16-bit signed integer, little-endian.
    S16LE,
    /// 24-bit signed integer, little-endian (low three bytes of a 32-bit value).
    S24LE,
    /// 32-bit signed integer, little-endian.
    S32LE,
}

impl AudioFormat {
    /// Width of one encoded sample in bytes.
    pub open spec fn bytes_per_sample_spec(self) -> usize {
        match self {
            AudioFormat::F32LE => 4,
            AudioFormat::S16LE => 2,
            AudioFormat::S24LE => 3,
            AudioFormat::S32LE => 4,
        }
    }

    /// Returns the number of bytes per sample for this format.
    pub fn bytes_per_sample(&self) -> (r: usize)
        ensures
            r == self.bytes_per_sample_spec(),
    {
        match self {
            AudioFormat::F32LE => 4,
            AudioFormat::S16LE => 2,
            AudioFormat::S24LE => 3,
            AudioFormat::S32LE => 4,
        }
    }

    /// Returns a human-readable name for the format.
    pub fn name(&self) -> (r: &'static str)
        ensures
            self is F32LE ==> r@ == "F32LE"@,
            self is S16LE ==> r@ == "S16LE"@,
            self is S24LE ==> r@ == "S24LE"@,
            self is S32LE ==> r@ == "S32LE"@,
    {
        match self {
            AudioFormat::F32LE => "F32LE",
            AudioFormat::S16LE => "S16LE",
            AudioFormat::S24LE => "S24LE",
            AudioFormat::S32LE => "S32LE",
        }
    }
}

/// Configuration for one virtual cable.
#[derive(Debug, Clone)]
pub struct CableConfig {
    /// Sample rate in Hz (e.g. 44100, 48000, 96000).
    pub sample_rate: u32,
    /// Number of channels (1 = mono, 2 = stereo).
    pub channels: u16,
    /// Buffer size in samples (typically 256-4096).
    pub buffer_size: usize,
    /// Sample encoding.
    pub format: AudioFormat,
    /// Device name for the virtual cable.
    pub device_name: String,
}

impl Default for CableConfig {
    /// The stereo 48 kHz float configuration.
    fn default() -> (r: Self)
        ensures
            r.sample_rate == 48000,
            r.channels == 2,
            r.buffer_size == 1024,
            r.format == AudioFormat::F32LE,
            r.device_name@ == "Virtual Audio Cable"@,
    {
        CableConfig {
            sample_rate: 48000,
            channels: 2,
            buffer_size: 1024,
            format: AudioFormat::F32LE,
            device_name: "Virtual Audio Cable".to_owned(),
        }
    }
}

} // verus!
