//! Data the platform audio service hands to and takes from the core.
//!
//! Enumerating devices, routing application streams and duplicating outputs
//! are the platform audio service's work; the core only carries its plain
//! descriptions of applications and output devices.

use vstd::prelude::*;

verus! {

/// An application that is currently emitting audio and can be routed.
#[derive(Debug, Clone)]
pub struct AudioApplication {
    /// Internal id of the audio stream (for example, the index of a
    /// sink input in PulseAudio).
    pub id: String,
    /// Friendly name of the application (e.g. "Discord", "Firefox").
    pub name: String,
    /// Process id (PID), when available.
    pub pid: Option<u32>,
    /// Unique application identifier (e.g. "com.discordapp.Discord").
    pub app_id: Option<String>,
}

/// A physical or virtual audio output device.
#[derive(Debug, Clone)]
pub struct AudioOutput {
    /// Internal device name (e.g. "alsa_output.pci-0000_00_1f.3.analog-stereo").
    pub name: String,
    /// Friendly description (e.g. "Built-in speakers").
    pub description: String,
    /// Whether this is currently the default device.
    pub is_default: bool,
}

} // verus!
