//! Application configuration records and decoded-message records.

use vstd::prelude::*;

use crate::clock::now_unix_millis;
use crate::commands::DemodMode;

verus! {

/// Top-level application configuration.
pub struct AppConfig {
    pub sdr: SdrConfig,
    pub ui: UiConfig,
    pub audio: AudioConfig,
}

impl Default for AppConfig {
    fn default() -> (r: Self)
        ensures
            r.sdr.frequency == crate::config::DEFAULT_FREQUENCY,
            r.sdr.sample_rate == crate::config::DEFAULT_SAMPLE_RATE,
            r.ui.fft_size == 2048,
            r.audio.sample_rate == 48_000,
    {
        AppConfig {
            sdr: SdrConfig::default(),
            ui: UiConfig::default(),
            audio: AudioConfig::default(),
        }
    }
}

/// Tuner device configuration.
pub struct SdrConfig {
    /// Center frequency in Hz.
    pub frequency: u32,
    /// Sample rate in Hz.
    pub sample_rate: u32,
    /// Tuner gain in tenths of dB; -1 selects automatic gain.
    pub tuner_gain: i32,
    /// Frequency correction in parts per million.
    pub ppm_error: i32,
    /// Which device to open, counting from 0.
    pub device_index: usize,
}

impl Default for SdrConfig {
    fn default() -> (r: Self)
        ensures
            r.frequency == crate::config::DEFAULT_FREQUENCY,
            r.sample_rate == crate::config::DEFAULT_SAMPLE_RATE,
            r.tuner_gain == crate::config::AUTO_GAIN,
            r.ppm_error == 0,
            r.device_index == 0,
    {
        SdrConfig {
            frequency: 144_390_000,
            sample_rate: 2_048_000,
            tuner_gain: -1,
            ppm_error: 0,
            device_index: 0,
        }
    }
}

impl SdrConfig {
    /// Accept the configuration exactly when its frequency is in the
    /// supported tuning range.
    pub fn validate(&self) -> (r: Result<(), crate::config::ConfigError>)
        ensures
            r is Ok <==> crate::config::MIN_FREQUENCY <= self.frequency
                <= crate::config::MAX_FREQUENCY,
    {
        match crate::config::validate_frequency(self.frequency) {
            Ok(()) => Ok(()),
            Err(e) => Err(e),
        }
    }
}

/// Interface configuration.
pub struct UiConfig {
    /// Number of bins in the spectrum display.
    pub fft_size: usize,
    /// Number of waterfall history rows to keep.
    pub waterfall_history: usize,
    /// Target frames per second for interface updates.
    pub fps: u32,
}

impl Default for UiConfig {
    fn default() -> (r: Self)
        ensures
            r.fft_size == 2048,
            r.waterfall_history == 500,
            r.fps == 30,
    {
        UiConfig { fft_size: 2048, waterfall_history: 500, fps: 30 }
    }
}

/// Audio output configuration.
pub struct AudioConfig {
    /// Audio sample rate in Hz.
    pub sample_rate: u32,
    /// Audio buffer size in samples.
    pub buffer_size: usize,
}

impl Default for AudioConfig {
    fn default() -> (r: Self)
        ensures
            r.sample_rate == 48_000,
            r.buffer_size == 4096,
    {
        AudioConfig { sample_rate: 48_000, buffer_size: 4096 }
    }
}

/// Identification of an opened tuner device.
pub struct DeviceInfo {
    pub manufacturer: String,
    pub product: String,
    pub serial: String,
}

/// A message decoded from a digital mode.
pub struct DecodedMessage {
    /// The mode the message was decoded under.
    pub mode: DemodMode,
    /// When the message was decoded, in milliseconds since the Unix epoch.
    pub timestamp: i64,
    /// The decoded text.
    pub content: String,
}

impl DecodedMessage {
    /// A new message stamped with the current wall-clock time.
    pub fn new(mode: DemodMode, content: String) -> (r: Self)
        ensures
            r.mode == mode,
            r.content == content,
    {
        DecodedMessage { mode, timestamp: now_unix_millis(), content }
    }
}

} // verus!
