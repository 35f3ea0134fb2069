//! A software-defined-radio receiver core: receiver state, control-command
//! handling, and a fixed-point signal-processing pipeline (spectral
//! transform, FM/AM/SSB demodulation, resampling), with machine-checked
//! contracts.
//!
//! Samples are carried as Q15 fixed-point integers: the real value `x` is
//! represented by the integer `x * 32768`, so the audio range [-1, 1] is
//! [-32768, 32768].

pub mod clock;
pub mod commands;
pub mod config;
pub mod control;
pub mod demod;
pub mod dspmath;
pub mod pipeline;
pub mod render;
pub mod resampler;
pub mod sample;
pub mod spectrum;
pub mod state;
pub mod types;

use vstd::prelude::*;

verus! {

/// The Q15 fixed-point scale: the integer 32768 stands for the real value 1.0.
pub const AUDIO_SCALE: i32 = 32768;

/// Clamp a raw audio value to the legal audio range [-AUDIO_SCALE, AUDIO_SCALE]
/// (that is, [-1.0, 1.0]); every demodulated sample is clamped before it is
/// handed to any sink.
pub fn clamp_audio(x: i64) -> (r: i32)
    ensures
        r == spec_clamp_audio(x as int),
{
    if x < -32768 {
        -32768
    } else if x > 32768 {
        32768
    } else {
        x as i32
    }
}

/// What `clamp_audio` returns: `x` held to [-32768, 32768].
pub open spec fn spec_clamp_audio(x: int) -> int {
    if x < -32768 {
        -32768int
    } else if x > 32768 {
        32768int
    } else {
        x
    }
}

} // verus!
