//! The control path: turning a received [`Command`] into a clamped hardware
//! request and, on success, mirroring the applied value into the shared
//! receiver state.
//!
//! The caller owns the hardware collaborator: it asks [`device_request`] what
//! to do, performs the (fallible) hardware call itself, and on success calls
//! [`confirm_device_action`]; on failure the state is left untouched.
//! Commands that touch no hardware are applied directly by
//! [`apply_state_command`].

use vstd::prelude::*;

use crate::commands::Command;
use crate::config::{
    spec_clamp_u32, clamp_frequency, clamp_sample_rate, MAX_FREQUENCY, MAX_SAMPLE_RATE,
    MIN_FREQUENCY, MIN_SAMPLE_RATE,
};
use crate::state::{AppState, SdrState};

verus! {

/// A configuration call the acquisition stage must make against the hardware
/// collaborator. Every frequency and sample rate carried here is already
/// clamped to the hardware-valid range.
#[derive(Debug, Clone, Copy, PartialEq, Eq, Structural)]
pub enum DeviceAction {
    SetFrequency(u32),
    SetSampleRate(u32),
    SetGain(i32),
    EnableAgc,
    DisableAgc,
    SetPpm(i32),
}

/// The frequency a command asks for, relative to the current frequency,
/// saturated at the ends of the `u32` range and clamped to the hardware
/// range. A negative step in `IncreaseFrequency` wraps exactly as the `u32`
/// cast of the step does.
pub open spec fn spec_requested_frequency(current: u32, cmd: Command) -> u32
    recommends matches!(cmd, Command::SetFrequency(_) | Command::IncreaseFrequency(_) | Command::DecreaseFrequency(_)),
{
    match cmd {
        Command::SetFrequency(f) => spec_clamp_u32(f, MIN_FREQUENCY, MAX_FREQUENCY),
        Command::IncreaseFrequency(d) => {
            let sum = current + (d as u32);
            let sat = if sum > u32::MAX { u32::MAX } else { sum as u32 };
            spec_clamp_u32(sat, MIN_FREQUENCY, MAX_FREQUENCY)
        },
        Command::DecreaseFrequency(d) => {
            let sat = if current >= (d as u32) { (current - (d as u32)) as u32 } else { 0u32 };
            spec_clamp_u32(sat, MIN_FREQUENCY, MAX_FREQUENCY)
        },
        _ => 0u32,
    }
}

/// The hardware request a command calls for, given the current frequency, or
/// `None` for commands that touch no hardware. Every frequency or sample
/// rate in the request is clamped into the hardware-valid range, never the
/// raw out-of-range value.
pub fn device_request(current_frequency: u32, cmd: &Command) -> (r: Option<DeviceAction>)
    ensures
        match cmd {
            Command::SetFrequency(_) | Command::IncreaseFrequency(_)
                | Command::DecreaseFrequency(_) => r == Some(DeviceAction::SetFrequency(
                spec_requested_frequency(current_frequency, *cmd),
            )),
            Command::SetSampleRate(rate) => r == Some(DeviceAction::SetSampleRate(
                spec_clamp_u32(*rate, MIN_SAMPLE_RATE, MAX_SAMPLE_RATE),
            )),
            Command::SetTunerGain(g) => r == Some(DeviceAction::SetGain(*g)),
            Command::SetAutoGain(auto) => r == if *auto {
                Some(DeviceAction::EnableAgc)
            } else {
                Some(DeviceAction::DisableAgc)
            },
            Command::SetPpmError(p) => r == Some(DeviceAction::SetPpm(*p)),
            _ => r is None,
        },
        r matches Some(DeviceAction::SetFrequency(f)) ==> MIN_FREQUENCY <= f <= MAX_FREQUENCY,
        r matches Some(DeviceAction::SetSampleRate(s)) ==> MIN_SAMPLE_RATE <= s
            <= MAX_SAMPLE_RATE,
{
    match cmd {
        Command::SetFrequency(f) => Some(DeviceAction::SetFrequency(clamp_frequency(*f))),
        Command::IncreaseFrequency(d) => {
            let step = *d as u32;
            let raised = current_frequency.saturating_add(step);
            Some(DeviceAction::SetFrequency(clamp_frequency(raised)))
        },
        Command::DecreaseFrequency(d) => {
            let step = *d as u32;
            let lowered = current_frequency.saturating_sub(step);
            Some(DeviceAction::SetFrequency(clamp_frequency(lowered)))
        },
        Command::SetSampleRate(rate) => Some(DeviceAction::SetSampleRate(clamp_sample_rate(*rate))),
        Command::SetTunerGain(g) => Some(DeviceAction::SetGain(*g)),
        Command::SetAutoGain(auto) => {
            if *auto {
                Some(DeviceAction::EnableAgc)
            } else {
                Some(DeviceAction::DisableAgc)
            }
        },
        Command::SetPpmError(p) => Some(DeviceAction::SetPpm(*p)),
        Command::SetMode(_) => None,
        Command::StartRecording(_) => None,
        Command::StopRecording => None,
        Command::Quit => None,
    }
}

/// The device state after a hardware request has been accepted: only the
/// fields the action names change.
pub open spec fn spec_confirmed(sdr: SdrState, action: DeviceAction) -> SdrState {
    match action {
        DeviceAction::SetFrequency(f) => SdrState { frequency: f, ..sdr },
        DeviceAction::SetSampleRate(s) => SdrState { sample_rate: s, ..sdr },
        DeviceAction::SetGain(g) => SdrState { tuner_gain: g, auto_gain: false, ..sdr },
        DeviceAction::EnableAgc => SdrState { tuner_gain: -1i32, auto_gain: true, ..sdr },
        DeviceAction::DisableAgc => SdrState { auto_gain: false, ..sdr },
        DeviceAction::SetPpm(p) => SdrState { ppm_error: p, ..sdr },
    }
}

/// Mirror a hardware request that the device accepted into the device state.
/// Only the fields the action names change; everything else keeps its value.
pub fn confirm_device_action(sdr: &mut SdrState, action: &DeviceAction)
    ensures
        *final(sdr) == spec_confirmed(*old(sdr), *action),
{
    match action {
        DeviceAction::SetFrequency(f) => {
            sdr.frequency = *f;
        },
        DeviceAction::SetSampleRate(s) => {
            sdr.sample_rate = *s;
        },
        DeviceAction::SetGain(g) => {
            sdr.tuner_gain = *g;
            sdr.auto_gain = false;
        },
        DeviceAction::EnableAgc => {
            sdr.tuner_gain = -1;
            sdr.auto_gain = true;
        },
        DeviceAction::DisableAgc => {
            sdr.auto_gain = false;
        },
        DeviceAction::SetPpm(p) => {
            sdr.ppm_error = *p;
        },
    }
}

/// Apply a command that touches no hardware: mode changes, recording
/// start/stop, and quit. Returns true when the command asked the receiver to
/// shut down. Commands that need the hardware leave the state unchanged
/// here; they go through [`device_request`] instead.
pub fn apply_state_command(state: &mut AppState, cmd: &Command) -> (quit: bool)
    ensures
        quit <==> *cmd is Quit,
        !matches!(cmd, Command::SetMode(_) | Command::StartRecording(_) | Command::StopRecording
            | Command::Quit) ==> *final(state) == *old(state),
        cmd matches Command::SetMode(m) ==> final(state).decoder.mode == m
            && final(state).decoder.messages == old(state).decoder.messages,
        *cmd is StopRecording ==> final(state).recording.is_recording == false,
        cmd matches Command::StartRecording(p) ==> final(state).recording.is_recording == true
            && final(state).recording.file_path == Some(*p)
            && final(state).recording.samples_recorded == 0,
        *cmd is Quit ==> final(state).ui.should_quit == true,
        final(state).sdr == old(state).sdr,
        final(state).spectrum == old(state).spectrum,
{
    match cmd {
        Command::SetMode(m) => {
            state.decoder.mode = *m;
            false
        },
        Command::StartRecording(path) => {
            state.recording.start(path.clone());
            false
        },
        Command::StopRecording => {
            state.recording.stop();
            false
        },
        Command::Quit => {
            state.ui.should_quit = true;
            true
        },
        _ => false,
    }
}

/// Hardware requests are idempotent: mirroring the same accepted action a
/// second time leaves the device state exactly as after the first.
pub proof fn lemma_confirm_idempotent(sdr: SdrState, action: DeviceAction)
    ensures
        spec_confirmed(spec_confirmed(sdr, action), action) == spec_confirmed(sdr, action),
{
}

/// The frequency that reaches the hardware is always inside the supported
/// range, whatever frequency the command carried; a request already in range
/// is applied unchanged.
pub proof fn lemma_frequency_request_clamped(current: u32, cmd: Command)
    requires
        matches!(cmd, Command::SetFrequency(_) | Command::IncreaseFrequency(_) | Command::DecreaseFrequency(_)),
    ensures
        MIN_FREQUENCY <= spec_requested_frequency(current, cmd) <= MAX_FREQUENCY,
        cmd matches Command::SetFrequency(f) ==> (MIN_FREQUENCY <= f <= MAX_FREQUENCY
            ==> spec_requested_frequency(current, cmd) == f),
{
}

} // verus!
