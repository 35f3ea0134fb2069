//! Control messages sent from the user interface to the receiver, and the
//! set of demodulation modes.

use vstd::prelude::*;

verus! {

/// A control message. Commands are idempotent under re-application, and any
/// frequency or sample rate they carry is clamped to the hardware-valid
/// range before it is applied.
#[derive(Debug, Clone, PartialEq)]
pub enum Command {
    SetFrequency(u32),
    IncreaseFrequency(i32),
    DecreaseFrequency(i32),
    SetSampleRate(u32),
    SetTunerGain(i32),
    SetAutoGain(bool),
    SetPpmError(i32),
    SetMode(DemodMode),
    StartRecording(String),
    StopRecording,
    Quit,
}

/// The demodulation modes the receiver supports.
#[derive(Debug, Clone, Copy, PartialEq, Eq, Structural)]
pub enum DemodMode {
    /// Raw IQ samples, no demodulation.
    Raw,
    /// Narrowband frequency modulation.
    FmNarrow,
    /// Wideband frequency modulation.
    FmWide,
    /// Amplitude modulation.
    Am,
    /// Single sideband, upper.
    Usb,
    /// Single sideband, lower.
    Lsb,
    /// Packet reporting decode (demodulated as narrowband FM).
    Aprs,
    /// Aircraft transponder decode.
    Adsb,
}

impl DemodMode {
    /// The human-readable name of the mode.
    pub fn name(&self) -> (r: &'static str)
        ensures
            *self is Raw ==> r@ == "RAW"@,
            *self is FmNarrow ==> r@ == "FM-NFM"@,
            *self is FmWide ==> r@ == "FM-WFM"@,
            *self is Am ==> r@ == "AM"@,
            *self is Usb ==> r@ == "USB"@,
            *self is Lsb ==> r@ == "LSB"@,
            *self is Aprs ==> r@ == "APRS"@,
            *self is Adsb ==> r@ == "ADS-B"@,
    {
        match self {
            DemodMode::Raw => "RAW",
            DemodMode::FmNarrow => "FM-NFM",
            DemodMode::FmWide => "FM-WFM",
            DemodMode::Am => "AM",
            DemodMode::Usb => "USB",
            DemodMode::Lsb => "LSB",
            DemodMode::Aprs => "APRS",
            DemodMode::Adsb => "ADS-B",
        }
    }

    /// Every mode, in the order the interface cycles through them.
    pub fn all() -> (r: Vec<DemodMode>)
        ensures
            r@ == seq![
                DemodMode::Raw, DemodMode::FmNarrow, DemodMode::FmWide, DemodMode::Am,
                DemodMode::Usb, DemodMode::Lsb, DemodMode::Aprs, DemodMode::Adsb,
            ],
    {
        let mut v: Vec<DemodMode> = Vec::new();
        v.push(DemodMode::Raw);
        v.push(DemodMode::FmNarrow);
        v.push(DemodMode::FmWide);
        v.push(DemodMode::Am);
        v.push(DemodMode::Usb);
        v.push(DemodMode::Lsb);
        v.push(DemodMode::Aprs);
        v.push(DemodMode::Adsb);
        proof {
            assert(v@ =~= seq![
                DemodMode::Raw, DemodMode::FmNarrow, DemodMode::FmWide, DemodMode::Am,
                DemodMode::Usb, DemodMode::Lsb, DemodMode::Aprs, DemodMode::Adsb,
            ]);
        }
        v
    }
}

impl Default for DemodMode {
    /// The mode the receiver starts in.
    fn default() -> (r: Self)
        ensures
            r == DemodMode::FmNarrow,
    {
        DemodMode::FmNarrow
    }
}

} // verus!
