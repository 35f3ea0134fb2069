//! Hardware configuration limits, defaults, and validation for the tuner.

use vstd::prelude::*;

verus! {

/// Lowest center frequency the tuner supports (24 MHz).
pub const MIN_FREQUENCY: u32 = 24_000_000;

/// Highest center frequency the tuner supports (1.766 GHz).
pub const MAX_FREQUENCY: u32 = 1_766_000_000;

/// Lowest supported sample rate (225 kHz).
pub const MIN_SAMPLE_RATE: u32 = 225_000;

/// Highest supported sample rate (3.2 MHz).
pub const MAX_SAMPLE_RATE: u32 = 3_200_000;

/// Default center frequency (144.390 MHz).
pub const DEFAULT_FREQUENCY: u32 = 144_390_000;

/// Default sample rate (2.048 MHz).
pub const DEFAULT_SAMPLE_RATE: u32 = 2_048_000;

/// Gain value that selects automatic gain control.
pub const AUTO_GAIN: i32 = -1;

/// Why a requested tuner setting was rejected.
#[derive(Debug, Clone, Copy, PartialEq, Eq, Structural)]
pub enum ConfigError {
    FrequencyTooLow,
    FrequencyTooHigh,
    SampleRateTooLow,
    SampleRateTooHigh,
}

impl ConfigError {
    /// A human-readable description of the rejection.
    pub fn message(&self) -> (r: &'static str)
        ensures
            *self is FrequencyTooLow ==> r@ == "frequency is below the supported minimum"@,
            *self is FrequencyTooHigh ==> r@ == "frequency is above the supported maximum"@,
            *self is SampleRateTooLow ==> r@ == "sample rate is below the supported minimum"@,
            *self is SampleRateTooHigh ==> r@ == "sample rate is above the supported maximum"@,
    {
        match self {
            ConfigError::FrequencyTooLow => "frequency is below the supported minimum",
            ConfigError::FrequencyTooHigh => "frequency is above the supported maximum",
            ConfigError::SampleRateTooLow => "sample rate is below the supported minimum",
            ConfigError::SampleRateTooHigh => "sample rate is above the supported maximum",
        }
    }
}

/// Accept a frequency exactly when it lies in the supported range.
pub fn validate_frequency(freq: u32) -> (r: Result<(), ConfigError>)
    ensures
        r is Ok <==> MIN_FREQUENCY <= freq <= MAX_FREQUENCY,
        freq < MIN_FREQUENCY ==> r == Result::<(), ConfigError>::Err(ConfigError::FrequencyTooLow),
        freq > MAX_FREQUENCY ==> r == Result::<(), ConfigError>::Err(ConfigError::FrequencyTooHigh),
{
    if freq < MIN_FREQUENCY {
        Err(ConfigError::FrequencyTooLow)
    } else if freq > MAX_FREQUENCY {
        Err(ConfigError::FrequencyTooHigh)
    } else {
        Ok(())
    }
}

/// Accept a sample rate exactly when it lies in the supported range.
pub fn validate_sample_rate(rate: u32) -> (r: Result<(), ConfigError>)
    ensures
        r is Ok <==> MIN_SAMPLE_RATE <= rate <= MAX_SAMPLE_RATE,
        rate < MIN_SAMPLE_RATE ==> r == Result::<(), ConfigError>::Err(ConfigError::SampleRateTooLow),
        rate > MAX_SAMPLE_RATE ==> r == Result::<(), ConfigError>::Err(ConfigError::SampleRateTooHigh),
{
    if rate < MIN_SAMPLE_RATE {
        Err(ConfigError::SampleRateTooLow)
    } else if rate > MAX_SAMPLE_RATE {
        Err(ConfigError::SampleRateTooHigh)
    } else {
        Ok(())
    }
}

/// `v` held to the closed range [`lo`, `hi`].
pub open spec fn spec_clamp_u32(v: u32, lo: u32, hi: u32) -> u32 {
    if v < lo {
        lo
    } else if v > hi {
        hi
    } else {
        v
    }
}

/// Clamp a requested frequency into the supported range; out-of-range
/// requests are never applied raw.
pub fn clamp_frequency(freq: u32) -> (r: u32)
    ensures
        r == spec_clamp_u32(freq, MIN_FREQUENCY, MAX_FREQUENCY),
        MIN_FREQUENCY <= r <= MAX_FREQUENCY,
{
    if freq < MIN_FREQUENCY {
        MIN_FREQUENCY
    } else if freq > MAX_FREQUENCY {
        MAX_FREQUENCY
    } else {
        freq
    }
}

/// Clamp a requested sample rate into the supported range.
pub fn clamp_sample_rate(rate: u32) -> (r: u32)
    ensures
        r == spec_clamp_u32(rate, MIN_SAMPLE_RATE, MAX_SAMPLE_RATE),
        MIN_SAMPLE_RATE <= r <= MAX_SAMPLE_RATE,
{
    if rate < MIN_SAMPLE_RATE {
        MIN_SAMPLE_RATE
    } else if rate > MAX_SAMPLE_RATE {
        MAX_SAMPLE_RATE
    } else {
        rate
    }
}

/// The sample rates the tuner hardware handles well.
pub fn common_sample_rates() -> (r: Vec<u32>)
    ensures
        r@ == seq![
            225_000u32, 900_000u32, 1_024_000u32, 1_400_000u32, 1_800_000u32, 1_920_000u32,
            2_048_000u32, 2_400_000u32, 2_560_000u32, 2_800_000u32, 3_200_000u32,
        ],
{
    let mut v: Vec<u32> = Vec::new();
    v.push(225_000);
    v.push(900_000);
    v.push(1_024_000);
    v.push(1_400_000);
    v.push(1_800_000);
    v.push(1_920_000);
    v.push(2_048_000);
    v.push(2_400_000);
    v.push(2_560_000);
    v.push(2_800_000);
    v.push(3_200_000);
    proof {
        assert(v@ =~= seq![
            225_000u32, 900_000u32, 1_024_000u32, 1_400_000u32, 1_800_000u32, 1_920_000u32,
            2_048_000u32, 2_400_000u32, 2_560_000u32, 2_800_000u32, 3_200_000u32,
        ]);
    }
    v
}

/// A named frequency worth tuning to, with its usual decode mode.
pub struct FrequencyPreset {
    pub name: &'static str,
    pub frequency: u32,
    pub mode: &'static str,
}

/// The built-in frequency presets, exactly these seven; every preset
/// frequency is in the supported tuning range.
pub fn frequency_presets() -> (r: Vec<FrequencyPreset>)
    ensures
        r@.len() == 7,
        r@[0].name@ == "APRS North America"@ && r@[0].frequency == 144_390_000
            && r@[0].mode@ == "FM-NFM"@,
        r@[1].name@ == "APRS Europe"@ && r@[1].frequency == 144_800_000
            && r@[1].mode@ == "FM-NFM"@,
        r@[2].name@ == "ADS-B Aircraft"@ && r@[2].frequency == 1_090_000_000
            && r@[2].mode@ == "ADS-B"@,
        r@[3].name@ == "NOAA Weather 1"@ && r@[3].frequency == 162_550_000
            && r@[3].mode@ == "FM-WFM"@,
        r@[4].name@ == "NOAA Weather 2"@ && r@[4].frequency == 162_400_000
            && r@[4].mode@ == "FM-WFM"@,
        r@[5].name@ == "FM Broadcast"@ && r@[5].frequency == 98_500_000
            && r@[5].mode@ == "FM-WFM"@,
        r@[6].name@ == "ISS APRS Downlink"@ && r@[6].frequency == 145_825_000
            && r@[6].mode@ == "FM-NFM"@,
        forall|i: int| 0 <= i < r@.len()
            ==> MIN_FREQUENCY <= #[trigger] r@[i].frequency <= MAX_FREQUENCY,
{
    let mut v: Vec<FrequencyPreset> = Vec::new();
    v.push(FrequencyPreset { name: "APRS North America", frequency: 144_390_000, mode: "FM-NFM" });
    v.push(FrequencyPreset { name: "APRS Europe", frequency: 144_800_000, mode: "FM-NFM" });
    v.push(FrequencyPreset { name: "ADS-B Aircraft", frequency: 1_090_000_000, mode: "ADS-B" });
    v.push(FrequencyPreset { name: "NOAA Weather 1", frequency: 162_550_000, mode: "FM-WFM" });
    v.push(FrequencyPreset { name: "NOAA Weather 2", frequency: 162_400_000, mode: "FM-WFM" });
    v.push(FrequencyPreset { name: "FM Broadcast", frequency: 98_500_000, mode: "FM-WFM" });
    v.push(FrequencyPreset { name: "ISS APRS Downlink", frequency: 145_825_000, mode: "FM-NFM" });
    v
}

} // verus!
