//! Tests for the demodulators, filters, resampler, and spectral transform.

use sdr_receiver::demod::{
    apply_deemphasis, demodulate_am, demodulate_fm, demodulate_ssb, lowpass_filter, FmDemodulator,
};
use sdr_receiver::resampler::Resampler;
use sdr_receiver::sample::{samples_u8_to_complex, IqSample};
use sdr_receiver::spectrum::{db_centi, normalize_fft, FftProcessor, DB_FLOOR_CENTI};

/// A unit-amplitude complex tone advancing by `step` radians per sample, in
/// Q15 (scaled by 32767 so it stays inside the nominal range).
fn tone(n: usize, step: f32) -> Vec<IqSample> {
    (0..n)
        .map(|i| {
            let phase = i as f32 * step;
            IqSample {
                re: (phase.cos() * 32767.0) as i32,
                im: (phase.sin() * 32767.0) as i32,
            }
        })
        .collect()
}

#[test]
fn test_fm_demodulator() {
    let mut demod = FmDemodulator::new(2_048_000, 75);

    let samples = tone(1000, 0.1);
    let audio = demod.demodulate(&samples);

    assert_eq!(audio.len(), samples.len());

    // All audio samples should be in valid range ([-1, 1] is [-32768, 32768]).
    for sample in &audio {
        assert!(sample.abs() <= 32768);
    }
}

#[test]
fn test_fm_demodulator_reset() {
    let mut demod = FmDemodulator::new(2_048_000, 75);

    let samples = tone(10, 0.5);
    let _ = demod.demodulate(&samples);

    // Reset should clear state.
    demod.reset();
    assert_eq!(demod.prev_sample, IqSample { re: 32768, im: 0 });
    assert_eq!(demod.deemph_state, 0);
}

#[test]
fn test_fm_tone_output_periodic() {
    // A constant-phase-increment tone demodulates to an eventually constant
    // (hence periodic) discriminator level, bounded within [-1, 1].
    let mut demod = FmDemodulator::new(2_048_000, 75);
    let samples = tone(600, 0.1);
    let audio = demod.demodulate(&samples);
    for sample in &audio {
        assert!(sample.abs() <= 32768);
    }
    // After the de-emphasis filter settles, consecutive outputs repeat to
    // within a small tolerance.
    for k in 500..audio.len() - 1 {
        assert!((audio[k] - audio[k + 1]).abs() <= 4);
    }
}

#[test]
fn test_demodulate_fm() {
    let samples = tone(100, 0.1);
    let audio = demodulate_fm(&samples, false);
    assert_eq!(audio.len(), samples.len() - 1);
}

#[test]
fn test_demodulate_fm_wideband() {
    let samples = tone(100, 0.1);
    let audio = demodulate_fm(&samples, true);
    assert_eq!(audio.len(), samples.len() - 1);
}

#[test]
fn test_demodulate_am() {
    let samples: Vec<IqSample> = (0..100)
        .map(|i| {
            let amp = (i as f32 * 0.1).sin().abs();
            IqSample { re: (amp * 32767.0) as i32, im: 0 }
        })
        .collect();

    let audio = demodulate_am(&samples);
    assert_eq!(audio.len(), samples.len());
}

#[test]
fn test_am_mean_removed() {
    // The DC offset is removed: the output sums to less than one unit per
    // sample, so the mean is zero to within quantization.
    let samples: Vec<IqSample> = (0..100)
        .map(|i| {
            let amp = 0.5 + 0.4 * (i as f32 * 0.2).sin();
            IqSample { re: (amp * 32767.0) as i32, im: 0 }
        })
        .collect();
    let audio = demodulate_am(&samples);
    let total: i64 = audio.iter().map(|&x| x as i64).sum();
    assert!(0 <= total && total < audio.len() as i64);
}

#[test]
fn test_demodulate_ssb_usb() {
    let samples = tone(100, 0.05);
    let audio = demodulate_ssb(&samples, true);
    assert_eq!(audio.len(), samples.len());
}

#[test]
fn test_demodulate_ssb_lsb() {
    let samples = tone(100, 0.05);
    let audio = demodulate_ssb(&samples, false);
    assert_eq!(audio.len(), samples.len());
}

#[test]
fn test_demodulators_empty_input() {
    let empty: Vec<IqSample> = Vec::new();
    assert_eq!(demodulate_fm(&empty, false).len(), 0);
    assert_eq!(demodulate_fm(&empty, true).len(), 0);
    assert_eq!(demodulate_am(&empty).len(), 0);
    assert_eq!(demodulate_ssb(&empty, true).len(), 0);
    assert_eq!(demodulate_ssb(&empty, false).len(), 0);
    // A single sample is still too short for the pairwise discriminator.
    let one = tone(1, 0.1);
    assert_eq!(demodulate_fm(&one, false).len(), 0);
}

#[test]
fn test_lowpass_filter() {
    let input = vec![1, 2, 3, 4, 5];
    let filtered = lowpass_filter(&input, 3);

    assert_eq!(filtered.len(), input.len());
    // Middle value should be average of surrounding values.
    assert_eq!(filtered[2], 3);
}

#[test]
fn test_deemphasis() {
    let input = vec![32768, 16384, 0, -16384, -32768];
    let output = apply_deemphasis(&input, false);
    assert_eq!(output.len(), input.len());
}

#[test]
fn test_resampler_downsample() {
    let mut resampler = Resampler::new(48000, 24000); // 2:1 downsampling

    let input: Vec<i32> = (0..100).collect();
    let output = resampler.resample(&input);

    // Should have roughly half the samples.
    assert!(output.len() >= 45 && output.len() <= 55);
}

#[test]
fn test_resampler_upsample() {
    let mut resampler = Resampler::new(24000, 48000); // 1:2 upsampling

    let input: Vec<i32> = (0..50).collect();
    let output = resampler.resample(&input);

    // Should have roughly double the samples.
    assert!(output.len() >= 95 && output.len() <= 105);
}

#[test]
fn test_resampler_reset() {
    let mut resampler = Resampler::new(48000, 44100);

    let input = vec![1; 100];
    let _ = resampler.resample(&input);

    resampler.reset();
    assert_eq!(resampler.phase_num, 0);
}

#[test]
fn test_resampler_ratio() {
    let resampler = Resampler::new(48000, 24000);
    assert_eq!(resampler.ratio(), 500); // 0.5, in thousandths

    let resampler = Resampler::new(24000, 48000);
    assert_eq!(resampler.ratio(), 2000); // 2.0, in thousandths
}

#[test]
fn test_resampler_interpolates() {
    // Upsampling a ramp by 2 interpolates the midpoints.
    let mut resampler = Resampler::new(24000, 48000);
    let input = vec![0, 1000, 2000, 3000];
    let output = resampler.resample(&input);
    assert_eq!(output[0], 0);
    assert_eq!(output[1], 500);
    assert_eq!(output[2], 1000);
    assert_eq!(output[3], 1500);
}

#[test]
fn test_fft_processor() {
    let processor = FftProcessor::new(1024);

    // A strong tone aligned to bin 50 (100 kHz at a 2.048 MHz sample rate).
    let signal = tone(1024, 2.0 * std::f32::consts::PI * 100_000.0 / 2_048_000.0);

    let spectrum = processor.process(&signal);

    // Verify output size.
    assert_eq!(spectrum.len(), 1024);

    // Verify there's a peak somewhere (basic sanity check): above -50 dB
    // (-5000 in hundredths).
    let max_value = spectrum.iter().cloned().max().unwrap();
    assert!(max_value > -5000);
}

#[test]
fn test_spectral_length_any_batch() {
    // The row length equals the transform size whatever the batch length:
    // short batches are zero-padded and long ones truncated.
    let processor = FftProcessor::new(64);
    for n in [0usize, 1, 10, 64, 100, 1000] {
        let signal = tone(n, 0.3);
        assert_eq!(processor.process(&signal).len(), 64);
    }
}

#[test]
fn test_spectral_floor_for_silence() {
    // An all-zero batch lands entirely on the -100 dB floor.
    let processor = FftProcessor::new(64);
    let silence = vec![IqSample { re: 0, im: 0 }; 32];
    let row = processor.process(&silence);
    assert_eq!(row.len(), 64);
    for v in row {
        assert_eq!(v, DB_FLOOR_CENTI);
    }
}

#[test]
fn test_db_centi_reference() {
    // Zero magnitude is the floor; a magnitude of 1.0 in Q15 (squared: 2^30)
    // is the 0 dB reference.
    assert_eq!(db_centi(0), -10000);
    assert_eq!(db_centi(1 << 30), 0);
}

#[test]
fn test_normalize_fft() {
    // dB values in hundredths: -100, -80, -60, -40, -20, 0 dB.
    let data = vec![-10000, -8000, -6000, -4000, -2000, 0];
    let normalized = normalize_fft(&data, -10000, 0);

    assert!((normalized[0] as f32 / 32768.0 - 0.0).abs() < 0.01);
    assert!((normalized[5] as f32 / 32768.0 - 1.0).abs() < 0.01);
    assert!((normalized[2] as f32 / 32768.0 - 0.4).abs() < 0.01);
}

#[test]
fn test_samples_u8_to_complex() {
    // Test center value (127).
    let samples = vec![127, 127];
    let complex = samples_u8_to_complex(&samples);
    assert_eq!(complex.len(), 1);
    assert!((complex[0].re as f32 / 32768.0 + 0.00390625).abs() < 0.01); // ~-0.004
    assert!((complex[0].im as f32 / 32768.0 + 0.00390625).abs() < 0.01);

    // Test max value (255).
    let samples = vec![255, 255];
    let complex = samples_u8_to_complex(&samples);
    assert!(complex[0].re as f32 / 32768.0 > 0.99);
    assert!(complex[0].im as f32 / 32768.0 > 0.99);

    // Test min value (0).
    let samples = vec![0, 0];
    let complex = samples_u8_to_complex(&samples);
    assert!((complex[0].re as f32 / 32768.0) < -0.99);
    assert!((complex[0].im as f32 / 32768.0) < -0.99);
}

#[test]
fn test_fm_demodulator_batch_continuity() {
    // The phase reference carried across calls means no sample is lost at a
    // batch boundary: every batch yields one output per input, and the
    // reference walking out of a batch is its last sample.
    let full = tone(200, 0.07);
    let first: Vec<IqSample> = full[..100].to_vec();
    let second: Vec<IqSample> = full[100..].to_vec();

    let mut demod = FmDemodulator::new(2_048_000, 75);
    let a = demod.demodulate(&first);
    assert_eq!(a.len(), 100);
    assert_eq!(demod.prev_sample, *first.last().unwrap());
    let b = demod.demodulate(&second);
    assert_eq!(b.len(), 100);
    assert_eq!(demod.prev_sample, *second.last().unwrap());
}

#[test]
fn test_spectral_shift_centers_zero_frequency() {
    // A pure DC signal concentrates its energy in the zero-frequency bin,
    // which the shift places at the center of the row.
    let processor = FftProcessor::new(64);
    let dc = vec![IqSample { re: 20000, im: 0 }; 64];
    let row = processor.process(&dc);
    let (peak_idx, _) = row
        .iter()
        .enumerate()
        .max_by_key(|&(_, v)| *v)
        .unwrap();
    assert_eq!(peak_idx, 32);
}
