//! Tests for configuration validation, command handling, receiver state,
//! the waterfall ring, the audio path, and the display helpers.

use sdr_receiver::commands::{Command, DemodMode};
use sdr_receiver::config::{
    clamp_frequency, clamp_sample_rate, common_sample_rates, frequency_presets,
    validate_frequency, validate_sample_rate, ConfigError, MAX_FREQUENCY, MIN_FREQUENCY,
};
use sdr_receiver::control::{
    apply_state_command, confirm_device_action, device_request, DeviceAction,
};
use sdr_receiver::pipeline::{
    clamp_audio_batch, demodulate_for_mode, pcm_encode, AudioRing, StreamingSink,
};
use sdr_receiver::render::{
    db_to_color, get_signal_color, resample_data, resample_waterfall_row, Rgb, SignalColor,
};
use sdr_receiver::demod::FmDemodulator;
use sdr_receiver::sample::IqSample;
use sdr_receiver::state::{AppState, ControlId, DecoderState, SpectrumState};
use sdr_receiver::types::DecodedMessage;
use sdr_receiver::clamp_audio;

#[test]
fn test_validate_frequency() {
    assert!(validate_frequency(144_390_000).is_ok());
    assert!(validate_frequency(1_090_000_000).is_ok());
    assert!(validate_frequency(1_000_000).is_err());
    assert!(validate_frequency(2_000_000_000).is_err());
}

#[test]
fn test_validate_sample_rate() {
    assert!(validate_sample_rate(2_048_000).is_ok());
    assert!(validate_sample_rate(100_000).is_err());
    assert!(validate_sample_rate(5_000_000).is_err());
}

#[test]
fn test_config_error_variants() {
    assert_eq!(validate_frequency(1_000_000), Err(ConfigError::FrequencyTooLow));
    assert_eq!(validate_frequency(2_000_000_000), Err(ConfigError::FrequencyTooHigh));
    assert_eq!(validate_sample_rate(100_000), Err(ConfigError::SampleRateTooLow));
    assert_eq!(validate_sample_rate(5_000_000), Err(ConfigError::SampleRateTooHigh));
    assert!(!ConfigError::FrequencyTooLow.message().is_empty());
}

#[test]
fn test_presets_and_rates() {
    for preset in frequency_presets() {
        assert!(validate_frequency(preset.frequency).is_ok());
    }
    for rate in common_sample_rates() {
        assert!(validate_sample_rate(rate).is_ok());
    }
}

#[test]
fn test_out_of_range_frequency_is_clamped() {
    // An out-of-range request is applied as the clamped in-range value,
    // never raw.
    assert_eq!(clamp_frequency(1_000_000), MIN_FREQUENCY);
    assert_eq!(clamp_frequency(2_000_000_000), MAX_FREQUENCY);
    assert_eq!(clamp_frequency(144_390_000), 144_390_000);
    assert_eq!(clamp_sample_rate(1), 225_000);
    assert_eq!(clamp_sample_rate(99_000_000), 3_200_000);

    let r = device_request(144_390_000, &Command::SetFrequency(2_000_000_000));
    assert_eq!(r, Some(DeviceAction::SetFrequency(MAX_FREQUENCY)));
    let r = device_request(144_390_000, &Command::SetFrequency(7));
    assert_eq!(r, Some(DeviceAction::SetFrequency(MIN_FREQUENCY)));
    let r = device_request(MAX_FREQUENCY, &Command::IncreaseFrequency(1_000_000));
    assert_eq!(r, Some(DeviceAction::SetFrequency(MAX_FREQUENCY)));
    let r = device_request(MIN_FREQUENCY, &Command::DecreaseFrequency(1_000_000));
    assert_eq!(r, Some(DeviceAction::SetFrequency(MIN_FREQUENCY)));
    let r = device_request(144_390_000, &Command::IncreaseFrequency(100_000));
    assert_eq!(r, Some(DeviceAction::SetFrequency(144_490_000)));
}

#[test]
fn test_confirm_device_action_mirrors_state() {
    let mut state = AppState::default();
    confirm_device_action(&mut state.sdr, &DeviceAction::SetFrequency(98_500_000));
    assert_eq!(state.sdr.frequency, 98_500_000);
    confirm_device_action(&mut state.sdr, &DeviceAction::SetGain(200));
    assert_eq!(state.sdr.tuner_gain, 200);
    assert!(!state.sdr.auto_gain);
    confirm_device_action(&mut state.sdr, &DeviceAction::EnableAgc);
    assert_eq!(state.sdr.tuner_gain, -1);
    assert!(state.sdr.auto_gain);
    confirm_device_action(&mut state.sdr, &DeviceAction::SetPpm(12));
    assert_eq!(state.sdr.ppm_error, 12);
    confirm_device_action(&mut state.sdr, &DeviceAction::SetSampleRate(1_024_000));
    assert_eq!(state.sdr.sample_rate, 1_024_000);
}

#[test]
fn test_apply_state_command() {
    let mut state = AppState::default();
    assert!(!apply_state_command(&mut state, &Command::SetMode(DemodMode::Am)));
    assert_eq!(state.decoder.mode, DemodMode::Am);
    assert!(!apply_state_command(&mut state, &Command::StartRecording(String::from("capture.iq"))));
    assert!(state.recording.is_recording);
    assert_eq!(state.recording.samples_recorded, 0);
    assert!(!apply_state_command(&mut state, &Command::StopRecording));
    assert!(!state.recording.is_recording);
    assert!(apply_state_command(&mut state, &Command::Quit));
    assert!(state.ui.should_quit);
    // Device commands leave the state untouched here.
    let freq_before = state.sdr.frequency;
    assert!(!apply_state_command(&mut state, &Command::SetFrequency(30_000_000)));
    assert_eq!(state.sdr.frequency, freq_before);
}

#[test]
fn test_waterfall_ring_retains_most_recent() {
    // After more rows than the capacity, exactly the most recent `capacity`
    // rows remain, oldest first.
    let mut spectrum = SpectrumState {
        fft_data: Vec::new(),
        waterfall: Vec::new(),
        waterfall_index: 0,
        max_waterfall_history: 3,
    };
    for row in 0..5 {
        spectrum.add_fft_data(vec![row; 4]);
    }
    let display = spectrum.get_waterfall_display();
    assert_eq!(display.len(), 3);
    assert_eq!(display[0], vec![2; 4]);
    assert_eq!(display[1], vec![3; 4]);
    assert_eq!(display[2], vec![4; 4]);
    assert_eq!(spectrum.fft_data, vec![4; 4]);
}

#[test]
fn test_waterfall_seeds_silent_rows() {
    let mut spectrum = SpectrumState {
        fft_data: Vec::new(),
        waterfall: Vec::new(),
        waterfall_index: 0,
        max_waterfall_history: 4,
    };
    spectrum.add_fft_data(vec![7, 7]);
    let display = spectrum.get_waterfall_display();
    assert_eq!(display.len(), 4);
    assert_eq!(display[0], vec![0, 0]);
    assert_eq!(display[3], vec![7, 7]);
}

#[test]
fn test_decoder_message_eviction() {
    let mut decoder = DecoderState {
        mode: DemodMode::Aprs,
        messages: Vec::new(),
        max_messages: 2,
    };
    decoder.add_message(DecodedMessage::new(DemodMode::Aprs, String::from("one")));
    decoder.add_message(DecodedMessage::new(DemodMode::Aprs, String::from("two")));
    decoder.add_message(DecodedMessage::new(DemodMode::Aprs, String::from("three")));
    assert_eq!(decoder.messages.len(), 2);
    assert_eq!(decoder.messages[0].content, "two");
    assert_eq!(decoder.messages[1].content, "three");
    decoder.clear_messages();
    assert!(decoder.messages.is_empty());
}

#[test]
fn test_control_cycle() {
    let all = ControlId::all();
    assert_eq!(all.len(), 5);
    let mut c = ControlId::Frequency;
    for _ in 0..all.len() {
        assert_eq!(c.next().prev(), c);
        c = c.next();
    }
    assert_eq!(c, ControlId::Frequency);
}

#[test]
fn test_demod_mode_names() {
    assert_eq!(DemodMode::FmNarrow.name(), "FM-NFM");
    assert_eq!(DemodMode::Adsb.name(), "ADS-B");
    assert_eq!(DemodMode::all().len(), 8);
    assert_eq!(DemodMode::default(), DemodMode::FmNarrow);
}

#[test]
fn test_audio_ring_bounded_and_drops() {
    // The delivery buffer saturates at its fixed capacity: extra samples are
    // dropped and counted, and the buffer never grows.
    let mut ring = AudioRing::new(4);
    for i in 0..10 {
        ring.try_push(i);
    }
    assert_eq!(ring.len(), 4);
    assert_eq!(ring.dropped, 6);
    // FIFO order, then silence once drained.
    assert_eq!(ring.pop_or_silence(), 0);
    assert_eq!(ring.pop_or_silence(), 1);
    assert_eq!(ring.pop_or_silence(), 2);
    assert_eq!(ring.pop_or_silence(), 3);
    assert_eq!(ring.pop_or_silence(), 0);
    assert_eq!(ring.len(), 0);
}

#[test]
fn test_clamp_audio() {
    assert_eq!(clamp_audio(40000), 32768);
    assert_eq!(clamp_audio(-40000), -32768);
    assert_eq!(clamp_audio(123), 123);
    let clamped = clamp_audio_batch(&vec![-999_999, 0, 999_999]);
    assert_eq!(clamped, vec![-32768, 0, 32768]);
}

#[test]
fn test_pcm_encode_exact() {
    // Full scale becomes 32767 (0xFF 0x7F little-endian); silence is two
    // zero bytes; values beyond full scale clamp first.
    let bytes = pcm_encode(&vec![32768, 0, -32768, 999_999]);
    assert_eq!(bytes.len(), 8);
    assert_eq!(&bytes[0..2], &[0xFF, 0x7F]);
    assert_eq!(&bytes[2..4], &[0x00, 0x00]);
    assert_eq!(&bytes[4..6], &[0x01, 0x80]); // -32767
    assert_eq!(&bytes[6..8], &[0xFF, 0x7F]);
}

#[test]
fn test_stream_buffer_batches() {
    let mut sink = StreamingSink::new(3);
    assert_eq!(sink.push(1), None);
    assert_eq!(sink.push(2), None);
    assert_eq!(sink.push(3), Some(vec![1, 2, 3]));
    assert_eq!(sink.push(4), None);
    assert_eq!(sink.flush(), Some(vec![4]));
    assert_eq!(sink.flush(), None);
}

#[test]
fn test_demodulate_for_mode_raw() {
    let samples: Vec<IqSample> = vec![IqSample { re: 1000, im: -1000 }; 16];
    let mut narrow = FmDemodulator::new(2_048_000, 75);
    let mut wide = FmDemodulator::new(2_048_000, 50);
    assert!(demodulate_for_mode(&samples, DemodMode::Raw, &mut narrow, &mut wide).is_none());
    assert_eq!(
        demodulate_for_mode(&samples, DemodMode::Am, &mut narrow, &mut wide).unwrap().len(),
        16
    );
    // The persistent variant loses no sample to the phase reference.
    assert_eq!(
        demodulate_for_mode(&samples, DemodMode::FmNarrow, &mut narrow, &mut wide).unwrap().len(),
        16
    );
    assert_eq!(
        demodulate_for_mode(&samples, DemodMode::Usb, &mut narrow, &mut wide).unwrap().len(),
        16
    );
}

#[test]
fn test_resample_data() {
    let data = vec![1, 2, 3, 4, 5];

    // Downsample.
    let resampled = resample_data(&data, 3);
    assert_eq!(resampled.len(), 3);

    // Upsample.
    let resampled = resample_data(&data, 10);
    assert_eq!(resampled.len(), 10);

    // Same size.
    let resampled = resample_data(&data, 5);
    assert_eq!(resampled, data);
}

#[test]
fn test_get_signal_color() {
    assert_eq!(get_signal_color(90, 100), SignalColor::Red);
    assert_eq!(get_signal_color(70, 100), SignalColor::Yellow);
    assert_eq!(get_signal_color(50, 100), SignalColor::Green);
    assert_eq!(get_signal_color(30, 100), SignalColor::Cyan);
    assert_eq!(get_signal_color(10, 100), SignalColor::Blue);
}

#[test]
fn test_resample_waterfall_row() {
    // dB values in hundredths: -80, -60, -40, -20 dB.
    let data = vec![-8000, -6000, -4000, -2000];

    // Downsample.
    let resampled = resample_waterfall_row(&data, 2);
    assert_eq!(resampled.len(), 2);

    // Upsample.
    let resampled = resample_waterfall_row(&data, 8);
    assert_eq!(resampled.len(), 8);

    // Empty data.
    let resampled = resample_waterfall_row(&Vec::new(), 5);
    assert_eq!(resampled.len(), 5);
    assert_eq!(resampled[0], -10000);
}

#[test]
fn test_db_to_color() {
    // Weak signal: blue-ish.
    let color = db_to_color(-10000, -10000, 0);
    assert!(color.blue > 0);

    // Strong signal: red-ish.
    let color = db_to_color(0, -10000, 0);
    assert!(color.red > 200);

    // Mid-range lands inside the palette.
    let mid = db_to_color(-5000, -10000, 0);
    assert_eq!(mid, Rgb { red: 32, green: 191, blue: 128 });
}
