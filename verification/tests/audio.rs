use yd_esp32_s3_audio_sd::audio::{
    adc_atten_description, debug_file_name, diff_to_debug_u8, is_diff_mode,
    is_high_saturated, is_low_saturated, measurement_sample_count, mic_mode_description, playback_block_frames, playback_period_us, playback_remaining_after,
    oversampled_raw, pcm_u8_from_level, playback_mode_description,
    playback_pwm_freq_description, raw_to_debug_u8, saturation_counts, signal_from_pair,
    trimmed_mean, wait_step, Calibration, DebugCapture, RawSample, RecordSession, RecordStats,
    RecordStep, WaitStep,
};
use yd_esp32_s3_audio_sd::button::ButtonEvent;

#[test]
fn signal_per_mode() {
    assert_eq!(signal_from_pair(0, 1000, 300), 1000);
    assert_eq!(signal_from_pair(3, 1000, 300), 300);
    assert_eq!(signal_from_pair(4, 1000, 300), 700);
    assert_eq!(signal_from_pair(6, 100, 300), -200);
    assert_eq!(signal_from_pair(7, 100, 300), -200);
    assert_eq!(signal_from_pair(5, 100, 300), 100);
    assert!(is_diff_mode(4) && is_diff_mode(6) && is_diff_mode(7));
    assert!(!is_diff_mode(0) && !is_diff_mode(5));
}

#[test]
fn trimmed_means() {
    assert_eq!(trimmed_mean(&[1, 2, 3, 5]), 2);
    assert_eq!(trimmed_mean(&[-1, -2, -3, -5]), -2);
    // from six values on the first and last are dropped
    assert_eq!(trimmed_mean(&[0, 10, 10, 10, 10, 1000]), 10);
    assert_eq!(trimmed_mean(&[i32::MAX, i32::MAX]), i32::MAX);
    assert_eq!(trimmed_mean(&[i32::MIN, i32::MIN, i32::MIN]), i32::MIN);
}

#[test]
fn oversampling_sorts_before_trimming() {
    let reads = [(5, 1), (100, 2), (7, 3), (6, 4), (0, 5), (8, 6)];
    let r = oversampled_raw(4, &reads);
    // a: sorted 0,5,6,7,8,100 -> 5+6+7+8 / 4 = 6
    assert_eq!(r.raw_a, 6);
    // b: sorted 1..6 -> 2+3+4+5 / 4 = 3
    assert_eq!(r.raw_b, 3);
    // signals 4,98,4,2,-5,2 sorted -5,2,2,4,4,98 -> 12/4 = 3
    assert_eq!(r.signal, 3);
    let four = [(10, 20), (12, 20), (14, 20), (16, 21)];
    assert_eq!(
        oversampled_raw(0, &four),
        RawSample { raw_a: 13, raw_b: 20, signal: 13 }
    );
    let reversed = [(16, 21), (14, 20), (12, 20), (10, 20)];
    assert_eq!(oversampled_raw(0, &reversed), oversampled_raw(0, &four));
}

#[test]
fn calibration_extremes() {
    let samples = [
        RawSample { raw_a: 10, raw_b: 5, signal: 5 },
        RawSample { raw_a: 30, raw_b: 1, signal: 29 },
        RawSample { raw_a: 20, raw_b: 9, signal: -3 },
    ];
    let c = Calibration::from_samples(&samples);
    assert_eq!(
        (c.raw_a_min, c.raw_a_max, c.raw_b_min, c.raw_b_max, c.diff_min, c.diff_max),
        (10, 30, 1, 9, -3, 29)
    );
    assert_eq!(c.signal_sum, 31);
    assert_eq!(c.samples, 3);
    let empty = Calibration::from_samples(&[]);
    assert_eq!(empty.raw_a_min, i32::MAX);
    assert_eq!(empty.raw_a_max, i32::MIN);
    assert_eq!(empty.samples, 0);
}

#[test]
fn saturation_statistics() {
    assert!(is_low_saturated(8) && !is_low_saturated(9));
    assert!(is_high_saturated(4087) && !is_high_saturated(4086));
    let mut s = RecordStats::new(2);
    s.observe_raw(RawSample { raw_a: 0, raw_b: 2000, signal: 0 });
    s.observe_raw(RawSample { raw_a: 4095, raw_b: 3, signal: 4095 });
    s.observe_raw(RawSample { raw_a: 2000, raw_b: 2000, signal: 2000 });
    assert_eq!(s.samples, 3);
    assert_eq!(s.saturation_low_a_count, 1);
    assert_eq!(s.saturation_high_a_count, 1);
    assert_eq!(s.saturation_low_b_count, 1);
    assert_eq!(s.saturation_high_b_count, 0);
    assert_eq!(s.low_saturation_sample_count, 2);
    assert_eq!(s.high_saturation_sample_count, 1);
    assert_eq!(s.saturation_sample_count, 2);
    assert_eq!((s.raw_a_min, s.raw_a_max, s.diff_min, s.diff_max), (0, 4095, 0, 4095));
    let samples = [
        RawSample { raw_a: 0, raw_b: 2000, signal: 0 },
        RawSample { raw_a: 4095, raw_b: 3, signal: 0 },
        RawSample { raw_a: 100, raw_b: 100, signal: 0 },
    ];
    assert_eq!(saturation_counts(&samples), (2, 1));
}

#[test]
fn debug_scaling() {
    assert_eq!(raw_to_debug_u8(-5), 0);
    assert_eq!(raw_to_debug_u8(4095), 255);
    assert_eq!(raw_to_debug_u8(5000), 255);
    assert_eq!(raw_to_debug_u8(2048), 128);
    assert_eq!(diff_to_debug_u8(0), 128);
    assert_eq!(diff_to_debug_u8(-31), 128);
    assert_eq!(diff_to_debug_u8(-32), 127);
    assert_eq!(diff_to_debug_u8(100_000), 255);
    assert_eq!(diff_to_debug_u8(-100_000), 0);
    assert_eq!(pcm_u8_from_level(0), 128);
    assert_eq!(pcm_u8_from_level(-127), 1);
    assert_eq!(pcm_u8_from_level(127), 255);
    assert_eq!(pcm_u8_from_level(-1000), 0);
    assert_eq!(pcm_u8_from_level(i32::MAX), 255);
}

#[test]
fn debug_capture_buffers() {
    let mut d = DebugCapture::new();
    assert!(d.raw_a.is_none() && d.raw_b.is_none() && d.diff.is_none() && d.proc.is_none());
    d.push(RawSample { raw_a: 1, raw_b: 2, signal: 3 }, 4);
    assert!(d.raw_a.is_none());
    let mut on = DebugCapture { raw_a: Some(Vec::new()), raw_b: Some(Vec::new()), diff: None, proc: Some(Vec::new()) };
    on.push(RawSample { raw_a: 4095, raw_b: 16, signal: -64 }, 200);
    assert_eq!(on.raw_a, Some(vec![255]));
    assert_eq!(on.raw_b, Some(vec![1]));
    assert_eq!(on.diff, None);
    assert_eq!(on.proc, Some(vec![200]));
}

#[test]
fn debug_names() {
    assert_eq!(debug_file_name(b"RAW_A", b"REC_0001.WAV"), b"RAW_A_REC_0001.WAV".to_vec());
    assert_eq!(debug_file_name(b"DIFF", b"A.WAV.WAV"), b"DIFF_A.WAV".to_vec());
    assert_eq!(debug_file_name(b"P", b"x.wav"), b"P_x.wav.WAV".to_vec());
    assert_eq!(debug_file_name(b"P", b""), b"P_.WAV".to_vec());
}

#[test]
fn descriptions() {
    assert_eq!(mic_mode_description(0), "GPIO4 ADC, GPIO5 schwacher Pulldown");
    assert_eq!(mic_mode_description(5), "AUTO_SCAN Modi 0..7");
    assert_eq!(mic_mode_description(9), "ungueltig");
    assert_eq!(adc_atten_description(3), "ADC_ATTEN_DB_12");
    assert_eq!(adc_atten_description(7), "ADC_ATTEN_DB_0(default)");
    assert_eq!(playback_mode_description(1), "MAX_LOUD_LEDC 31.25 kHz");
    assert_eq!(playback_mode_description(9), "unknown, native fallback");
    assert_eq!(playback_pwm_freq_description(2), "15625 Hz very experimental");
    assert_eq!(playback_pwm_freq_description(3), "native default");
}

#[test]
fn waiting() {
    assert_eq!(wait_step(1000, 1000), WaitStep::Reached);
    assert_eq!(wait_step(1001, 1000), WaitStep::Reached);
    assert_eq!(wait_step(1000, 1080), WaitStep::Spin);
    assert_eq!(wait_step(1000, 1081), WaitStep::Delay(41));
    assert_eq!(wait_step(0, u64::MAX), WaitStep::Delay(u32::MAX));
}

#[test]
fn measurement_lengths() {
    assert_eq!(measurement_sample_count(400), 3200);
    assert_eq!(measurement_sample_count(250), 2000);
    assert_eq!(measurement_sample_count(1), 16);
    assert_eq!(measurement_sample_count(0), 16);
}

#[test]
fn recording_loop_decisions() {
    let mut s = RecordSession::new();
    assert_eq!(s.max_samples, 8000 * 60);
    let mut polls = 0;
    let mut yields = 0;
    let mut n = 0;
    loop {
        n += 1;
        match s.after_sample() {
            RecordStep::StopMaxSeconds => break,
            RecordStep::Continue { poll_button, yield_now } => {
                if poll_button {
                    polls += 1;
                }
                if yield_now {
                    yields += 1;
                }
            }
        }
    }
    assert_eq!(n, 8000 * 60);
    assert_eq!(polls, (8000 * 60 - 1) / 32);
    assert_eq!(yields, (8000 * 60 - 1) / 128);
    assert!(RecordSession::stops_on(Some(ButtonEvent::ShortPress)));
    assert!(!RecordSession::stops_on(Some(ButtonEvent::LongPress)));
    assert!(!RecordSession::stops_on(None));
    let mut tiny = RecordSession { samples: 0, max_samples: 0 };
    assert_eq!(tiny.after_sample(), RecordStep::StopMaxSeconds);
}

#[test]
fn playback_timing() {
    assert_eq!(playback_period_us(8000), 125);
    assert_eq!(playback_period_us(44100), 22);
    assert_eq!(playback_period_us(0), 1_000_000);
    assert_eq!(playback_period_us(3_000_000), 1);
    assert_eq!(playback_block_frames(1000), 256);
    assert_eq!(playback_block_frames(100), 100);
    assert_eq!(playback_block_frames(0), 0);
}

#[test]
fn playback_frame_counting() {
    assert_eq!(playback_remaining_after(1000, 256), Some(744));
    assert_eq!(playback_remaining_after(100, 100), Some(0));
    assert_eq!(playback_remaining_after(100, 0), None);
}
