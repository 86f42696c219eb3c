//! Fixed parameters of recording and playback that the verified logic uses.

use vstd::prelude::*;

verus! {

/// Sample rate of newly recorded WAV files.
pub const RECORD_SAMPLE_RATE: u32 = 8_000;

/// ADC measurements per stored sample.
pub const RECORD_OVERSAMPLE: usize = 4;

/// Recordings are 8-bit unsigned PCM.
pub const RECORD_BITS_PER_SAMPLE: u16 = 8;

/// Length of the silence measurement before each recording.
pub const RECORD_CALIBRATION_MS: u32 = 400;

/// Microphone wiring mode: 0 = GPIO4 ADC with GPIO5 pulled down, 1 = GPIO4 ADC
/// with GPIO5 floating, 2 = GPIO4 ADC with GPIO5 pulled up, 3 = GPIO5 ADC with
/// GPIO4 pulled down, 4/6/7 = differential modes, 5 = automatic scan.
pub const MIC_MODE: u8 = 0;

/// ADC attenuation: 0 = 0 dB, 1 = 2.5 dB, 2 = 6 dB, 3 = 12 dB.
pub const RECORD_ADC_ATTEN_MODE: u8 = 3;

/// Recordings are kept in RAM and written to the card when they end.
pub const RECORD_TO_RAM_FIRST: bool = true;

/// Longest recording.
pub const RECORD_MAX_SECONDS: u32 = 60;

/// Playback output: 0 = LEDC at 62.5 kHz, 1 = LEDC at 31.25 kHz for maximum
/// loudness, 2 = sigma-delta output (falls back to mode 1).
pub const PLAYBACK_OUTPUT_MODE: u8 = 0;

/// PWM carrier: 0 = 62.5 kHz, 1 = 31.25 kHz, 2 = 15.625 kHz.
pub const PLAYBACK_PWM_FREQ_MODE: u8 = 0;

/// Whether raw debug WAV files are written beside each recording.
pub const WRITE_DEBUG_RAW_WAV: bool = false;

/// Samples per playback processing block.
pub const PLAYBACK_BLOCK_SAMPLES: usize = 256;

} // verus!
