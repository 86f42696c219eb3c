//! Verified core of a button-driven audio recorder and player for an
//! ESP32-S3 board: 8 kHz mono WAV recordings on an SD card, playback of 8- and
//! 16-bit PCM files, a debounced button and a status LED.
//!
//! The hardware itself (ADC, PWM, SD card, LED pins, clocks) and the
//! floating-point signal processing are driven from outside this crate; the
//! crate decides what to do with what they report.

pub mod config;
pub mod hw;
pub mod button;
pub mod control;
pub mod led;
pub mod wav;
pub mod pcm;
pub mod audio;
pub mod sdcard;
