use yd_esp32_s3_audio_sd::hw::{check, HwError, HwOp};
use yd_esp32_s3_audio_sd::led::{LedColor, StatusLed};

#[test]
fn colours() {
    let mut led = StatusLed::init(0).unwrap();
    assert_eq!(led.color(), LedColor::Off);
    led.recording();
    assert_eq!(led.color(), LedColor::Rgb { r: 0, g: 64, b: 0 });
    led.playing();
    assert_eq!(led.color(), LedColor::Rgb { r: 64, g: 0, b: 0 });
    led.error_yellow();
    assert_eq!(led.color(), LedColor::Rgb { r: 48, g: 32, b: 0 });
    led.idle();
    assert_eq!(led.color(), LedColor::Off);
}

#[test]
fn sd_error_blinks() {
    let mut led = StatusLed::init(0).unwrap();
    led.recording();
    let steps = led.blink_sd_error_once();
    let blue = LedColor::Rgb { r: 0, g: 0, b: 48 };
    assert_eq!(
        steps,
        vec![
            (blue, 150),
            (LedColor::Off, 150),
            (blue, 150),
            (LedColor::Off, 150),
            (blue, 150),
            (LedColor::Off, 150)
        ]
    );
    assert_eq!(led.color(), LedColor::Off);
}

#[test]
fn init_failure() {
    assert_eq!(StatusLed::init(-1).err(), Some(HwError { op: HwOp::LedInit, code: -1 }));
}

#[test]
fn status_codes() {
    assert_eq!(check(0, HwOp::AdcRead), Ok(()));
    assert_eq!(check(259, HwOp::PwmSample), Err(HwError { op: HwOp::PwmSample, code: 259 }));
}
