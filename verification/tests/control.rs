use yd_esp32_s3_audio_sd::button::ButtonEvent;
use yd_esp32_s3_audio_sd::control::{idle_action, IdleAction, Outcome, MOUNT_RETRY_MS};
use yd_esp32_s3_audio_sd::led::{LedColor, StatusLed};

const YELLOW: LedColor = LedColor::Rgb { r: 48, g: 32, b: 0 };

#[test]
fn press_starts_action() {
    assert_eq!(idle_action(ButtonEvent::ShortPress), IdleAction::Record);
    assert_eq!(idle_action(ButtonEvent::LongPress), IdleAction::Play);
}

#[test]
fn action_colours() {
    let mut led = StatusLed::init(0).unwrap();
    led.start(IdleAction::Record);
    assert_eq!(led.color(), LedColor::Rgb { r: 0, g: 64, b: 0 });
    led.start(IdleAction::Play);
    assert_eq!(led.color(), LedColor::Rgb { r: 64, g: 0, b: 0 });
}

#[test]
fn outcomes_end_with_led_off() {
    let mut led = StatusLed::init(0).unwrap();
    led.start(IdleAction::Record);
    assert_eq!(led.finish(Outcome::Done), vec![(LedColor::Off, 0)]);
    assert_eq!(led.color(), LedColor::Off);
    led.start(IdleAction::Play);
    assert_eq!(led.finish(Outcome::Failed), vec![(YELLOW, 700), (LedColor::Off, 0)]);
    assert_eq!(led.color(), LedColor::Off);
    assert_eq!(led.finish(Outcome::NoWavFile), vec![(YELLOW, 500), (LedColor::Off, 0)]);
    assert_eq!(led.color(), LedColor::Off);
}

#[test]
fn mount_retry_signal() {
    let mut led = StatusLed::init(0).unwrap();
    let steps = led.sd_mount_failed();
    let blue = LedColor::Rgb { r: 0, g: 0, b: 48 };
    assert_eq!(steps.len(), 7);
    assert_eq!(steps[0], (blue, 150));
    assert_eq!(steps[5], (LedColor::Off, 150));
    assert_eq!(steps[6], (LedColor::Off, MOUNT_RETRY_MS));
    assert_eq!(MOUNT_RETRY_MS, 2000);
    assert_eq!(led.color(), LedColor::Off);
}
