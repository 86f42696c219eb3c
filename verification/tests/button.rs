use yd_esp32_s3_audio_sd::button::{ButtonEvent, DebouncedButton};

/// Polls every millisecond from `from` to `to` (exclusive) with a fixed raw
/// level and collects the events with their times.
fn run(b: &mut DebouncedButton, from: u32, to: u32, raw: bool) -> Vec<(u32, ButtonEvent)> {
    let mut out = Vec::new();
    let mut t = from;
    while t != to {
        if let Some(ev) = b.poll(t, raw) {
            out.push((t, ev));
        }
        t = t.wrapping_add(1);
    }
    out
}

#[test]
fn short_press_reported_on_release() {
    let mut b = DebouncedButton::new(0);
    assert!(run(&mut b, 0, 100, false).is_empty());
    assert!(run(&mut b, 100, 300, true).is_empty());
    let events = run(&mut b, 300, 400, false);
    assert_eq!(events, vec![(330, ButtonEvent::ShortPress)]);
}

#[test]
fn long_press_reported_once_while_held() {
    let mut b = DebouncedButton::new(0);
    let events = run(&mut b, 0, 2000, true);
    // stable after 30 ms of debounce, long after 500 ms more
    assert_eq!(events, vec![(530, ButtonEvent::LongPress)]);
    // releasing after a long press reports nothing
    assert!(run(&mut b, 2000, 2100, false).is_empty());
}

#[test]
fn press_of_exactly_long_press_time_is_long() {
    let mut b = DebouncedButton::new(0);
    // stable press at t=30; release raw at 530 -> long at 530 is reported first
    let held = run(&mut b, 0, 531, true);
    assert_eq!(held, vec![(530, ButtonEvent::LongPress)]);
    assert!(run(&mut b, 531, 700, false).is_empty());
}

#[test]
fn glitch_shorter_than_debounce_is_ignored() {
    let mut b = DebouncedButton::new(0);
    assert!(run(&mut b, 0, 50, false).is_empty());
    // 20 ms glitch
    assert!(run(&mut b, 50, 70, true).is_empty());
    assert!(run(&mut b, 70, 400, false).is_empty());
}

#[test]
fn no_event_for_unpolled_long_hold_released() {
    // A press held past the long press time whose long press was never seen
    // because the button was not polled while held reports nothing.
    let mut b = DebouncedButton::new(0);
    assert_eq!(b.poll(0, true), None);
    assert_eq!(b.poll(40, true), None); // stable pressed since 40
    assert_eq!(b.poll(400, false), None); // raw release at 400
    assert_eq!(b.poll(600, false), None); // stable release, held 560 ms
    assert_eq!(b.poll(700, false), None);
}

#[test]
fn clock_wrap_is_handled() {
    let start = u32::MAX - 100;
    let mut b = DebouncedButton::new(start);
    let events = run(&mut b, start, 1000, true);
    assert_eq!(events, vec![((start + 30).wrapping_add(500), ButtonEvent::LongPress)]);
}

#[test]
fn two_short_presses() {
    let mut b = DebouncedButton::new(0);
    assert!(run(&mut b, 0, 100, true).is_empty());
    assert_eq!(run(&mut b, 100, 200, false), vec![(130, ButtonEvent::ShortPress)]);
    assert!(run(&mut b, 200, 300, true).is_empty());
    assert_eq!(run(&mut b, 300, 400, false), vec![(330, ButtonEvent::ShortPress)]);
}

#[test]
fn one_event_per_press_over_a_run() {
    // presses of 100, 700, 40 and 200 ms with 300 ms pauses: one event each
    let mut b = DebouncedButton::new(0);
    let mut t = 0;
    let mut events = Vec::new();
    for hold in [100u32, 700, 40, 200] {
        events.extend(run(&mut b, t, t + 300, false));
        t += 300;
        events.extend(run(&mut b, t, t + hold, true));
        t += hold;
    }
    events.extend(run(&mut b, t, t + 300, false));
    let kinds: Vec<ButtonEvent> = events.iter().map(|e| e.1).collect();
    assert_eq!(
        kinds,
        vec![
            ButtonEvent::ShortPress,
            ButtonEvent::LongPress,
            ButtonEvent::ShortPress,
            ButtonEvent::ShortPress
        ]
    );
}
