//! Debouncing of the push button and classification of presses into short
//! and long presses.

use vstd::prelude::*;

verus! {

/// Time the raw level must stay unchanged before it is taken as the new
/// stable level.
pub const DEBOUNCE_MS: u32 = 30;

/// Hold time from which a press counts as a long press.
pub const LONG_PRESS_MS: u32 = 500;

/// What a poll of the button reports.
#[derive(Debug, Clone, Copy, Eq, PartialEq, Structural)]
pub enum ButtonEvent {
    ShortPress,
    LongPress,
}

/// Milliseconds from `then` to `now` on a 32-bit millisecond clock that wraps.
pub open spec fn elapsed(now: u32, then: u32) -> u32 {
    if now >= then {
        (now - then) as u32
    } else {
        (now + 0x1_0000_0000 - then) as u32
    }
}

/// The elapsed time on the wrapping millisecond clock is the difference
/// modulo 2^32: the earlier time plus it gives the later time again.
pub proof fn lemma_elapsed_wraps(now: u32, then: u32)
    ensures
        (then + elapsed(now, then)) % 0x1_0000_0000 == now,
        now >= then ==> elapsed(now, then) == now - then,
{
}

/// The state of a debounced button, as plain values.
pub struct ButtonModel {
    pub last_raw_pressed: bool,
    pub stable_pressed: bool,
    pub last_raw_change_ms: u32,
    pub pressed_since_ms: Option<u32>,
    pub long_already_reported: bool,
    pub debounce_ms: u32,
    pub long_press_ms: u32,
}

impl ButtonModel {
    /// A press is under way exactly when the stable level is "pressed", and
    /// the timing parameters are the fixed ones.
    pub open spec fn wf(self) -> bool {
        &&& self.stable_pressed <==> self.pressed_since_ms is Some
        &&& self.debounce_ms == DEBOUNCE_MS
        &&& self.long_press_ms == LONG_PRESS_MS
    }

    /// Records the raw level: a change restarts the debounce timer.
    pub open spec fn track_raw(self, now: u32, raw: bool) -> ButtonModel {
        if raw != self.last_raw_pressed {
            ButtonModel { last_raw_pressed: raw, last_raw_change_ms: now, ..self }
        } else {
            self
        }
    }

    /// Whether the raw level has been steady long enough and differs from
    /// the stable level, so that the stable level flips now.
    pub open spec fn settles(self, now: u32) -> bool {
        elapsed(now, self.last_raw_change_ms) >= self.debounce_ms
            && self.stable_pressed != self.last_raw_pressed
    }

    /// Reports a long press once the stable press has lasted long enough and
    /// none has been reported for it yet.
    pub open spec fn long_check(self, now: u32) -> (ButtonModel, Option<ButtonEvent>) {
        if self.stable_pressed && !self.long_already_reported && self.pressed_since_ms is Some
            && elapsed(now, self.pressed_since_ms->0) >= self.long_press_ms {
            (ButtonModel { long_already_reported: true, ..self }, Some(ButtonEvent::LongPress))
        } else {
            (self, None)
        }
    }

    /// One poll at time `now` with raw level `raw`: the new state and the
    /// event reported.
    pub open spec fn poll(self, now: u32, raw: bool) -> (ButtonModel, Option<ButtonEvent>) {
        let m = self.track_raw(now, raw);
        if m.settles(now) {
            if m.last_raw_pressed {
                ButtonModel {
                    stable_pressed: true,
                    pressed_since_ms: Some(now),
                    long_already_reported: false,
                    ..m
                }.long_check(now)
            } else {
                let released = ButtonModel {
                    stable_pressed: false,
                    pressed_since_ms: None,
                    ..m
                };
                if m.pressed_since_ms is Some && elapsed(now, m.pressed_since_ms->0)
                    < m.long_press_ms && !m.long_already_reported {
                    (released, Some(ButtonEvent::ShortPress))
                } else {
                    released.long_check(now)
                }
            }
        } else {
            m.long_check(now)
        }
    }
}


/// A short press is reported only when a press ends: the stable level goes
/// from pressed to released, the press lasted less than the long press time,
/// and no long press was reported for it.
pub proof fn lemma_short_press_only_on_release(m: ButtonModel, now: u32, raw: bool)
    requires
        m.wf(),
    ensures
        m.poll(now, raw).1 == Some(ButtonEvent::ShortPress) ==> {
            &&& m.stable_pressed
            &&& !m.poll(now, raw).0.stable_pressed
            &&& !m.long_already_reported
            &&& elapsed(now, m.pressed_since_ms->0) < LONG_PRESS_MS
        },
{
}

/// Once a long press has been reported, the same press yields no further
/// event: neither a second long press while it is held nor a short press when
/// it is released.
pub proof fn lemma_long_press_reported_once(m: ButtonModel, now: u32, raw: bool)
    requires
        m.wf(),
        m.stable_pressed,
        m.long_already_reported,
    ensures
        m.poll(now, raw).1 is None,
{
}

/// A long press is reported only while the button is held, after it has
/// been held for the long press time, and it is then marked as reported.
pub proof fn lemma_long_press_only_when_held(m: ButtonModel, now: u32, raw: bool)
    requires
        m.wf(),
    ensures
        m.poll(now, raw).1 == Some(ButtonEvent::LongPress) ==> {
            let post = m.poll(now, raw).0;
            &&& post.stable_pressed
            &&& post.long_already_reported
            &&& elapsed(now, post.pressed_since_ms->0) >= LONG_PRESS_MS
        },
{
}

/// A change of the raw level never changes the stable level in the same
/// poll: a level must hold for the debounce time first.
pub proof fn lemma_raw_change_is_debounced(m: ButtonModel, now: u32, raw: bool)
    requires
        m.wf(),
        raw != m.last_raw_pressed,
    ensures
        m.poll(now, raw).0.stable_pressed == m.stable_pressed,
        m.poll(now, raw).1 != Some(ButtonEvent::ShortPress),
{
}

/// A release that has been steady for the debounce time ends the press; if
/// the press was shorter than the long press time and no long press was
/// reported, a short press is reported.
pub proof fn lemma_release_reports_short_press(m: ButtonModel, now: u32)
    requires
        m.wf(),
        m.stable_pressed,
        !m.last_raw_pressed,
        !m.long_already_reported,
        elapsed(now, m.last_raw_change_ms) >= DEBOUNCE_MS,
        elapsed(now, m.pressed_since_ms->0) < LONG_PRESS_MS,
    ensures
        m.poll(now, false) == (ButtonModel {
            stable_pressed: false,
            pressed_since_ms: None,
            ..m
        }, Some(ButtonEvent::ShortPress)),
{
}

/// A press held for the long press time is reported as a long press at the
/// first poll that sees it, while the button is still held.
pub proof fn lemma_held_press_reports_long_press(m: ButtonModel, now: u32)
    requires
        m.wf(),
        m.stable_pressed,
        m.last_raw_pressed,
        !m.long_already_reported,
        elapsed(now, m.pressed_since_ms->0) >= LONG_PRESS_MS,
    ensures
        m.poll(now, true) == (ButtonModel { long_already_reported: true, ..m }, Some(
            ButtonEvent::LongPress,
        )),
{
}

/// A raw level that has been steady for the debounce time becomes the
/// stable level at the next poll that sees it.
pub proof fn lemma_steady_level_is_adopted(m: ButtonModel, now: u32)
    requires
        m.wf(),
        elapsed(now, m.last_raw_change_ms) >= DEBOUNCE_MS,
    ensures
        m.poll(now, m.last_raw_pressed).0.stable_pressed == m.last_raw_pressed,
{
}

/// Polling keeps the button state well formed.
pub proof fn lemma_poll_keeps_wf(m: ButtonModel, now: u32, raw: bool)
    requires
        m.wf(),
    ensures
        m.poll(now, raw).0.wf(),
{
}

/// The stable level changes only at a poll that comes at least the debounce
/// time after the last change of the raw level, and it then takes that raw
/// level.
pub proof fn lemma_stable_flips_only_after_debounce(m: ButtonModel, now: u32, raw: bool)
    requires
        m.wf(),
    ensures
        ({
            let post = m.poll(now, raw).0;
            post.stable_pressed != m.stable_pressed ==> {
                &&& post.stable_pressed == raw
                &&& post.last_raw_change_ms == m.track_raw(now, raw).last_raw_change_ms
                &&& elapsed(now, post.last_raw_change_ms) >= DEBOUNCE_MS
            }
        }),
{
}

/// The number of events reported for the current (or, while released, the
/// last) press after one poll: a new press starts counting from zero.
pub open spec fn press_events_after(m: ButtonModel, count: nat, now: u32, raw: bool) -> nat {
    let (post, ev) = m.poll(now, raw);
    let base = if post.stable_pressed && !m.stable_pressed {
        0nat
    } else {
        count
    };
    base + if ev is Some {
        1nat
    } else {
        0nat
    }
}

/// The button state and the press event count after a series of polls, each
/// a time in milliseconds and a raw level.
pub open spec fn run(m: ButtonModel, count: nat, polls: Seq<(u32, bool)>) -> (ButtonModel, nat)
    decreases polls.len(),
{
    if polls.len() == 0 {
        (m, count)
    } else {
        let (m1, c1) = run(m, count, polls.drop_last());
        let (now, raw) = polls.last();
        (m1.poll(now, raw).0, press_events_after(m1, c1, now, raw))
    }
}

/// The state of a new button created at `now_ms`.
pub open spec fn new_button(now_ms: u32) -> ButtonModel {
    ButtonModel {
        last_raw_pressed: false,
        stable_pressed: false,
        last_raw_change_ms: now_ms,
        pressed_since_ms: None,
        long_already_reported: false,
        debounce_ms: DEBOUNCE_MS,
        long_press_ms: LONG_PRESS_MS,
    }
}

/// While a press is held, its event count says whether its long press was
/// reported; no press has more than one event.
pub open spec fn press_count_ok(m: ButtonModel, count: nat) -> bool {
    &&& count <= 1
    &&& m.stable_pressed ==> count == if m.long_already_reported {
        1nat
    } else {
        0nat
    }
}

proof fn lemma_press_count_step(m: ButtonModel, count: nat, now: u32, raw: bool)
    requires
        m.wf(),
        press_count_ok(m, count),
    ensures
        press_count_ok(m.poll(now, raw).0, press_events_after(m, count, now, raw)),
{
}

proof fn lemma_run_keeps_counts(m: ButtonModel, count: nat, polls: Seq<(u32, bool)>)
    requires
        m.wf(),
        press_count_ok(m, count),
    ensures
        run(m, count, polls).0.wf(),
        press_count_ok(run(m, count, polls).0, run(m, count, polls).1),
    decreases polls.len(),
{
    if polls.len() > 0 {
        lemma_run_keeps_counts(m, count, polls.drop_last());
        let (m1, c1) = run(m, count, polls.drop_last());
        let (now, raw) = polls.last();
        lemma_press_count_step(m1, c1, now, raw);
    }
}

/// Over any series of polls of a new button, each press yields at most one
/// event: a long press while it is held or a short press when it is released,
/// never both and never one of them twice.
pub proof fn lemma_one_event_per_press(now_ms: u32, polls: Seq<(u32, bool)>)
    ensures
        run(new_button(now_ms), 0, polls).1 <= 1,
        run(new_button(now_ms), 0, polls).0.wf(),
{
    lemma_run_keeps_counts(new_button(now_ms), 0, polls);
}

/// A push button read through a debouncer that turns presses into short and
/// long press events.
pub struct DebouncedButton {
    last_raw_pressed: bool,
    stable_pressed: bool,
    last_raw_change_ms: u32,
    pressed_since_ms: Option<u32>,
    long_already_reported: bool,
    debounce_ms: u32,
    long_press_ms: u32,
}

impl View for DebouncedButton {
    type V = ButtonModel;

    closed spec fn view(&self) -> ButtonModel {
        ButtonModel {
            last_raw_pressed: self.last_raw_pressed,
            stable_pressed: self.stable_pressed,
            last_raw_change_ms: self.last_raw_change_ms,
            pressed_since_ms: self.pressed_since_ms,
            long_already_reported: self.long_already_reported,
            debounce_ms: self.debounce_ms,
            long_press_ms: self.long_press_ms,
        }
    }
}

fn elapsed_ms(now: u32, then: u32) -> (r: u32)
    ensures
        r == elapsed(now, then),
{
    now.wrapping_sub(then)
}

impl DebouncedButton {
    /// The button state is always well formed.
    #[verifier::type_invariant]
    spec fn button_wf(self) -> bool {
        self@.wf()
    }

    /// A released button whose debounce timer starts at `now_ms`.
    pub fn new(now_ms: u32) -> (b: Self)
        ensures
            b@ == new_button(now_ms),
            b@.wf(),
    {
        DebouncedButton {
            last_raw_pressed: false,
            stable_pressed: false,
            last_raw_change_ms: now_ms,
            pressed_since_ms: None,
            long_already_reported: false,
            debounce_ms: DEBOUNCE_MS,
            long_press_ms: LONG_PRESS_MS,
        }
    }

    /// Feeds one sample of the raw button level taken at `now_ms` and returns
    /// the event it completes, if any.
    pub fn poll(&mut self, now_ms: u32, raw_pressed: bool) -> (ev: Option<ButtonEvent>)
        ensures
            (final(self)@, ev) == old(self)@.poll(now_ms, raw_pressed),
            final(self)@.wf(),
    {
        proof {
            use_type_invariant(&*self);
        }
        let mut last_raw_pressed = self.last_raw_pressed;
        let mut last_raw_change_ms = self.last_raw_change_ms;
        let mut stable_pressed = self.stable_pressed;
        let mut pressed_since_ms = self.pressed_since_ms;
        let mut long_already_reported = self.long_already_reported;
        let debounce_ms = self.debounce_ms;
        let long_press_ms = self.long_press_ms;
        let mut event: Option<ButtonEvent> = None;

        if raw_pressed != last_raw_pressed {
            last_raw_pressed = raw_pressed;
            last_raw_change_ms = now_ms;
        }
        let mut settled_release_reported = false;
        if elapsed_ms(now_ms, last_raw_change_ms) >= debounce_ms && stable_pressed
            != last_raw_pressed {
            stable_pressed = last_raw_pressed;
            if stable_pressed {
                pressed_since_ms = Some(now_ms);
                long_already_reported = false;
            } else if let Some(start) = pressed_since_ms {
                pressed_since_ms = None;
                let held_ms = elapsed_ms(now_ms, start);
                if held_ms < long_press_ms && !long_already_reported {
                    event = Some(ButtonEvent::ShortPress);
                    settled_release_reported = true;
                }
            }
        }
        if !settled_release_reported && stable_pressed && !long_already_reported {
            if let Some(start) = pressed_since_ms {
                if elapsed_ms(now_ms, start) >= long_press_ms {
                    long_already_reported = true;
                    event = Some(ButtonEvent::LongPress);
                }
            }
        }
        *self = DebouncedButton {
            last_raw_pressed,
            stable_pressed,
            last_raw_change_ms,
            pressed_since_ms,
            long_already_reported,
            debounce_ms,
            long_press_ms,
        };
        event
    }
}

} // verus!
