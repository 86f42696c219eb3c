//! The RGB status LED: which colour shows which state.

use vstd::prelude::*;

use crate::control::{IdleAction, Outcome, MOUNT_RETRY_MS};
use crate::hw::{check, HwError, HwOp};

verus! {

/// What the LED shows.
#[derive(Debug, Clone, Copy, PartialEq, Eq, Structural)]
pub enum LedColor {
    Off,
    Rgb { r: u8, g: u8, b: u8 },
}

/// Blue, for an SD card that is not ready.
pub open spec fn sd_error_blue() -> LedColor {
    LedColor::Rgb { r: 0, g: 0, b: 48 }
}

/// Yellow, for an error.
pub open spec fn error_yellow_color() -> LedColor {
    LedColor::Rgb { r: 48, g: 32, b: 0 }
}

/// The colour while an action runs: green while recording, red while playing.
pub open spec fn action_color(action: IdleAction) -> LedColor {
    match action {
        IdleAction::Record => LedColor::Rgb { r: 0, g: 64, b: 0 },
        IdleAction::Play => LedColor::Rgb { r: 64, g: 0, b: 0 },
    }
}

/// The status LED and the colour it currently shows.
pub struct StatusLed {
    color: LedColor,
}

impl View for StatusLed {
    type V = LedColor;

    closed spec fn view(&self) -> LedColor {
        self.color
    }
}

impl StatusLed {
    /// The LED after the native initialisation reported `code`: switched off
    /// when the code is zero.
    pub fn init(code: i32) -> (r: Result<StatusLed, HwError>)
        ensures
            code == 0 <==> r is Ok,
            r is Ok ==> r->Ok_0@ == LedColor::Off,
            r is Err ==> r->Err_0 == (HwError { op: HwOp::LedInit, code }),
    {
        match check(code, HwOp::LedInit) {
            Ok(()) => Ok(StatusLed { color: LedColor::Off }),
            Err(e) => Err(e),
        }
    }

    /// The colour the LED shows.
    pub fn color(&self) -> (c: LedColor)
        ensures
            c == self@,
    {
        self.color
    }

    /// Idle: the LED is off.
    pub fn idle(&mut self)
        ensures
            final(self)@ == LedColor::Off,
    {
        self.color = LedColor::Off;
    }

    /// Recording: green.
    pub fn recording(&mut self)
        ensures
            final(self)@ == (LedColor::Rgb { r: 0, g: 64, b: 0 }),
    {
        self.color = LedColor::Rgb { r: 0, g: 64, b: 0 };
    }

    /// Playing: red.
    pub fn playing(&mut self)
        ensures
            final(self)@ == (LedColor::Rgb { r: 64, g: 0, b: 0 }),
    {
        self.color = LedColor::Rgb { r: 64, g: 0, b: 0 };
    }

    /// An error while recording, playing or finding a file: yellow.
    pub fn error_yellow(&mut self)
        ensures
            final(self)@ == (LedColor::Rgb { r: 48, g: 32, b: 0 }),
    {
        self.color = LedColor::Rgb { r: 48, g: 32, b: 0 };
    }

    /// One SD error signal: three blue flashes of 150 ms, each followed by
    /// 150 ms off. Each step is a colour and how long it stays; the LED is
    /// off afterwards.
    pub fn blink_sd_error_once(&mut self) -> (steps: Vec<(LedColor, u32)>)
        ensures
            steps@ == seq![
                (sd_error_blue(), 150u32),
                (LedColor::Off, 150u32),
                (sd_error_blue(), 150u32),
                (LedColor::Off, 150u32),
                (sd_error_blue(), 150u32),
                (LedColor::Off, 150u32),
            ],
            final(self)@ == LedColor::Off,
    {
        let mut steps: Vec<(LedColor, u32)> = Vec::new();
        let mut k: usize = 0;
        while k < 3
            invariant
                k <= 3,
                steps@.len() == 2 * k,
                forall|i: int|
                    0 <= i < 2 * k ==> #[trigger] steps@[i] == (if i % 2 == 0 {
                        (sd_error_blue(), 150u32)
                    } else {
                        (LedColor::Off, 150u32)
                    }),
            decreases 3 - k,
        {
            steps.push((LedColor::Rgb { r: 0, g: 0, b: 48 }, 150));
            steps.push((LedColor::Off, 150));
            k = k + 1;
        }
        self.color = LedColor::Off;
        assert(steps@ =~= seq![
            (sd_error_blue(), 150u32),
            (LedColor::Off, 150u32),
            (sd_error_blue(), 150u32),
            (LedColor::Off, 150u32),
            (sd_error_blue(), 150u32),
            (LedColor::Off, 150u32),
        ]);
        steps
    }
    /// Shows that an action starts: green for a recording, red for playback.
    pub fn start(&mut self, action: IdleAction)
        ensures
            final(self)@ == action_color(action),
    {
        match action {
            IdleAction::Record => self.recording(),
            IdleAction::Play => self.playing(),
        }
    }

    /// Shows how an action ended and returns to idle: each step is a colour
    /// and how long it stays. A completed action switches the LED off at
    /// once; a failed recording or playback shows yellow for 700 ms, a
    /// missing WAV file yellow for 500 ms, before the LED goes off.
    pub fn finish(&mut self, outcome: Outcome) -> (steps: Vec<(LedColor, u32)>)
        ensures
            outcome == Outcome::Done ==> steps@ == seq![(LedColor::Off, 0u32)],
            outcome == Outcome::Failed ==> steps@ == seq![
                (error_yellow_color(), 700u32),
                (LedColor::Off, 0u32),
            ],
            outcome == Outcome::NoWavFile ==> steps@ == seq![
                (error_yellow_color(), 500u32),
                (LedColor::Off, 0u32),
            ],
            final(self)@ == LedColor::Off,
    {
        let mut steps: Vec<(LedColor, u32)> = Vec::new();
        match outcome {
            Outcome::Done => {},
            Outcome::Failed => {
                self.error_yellow();
                steps.push((self.color(), 700));
            },
            Outcome::NoWavFile => {
                self.error_yellow();
                steps.push((self.color(), 500));
            },
        }
        self.idle();
        steps.push((self.color(), 0));
        steps
    }

    /// The signal for an SD card that could not be mounted, before the next
    /// attempt: three blue flashes, then the LED stays off for the 2 s
    /// until the retry.
    pub fn sd_mount_failed(&mut self) -> (steps: Vec<(LedColor, u32)>)
        ensures
            steps@ == seq![
                (sd_error_blue(), 150u32),
                (LedColor::Off, 150u32),
                (sd_error_blue(), 150u32),
                (LedColor::Off, 150u32),
                (sd_error_blue(), 150u32),
                (LedColor::Off, 150u32),
                (LedColor::Off, MOUNT_RETRY_MS),
            ],
            final(self)@ == LedColor::Off,
    {
        let mut steps = self.blink_sd_error_once();
        steps.push((LedColor::Off, MOUNT_RETRY_MS));
        steps
    }
}

} // verus!
