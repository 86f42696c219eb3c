//! What the device starts when the button is pressed while it is idle.

use vstd::prelude::*;

use crate::button::ButtonEvent;

verus! {

/// What an idle device does on a button event.
#[derive(Debug, Clone, Copy, PartialEq, Eq, Structural)]
pub enum IdleAction {
    /// Record a new file.
    Record,
    /// Play the first WAV file.
    Play,
}

/// How an action ended.
#[derive(Debug, Clone, Copy, PartialEq, Eq, Structural)]
pub enum Outcome {
    /// It completed.
    Done,
    /// Recording or playback failed.
    Failed,
    /// There was no WAV file to play.
    NoWavFile,
}

/// A short press starts a recording, a long press starts playback.
pub fn idle_action(event: ButtonEvent) -> (a: IdleAction)
    ensures
        event == ButtonEvent::ShortPress ==> a == IdleAction::Record,
        event == ButtonEvent::LongPress ==> a == IdleAction::Play,
{
    match event {
        ButtonEvent::ShortPress => IdleAction::Record,
        ButtonEvent::LongPress => IdleAction::Play,
    }
}

/// Milliseconds between two attempts to mount the SD card.
pub const MOUNT_RETRY_MS: u32 = 2000;

} // verus!
