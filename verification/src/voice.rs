//! Voice playback states and errors.

use vstd::prelude::*;

verus! {

/// Voice queue errors.
#[derive(Debug, Clone, Copy, PartialEq, Eq, Structural)]
pub enum VoiceError {
    /// Queue is empty when an operation expected a clip.
    Empty,
}

impl VoiceError {
    /// The error's message.
    pub fn message(&self) -> (s: &'static str)
        ensures
            s@ == "voice queue is empty"@,
    {
        "voice queue is empty"
    }
}

/// Playback state of the front clip.
#[derive(Debug, Clone, Copy, PartialEq, Eq, Structural)]
pub enum VoicePlayState {
    /// Nothing playing.
    Idle,
    /// Currently playing.
    Playing,
    /// Finished naturally.
    Finished,
    /// Skipped by user / system.
    Skipped,
}

impl Default for VoicePlayState {
    fn default() -> (s: Self)
        ensures
            s == VoicePlayState::Idle,
    {
        VoicePlayState::Idle
    }
}

} // verus!
