//! Errors of external story commands and logic calls, and the story plugin
//! handle.

use vstd::prelude::*;

use crate::strings::owned;

verus! {

/// Error returned by a command host.
#[derive(Debug, Clone)]
pub struct StoryCommandError {
    /// Human message.
    pub message: String,
}

impl StoryCommandError {
    /// Construct from a message.
    pub fn new(message: &str) -> (e: Self)
        ensures
            e.message@ == message@,
    {
        StoryCommandError { message: owned(message) }
    }

    /// The displayed text: the message itself.
    pub fn to_text(&self) -> (s: String)
        ensures
            s@ == self.message@,
    {
        owned(self.message.as_str())
    }
}

/// Error calling a logic unit from classic story host code.
#[derive(Debug, Clone)]
pub struct Vs3BridgeError {
    /// Message.
    pub message: String,
}

impl Vs3BridgeError {
    /// Construct from a message.
    pub fn new(message: &str) -> (e: Self)
        ensures
            e.message@ == message@,
    {
        Vs3BridgeError { message: owned(message) }
    }

    /// The displayed text: the message itself.
    pub fn to_text(&self) -> (s: String)
        ensures
            s@ == self.message@,
    {
        owned(self.message.as_str())
    }
}

/// Registers story player / session ticking with an application.
#[derive(Debug, Clone, Copy)]
pub struct StoryPlugin;

impl Default for StoryPlugin {
    fn default() -> (p: Self) {
        StoryPlugin
    }
}

impl StoryPlugin {
    /// The plugin's registered name.
    pub fn name(&self) -> (s: &'static str)
        ensures
            s@ == "velvet.story"@,
    {
        "velvet.story"
    }
}

} // verus!
