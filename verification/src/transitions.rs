//! Kinds of screen / scene transitions.

use vstd::prelude::*;

verus! {

/// Visual transition style between backgrounds or scenes.
#[derive(Debug, Clone, Copy, PartialEq, Eq, Structural)]
pub enum TransitionKind {
    /// No visual transition (instant cut).
    Cut,
    /// Fade through black (or solid color).
    Fade,
    /// Cross-dissolve between images.
    Dissolve,
    /// Directional wipe.
    Wipe,
    /// Sprite / camera move (position lerp).
    Move,
}

impl Default for TransitionKind {
    fn default() -> (k: Self)
        ensures
            k == TransitionKind::Cut,
    {
        TransitionKind::Cut
    }
}

/// Wipe direction when using [`TransitionKind::Wipe`].
#[derive(Debug, Clone, Copy, PartialEq, Eq, Structural)]
pub enum WipeDirection {
    /// Left to right.
    LeftToRight,
    /// Right to left.
    RightToLeft,
    /// Top to bottom.
    TopToBottom,
    /// Bottom to top.
    BottomToTop,
}

impl Default for WipeDirection {
    fn default() -> (d: Self)
        ensures
            d == WipeDirection::LeftToRight,
    {
        WipeDirection::LeftToRight
    }
}

} // verus!
