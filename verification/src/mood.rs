//! The creature's visible mood.

use vstd::prelude::*;

verus! {

/// The visible mood. Drives sprite, movement speed and dialogue.
#[derive(Debug, Clone, Copy, PartialEq, Eq, Structural)]
pub enum Mood {
    Happy,
    Energetic,
    Neutral,
    Sleepy,
    Sad,
    Crying,
    /// Provoked — e.g. picked up and thrown around too often.
    Angry,
}

} // verus!
