//! Settings shared by the player's scenes.

use vstd::prelude::*;

verus! {

/// The colour of the challenge-mode badge.
#[derive(Clone, Copy, Debug, PartialEq, Eq, Structural)]
pub enum ChallengeModeColor {
    White,
    Green,
    Blue,
    Red,
    Golden,
    Rainbow,
}

/// How a scroll area keeps its content inside its bounds.
#[derive(Clone, Copy, Debug, PartialEq, Eq, Structural)]
pub enum ClipType {
    Unclipped,
    Scissor,
    Clip,
}

/// A beat position `i + n / d`, as charts write it.
#[derive(Clone, Copy, Debug, PartialEq, Eq, Structural)]
pub struct Triple(pub i32, pub u32, pub u32);

impl Default for Triple {
    /// The first beat: `0 + 0 / 1`.
    fn default() -> (t: Self)
        ensures
            t == Triple(0, 0, 1),
    {
        Triple(0, 0, 1)
    }
}

} // verus!
