//! The three single-use powerups a player can hold.

use vstd::prelude::*;

verus! {

/// A powerup held by a player. A player holds at most one; landing on a
/// powerup cell overwrites whatever was held before, and using a powerup
/// clears the slot.
#[derive(Clone, Copy, Debug, PartialEq, Eq, Structural)]
pub enum PowerType {
    /// Doubles the next ladder climb; an overshoot is clamped to the last
    /// cell and wins.
    Escalator,
    /// Cancels the next snake slide; the player stays on the snake's start.
    Antivenom,
    /// Doubles the next die roll, even if the doubled move is then rejected.
    Double,
}

impl PowerType {
    /// The single letter that stands for this powerup in a rendered cell.
    pub open spec fn spec_label(self) -> char {
        match self {
            PowerType::Escalator => 'e',
            PowerType::Antivenom => 'a',
            PowerType::Double => 'd',
        }
    }

    /// The one-character label of this powerup, as shown on the board.
    pub fn label(&self) -> (r: String)
        ensures
            r@ =~= seq![self.spec_label()],
    {
        proof {
            reveal_strlit("e");
            reveal_strlit("a");
            reveal_strlit("d");
        }
        match self {
            PowerType::Escalator => String::from_str("e"),
            PowerType::Antivenom => String::from_str("a"),
            PowerType::Double => String::from_str("d"),
        }
    }
}

} // verus!
