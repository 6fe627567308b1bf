//! Per-player state: a board position and an optional held powerup.

use vstd::prelude::*;
use crate::power::PowerType;

verus! {

/// There can be at most 26 players, named `A` through `Z` by position.
pub const MAX_PLAYERS: usize = 26;

/// One player's state: the 1-based cell the player stands on, and the
/// powerup held, if any.
#[derive(Clone, Copy, Debug, PartialEq, Eq)]
pub struct PlayerState {
    pub loc: usize,
    pub powerup: Option<PowerType>,
}

impl PlayerState {
    /// Relocate the player to `loc`.
    pub fn go(&mut self, loc: usize)
        ensures
            final(self).loc == loc,
            final(self).powerup == old(self).powerup,
    {
        self.loc = loc
    }

    /// Grant a powerup, overwriting any held one.
    pub fn set_powerup(&mut self, pt: PowerType)
        ensures
            final(self).loc == old(self).loc,
            final(self).powerup == Some(pt),
    {
        self.powerup = Some(pt)
    }

    /// Turn a die roll into the effective move distance: doubled, and the
    /// `Double` powerup consumed, when the player holds `Double`.
    pub fn use_double(&mut self, die: u8) -> (delta: usize)
        ensures
            final(self).loc == old(self).loc,
            old(self).powerup == Some(PowerType::Double) ==> {
                &&& delta == 2 * die
                &&& final(self).powerup is None
            },
            old(self).powerup != Some(PowerType::Double) ==> {
                &&& delta == die
                &&& final(self).powerup == old(self).powerup
            },
    {
        if matches!(self.powerup, Some(PowerType::Double)) {
            self.powerup = None;
            die as usize * 2
        } else {
            die as usize
        }
    }

    /// Consume an `Escalator` on a ladder whose end is `there`: the player
    /// climbs twice the ladder's distance.
    pub fn use_escalator(&mut self, there: usize)
        requires
            old(self).loc <= there,
            2 * there - old(self).loc <= usize::MAX,
        ensures
            final(self).loc == old(self).loc + 2 * (there - old(self).loc),
            final(self).powerup is None,
    {
        self.loc += 2 * (there - self.loc);
        self.powerup = None
    }

    /// Consume an `Antivenom`: the slot is cleared and the player stays put.
    pub fn use_antivenom(&mut self)
        ensures
            final(self).loc == old(self).loc,
            final(self).powerup is None,
    {
        self.powerup = None
    }
}

/// The letter naming the player at position `pix`: `A` for 0, `B` for 1, ...
pub open spec fn spec_player_name(pix: int) -> char {
    ((('A' as u8) + pix) as u8) as char
}

/// Player names are positional: `A`, `B`, ... up to `Z`.
pub fn player_name(pix: usize) -> (c: char)
    requires
        pix < MAX_PLAYERS,
    ensures
        c == spec_player_name(pix as int),
{
    (('A' as u8) + (pix as u8)) as char
}

} // verus!
