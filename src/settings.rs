use vstd::prelude::*;

verus! {

/// The number of decks to play with, and the number of hands to buy each
/// round.
#[derive(Debug, Copy, Clone, PartialEq, Eq, Structural)]
pub struct GameSettings {
    pub deck_count: usize,
    pub hand_count: usize,
}

/// The most decks a game may use.
pub const MAX_DECKS: usize = 16;

/// The most hands a player may buy before a round.
pub const MAX_HANDS: usize = 7;

impl GameSettings {
    /// Between 1 and `MAX_DECKS` decks, between 1 and `MAX_HANDS` hands.
    pub open spec fn valid(self) -> bool {
        1 <= self.deck_count <= MAX_DECKS && 1 <= self.hand_count <= MAX_HANDS
    }

    /// Whether the settings are within range.
    pub fn is_valid(&self) -> (r: bool)
        ensures
            r == self.valid(),
    {
        1 <= self.deck_count && self.deck_count <= MAX_DECKS && 1 <= self.hand_count
            && self.hand_count <= MAX_HANDS
    }
}

} // verus!
