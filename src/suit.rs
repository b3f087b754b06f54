use vstd::prelude::*;

verus! {

/// The four suits of a standard deck.
#[derive(Debug, Copy, Clone, PartialEq, Eq, Structural)]
pub enum Suit {
    Spades,
    Hearts,
    Diamonds,
    Clubs,
}

/// The suit that stands at position `i % 4` of the cycle
/// Spades, Hearts, Diamonds, Clubs.
pub open spec fn suit_at(i: nat) -> Suit {
    let r = i % 4;
    if r == 0 {
        Suit::Spades
    } else if r == 1 {
        Suit::Hearts
    } else if r == 2 {
        Suit::Diamonds
    } else {
        Suit::Clubs
    }
}

impl Suit {
    /// The suit for `val`, counted modulo four.
    pub fn from_val(val: usize) -> (r: Suit)
        ensures
            r == suit_at(val as nat),
    {
        match val % 4 {
            0 => Suit::Spades,
            1 => Suit::Hearts,
            2 => Suit::Diamonds,
            _ => Suit::Clubs,
        }
    }
}

} // verus!
