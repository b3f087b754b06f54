use vstd::prelude::*;

use crate::suit::Suit;

verus! {

/// The label of an Ace or a face card.
#[derive(Debug, Copy, Clone, PartialEq, Eq, Structural)]
pub enum CardFace {
    A,
    J,
    Q,
    K,
}

/// A playing card: its rank (1 to 14), the label of an Ace or face card
/// (`None` for number cards) and its suit.
#[derive(Debug, Copy, Clone)]
pub struct Card {
    pub val: u32,
    pub face: Option<CardFace>,
    pub suit: Suit,
}

/// The label that belongs to a rank: 1 is the Ace, 11 to 13 the Jack, Queen
/// and King, every other rank a number card.
pub open spec fn face_of(val: u32) -> Option<CardFace> {
    if val == 1 {
        Some(CardFace::A)
    } else if val == 11 {
        Some(CardFace::J)
    } else if val == 12 {
        Some(CardFace::Q)
    } else if val == 13 {
        Some(CardFace::K)
    } else {
        None
    }
}

impl Card {
    /// A card is well formed when its rank lies in 1 to 14.
    pub open spec fn valid(self) -> bool {
        1 <= self.val <= 14
    }

    pub open spec fn is_ace(self) -> bool {
        self.face == Some(CardFace::A)
    }

    /// What the card counts for when every Ace counts as 1: Aces 1, the
    /// other face cards 10, number cards their rank.
    pub open spec fn min_points(self) -> nat {
        match self.face {
            Some(CardFace::A) => 1,
            Some(_) => 10,
            None => self.val as nat,
        }
    }

    pub fn new(val: u32, face: Option<CardFace>, suit: Suit) -> (r: Card)
        ensures
            r.val == val,
            r.face == face,
            r.suit == suit,
    {
        Card { val, face, suit }
    }
}

} // verus!
