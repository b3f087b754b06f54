//! A blackjack rules engine: cards and decks, multi-valued hand scoring,
//! the per-hand turn state machine with splitting, the dealer's fixed policy,
//! settlement and a betting ledger.

pub mod bank;
pub mod card;
pub mod deck;
pub mod game;
pub mod gamestate;
pub mod hand;
pub mod settings;
pub mod suit;
pub mod util;
