use vstd::prelude::*;

use crate::bank::GameBank;
use crate::settings::{GameSettings, MAX_DECKS, MAX_HANDS};

verus! {

/// The smallest bet per hand.
pub const MIN_BET: usize = 50;

/// What persists between rounds: the settings last confirmed, if any, and
/// the bank.
pub struct GameState {
    settings: Option<GameSettings>,
    pub bank: GameBank,
}

/// The number of hands a balance can buy at the smallest bet, at most
/// `MAX_HANDS`.
pub open spec fn hands_affordable(balance: usize) -> int {
    if balance / MIN_BET < MAX_HANDS {
        (balance / MIN_BET) as int
    } else {
        MAX_HANDS as int
    }
}

impl GameState {
    pub closed spec fn spec_settings(&self) -> Option<GameSettings> {
        self.settings
    }

    pub closed spec fn spec_bank(&self) -> GameBank {
        self.bank
    }

    /// The settings are there and their hands are affordable at the
    /// current bet.
    pub open spec fn can_start_spec(&self) -> bool {
        match self.spec_settings() {
            Some(s) => s.hand_count * self.spec_bank().bet() <= self.spec_bank().get_balance(),
            None => false,
        }
    }

    /// A state with no settings and a new bank.
    pub fn new() -> (r: GameState)
        ensures
            r.spec_settings() is None,
            r.spec_bank().get_balance() == crate::bank::STARTING_BALANCE,
            r.spec_bank().bet() == 0,
    {
        GameState { settings: None, bank: GameBank::new() }
    }

    /// A state with the settings and bank given.
    pub fn from_parts(settings: Option<GameSettings>, bank: GameBank) -> (r: GameState)
        ensures
            r.spec_settings() == settings,
            r.spec_bank() == bank,
    {
        GameState { settings, bank }
    }

    /// Whether a round can start: settings are there and the bank can pay
    /// for their hands.
    pub fn can_start(&self) -> (r: bool)
        ensures
            r == self.can_start_spec(),
    {
        match &self.settings {
            Some(s) => match s.hand_count.checked_mul(self.bank.get_bet()) {
                Some(cost) => cost <= self.bank.get_balance(),
                None => false,
            },
            None => false,
        }
    }

    /// The settings last confirmed, if any.
    pub fn settings(&self) -> (r: Option<GameSettings>)
        ensures
            r == self.spec_settings(),
    {
        self.settings
    }

    /// The balance cannot pay for a single hand at the smallest bet.
    pub fn needs_reset(&self) -> (r: bool)
        ensures
            r == (self.spec_bank().get_balance() < MIN_BET),
    {
        self.bank.get_balance() < MIN_BET
    }

    /// The most hands the player may choose: as many as the balance pays
    /// for at the smallest bet, at most `MAX_HANDS`.
    pub fn max_hands(&self) -> (r: usize)
        ensures
            r == hands_affordable(self.spec_bank().get_balance()),
    {
        let affordable = self.bank.get_balance() / MIN_BET;
        if affordable < MAX_HANDS {
            affordable
        } else {
            MAX_HANDS
        }
    }

    /// A number of decks may be chosen when it lies in 1 to `MAX_DECKS`.
    pub fn valid_deck_count(decks: usize) -> (r: bool)
        ensures
            r == (1 <= decks <= MAX_DECKS),
    {
        1 <= decks && decks <= MAX_DECKS
    }

    /// A number of hands may be chosen when it lies in 1 to `max_hands()`.
    pub fn valid_hand_count(&self, hands: usize) -> (r: bool)
        ensures
            r == (1 <= hands <= hands_affordable(self.spec_bank().get_balance())),
    {
        1 <= hands && hands <= self.max_hands()
    }

    /// A bet may be chosen when it is at least `MIN_BET` and the balance
    /// pays for `hands` hands at that bet.
    pub fn valid_bet(&self, bet: usize, hands: usize) -> (r: bool)
        ensures
            r == (bet >= MIN_BET && bet * hands <= self.spec_bank().get_balance()),
    {
        if bet < MIN_BET {
            return false;
        }
        match bet.checked_mul(hands) {
            Some(cost) => cost <= self.bank.get_balance(),
            None => false,
        }
    }

    /// Confirms new settings and the bet per hand.
    pub fn confirm_settings(&mut self, deck_count: usize, hand_count: usize, bet: usize)
        ensures
            final(self).spec_settings() == Some(GameSettings { deck_count, hand_count }),
            final(self).spec_bank().bet() == bet,
            final(self).spec_bank().get_balance() == old(self).spec_bank().get_balance(),
            final(self).spec_bank().spec_history() == old(self).spec_bank().spec_history(),
    {
        self.settings = Some(GameSettings { deck_count, hand_count });
        self.bank.set_bet(bet);
    }

    /// Cancels the settings: none are kept.
    pub fn cancel_settings(&mut self)
        ensures
            final(self).spec_settings() is None,
            final(self).spec_bank() == old(self).spec_bank(),
    {
        self.settings = None;
    }

    /// Starts a round's betting: pays for the hands of the settings and
    /// returns how many spare hands the rest of the balance can buy.
    pub fn begin_play(&mut self) -> (r: usize)
        requires
            old(self).spec_settings() matches Some(s) && old(self).spec_bank().can_buy_spec(
                s.hand_count,
            ),
            old(self).spec_bank().bet() > 0,
        ensures
            final(self).spec_settings() == old(self).spec_settings(),
            final(self).spec_bank().get_balance() == old(self).spec_bank().get_balance() - old(self).spec_bank().cost(
                old(self).spec_settings().unwrap().hand_count,
            ),
            final(self).spec_bank().bet() == old(self).spec_bank().bet(),
            r == final(self).spec_bank().get_balance() / final(self).spec_bank().bet(),
    {
        let hands = match &self.settings {
            Some(s) => s.hand_count,
            None => 0,
        };
        self.bank.buy(hands);
        self.bank.get_balance() / self.bank.get_bet()
    }

    /// Ends a round's betting: pays for the `bought` spare hands the round
    /// used, then credits the payout of `halves` half-bets. Returns the
    /// amount credited.
    pub fn end_play(&mut self, halves: usize, bought: usize) -> (r: usize)
        requires
            old(self).spec_bank().can_settle_spec(bought, halves),
        ensures
            final(self).spec_settings() == old(self).spec_settings(),
            final(self).spec_bank().bet() == old(self).spec_bank().bet(),
            r == old(self).spec_bank().payout(halves),
            final(self).spec_bank().get_balance() == old(self).spec_bank().get_balance() - old(self).spec_bank().cost(bought) + r,
    {
        if bought > 0 {
            self.bank.buy(bought);
        } else {
            assert(self.bank.bet() * bought == 0) by (nonlinear_arith)
                requires
                    bought == 0,
            ;
        }
        if halves > 0 {
            self.bank.win(halves)
        } else {
            assert(self.bank.bet() * halves / 2 == 0) by (nonlinear_arith)
                requires
                    halves == 0,
            ;
            0
        }
    }
}

} // verus!
