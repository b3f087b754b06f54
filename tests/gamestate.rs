use blackjack::bank::{BankHistory, GameBank};
use blackjack::gamestate::GameState;
use blackjack::settings::GameSettings;

#[test]
fn fresh_state_cannot_start() {
    let s = GameState::new();
    assert!(!s.can_start());
    assert!(s.settings().is_none());
    assert_eq!(s.bank.get_balance(), 1000);
}

#[test]
fn confirmed_settings_can_start_when_affordable() {
    let mut s = GameState::new();
    s.confirm_settings(2, 4, 250);
    assert!(s.can_start());
    assert_eq!(s.settings(), Some(GameSettings { deck_count: 2, hand_count: 4 }));
    assert_eq!(s.bank.cur_bet, 250);
    s.confirm_settings(2, 5, 250);
    assert!(!s.can_start());
    s.cancel_settings();
    assert!(!s.can_start());
}

#[test]
fn choices_are_bounded_by_the_balance() {
    let mut s = GameState::new();
    assert_eq!(s.max_hands(), 7);
    assert!(GameState::valid_deck_count(1));
    assert!(GameState::valid_deck_count(16));
    assert!(!GameState::valid_deck_count(0));
    assert!(!GameState::valid_deck_count(17));
    assert!(s.valid_hand_count(7));
    assert!(!s.valid_hand_count(0));
    assert!(!s.valid_hand_count(8));
    assert!(s.valid_bet(50, 7));
    assert!(!s.valid_bet(49, 1));
    assert!(!s.valid_bet(200, 7));
    assert!(!s.needs_reset());
    s.bank.cur_bet = 960;
    s.bank.buy(1);
    assert_eq!(s.bank.get_balance(), 40);
    assert!(s.needs_reset());
    assert_eq!(s.max_hands(), 0);
    s.bank = GameBank::from_parts(120, 50, BankHistory::from_parts(0, 0, 0, 0, Vec::new()));
    assert_eq!(s.max_hands(), 2);
}

#[test]
fn a_round_of_betting() {
    let mut s = GameState::new();
    s.confirm_settings(1, 2, 100);
    let spare = s.begin_play();
    assert_eq!(s.bank.get_balance(), 800);
    assert_eq!(spare, 8);
    let won = s.end_play(3 + 8, 1);
    assert_eq!(won, 550);
    assert_eq!(s.bank.get_balance(), 1250);
    assert_eq!(s.bank.history().hands_bought(), 3);
    assert_eq!(s.bank.history().total_spent(), 300);
    assert_eq!(s.bank.history().total_earned(), 550);
}

#[test]
fn a_round_without_winnings() {
    let mut s = GameState::new();
    s.confirm_settings(1, 1, 50);
    s.begin_play();
    assert_eq!(s.end_play(0, 0), 0);
    assert_eq!(s.bank.get_balance(), 950);
    assert_eq!(s.bank.history().recent_transactions().len(), 1);
}
