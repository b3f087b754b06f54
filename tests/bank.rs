use blackjack::bank::{GameBank, TransactionType, HISTORY_LIMIT, STARTING_BALANCE};

#[test]
fn new_bank_starts_with_the_stake() {
    let b = GameBank::new();
    assert_eq!(b.get_balance(), STARTING_BALANCE);
    assert_eq!(b.get_balance(), 1000);
    assert_eq!(b.cur_bet, 0);
    assert_eq!(b.get_resets(), 0);
    assert!(b.history().recent_transactions().is_empty());
}

#[test]
fn buying_two_hands_at_fifty_debits_one_hundred() {
    let mut b = GameBank::new();
    b.cur_bet = 50;
    assert!(b.can_buy(2));
    b.buy(2);
    assert_eq!(b.get_balance(), 900);
    assert_eq!(b.history().total_spent(), 100);
    assert_eq!(b.history().hands_bought(), 2);
    let t = b.history().recent_transactions()[0];
    assert_eq!(t.amount, 100);
    assert_eq!(t.typ, TransactionType::SPEND);
    assert_eq!(t.trans_bal, 900);
}

#[test]
fn winning_one_and_a_half_bets_credits_seventy_five() {
    let mut b = GameBank::new();
    b.cur_bet = 50;
    assert!(b.can_win(3));
    let won = b.win(3);
    assert_eq!(won, 75);
    assert_eq!(b.get_balance(), 1075);
    assert_eq!(b.history().total_earned(), 75);
    let t = b.history().recent_transactions()[0];
    assert_eq!(t.typ, TransactionType::EARN);
    assert_eq!(t.trans_bal, 1075);
}

#[test]
fn odd_payouts_drop_the_fraction() {
    let mut b = GameBank::new();
    b.cur_bet = 55;
    assert_eq!(b.win(3), 82);
    assert_eq!(b.get_balance(), 1082);
}

#[test]
fn history_keeps_the_latest_transactions() {
    let mut b = GameBank::new();
    b.cur_bet = 1;
    for i in 0..300 {
        if i % 2 == 0 {
            b.buy(1);
        } else {
            b.win(2);
        }
        assert!(b.history().recent_transactions().len() <= HISTORY_LIMIT);
    }
    let recent = b.history().recent_transactions();
    assert_eq!(recent.len(), 128);
    assert_eq!(recent.last().unwrap().typ, TransactionType::EARN);
    assert_eq!(recent[0].typ, TransactionType::SPEND);
    assert_eq!(b.history().hands_bought(), 150);
    assert_eq!(b.history().total_spent(), 150);
    assert_eq!(b.history().total_earned(), 150);
    assert_eq!(b.get_balance(), 1000);
}

#[test]
fn reset_restores_the_stake_and_counts() {
    let mut b = GameBank::new();
    b.cur_bet = 100;
    b.buy(7);
    assert_eq!(b.get_balance(), 300);
    b.reset_balance();
    assert_eq!(b.get_balance(), 1000);
    assert_eq!(b.get_resets(), 1);
    let t = *b.history().recent_transactions().last().unwrap();
    assert_eq!(t.typ, TransactionType::RESET);
    assert_eq!(t.amount, 0);
    assert_eq!(t.trans_bal, 1000);
}

#[test]
fn cannot_buy_more_than_the_balance() {
    let mut b = GameBank::new();
    b.cur_bet = 300;
    assert!(b.can_buy(3));
    assert!(!b.can_buy(4));
    assert!(!b.can_buy(usize::MAX));
    assert!(b.can_settle(3, 8));
    assert!(!b.can_settle(4, 0));
}
