use blackjack::card::{Card, CardFace};
use blackjack::deck::{Deck, Pile};
use blackjack::game::{play_dealer, settle, Game, Round};
use blackjack::hand::Hand;
use blackjack::settings::GameSettings;
use blackjack::suit::Suit;

fn card(val: u32) -> Card {
    let face = match val {
        1 => Some(CardFace::A),
        11 => Some(CardFace::J),
        12 => Some(CardFace::Q),
        13 => Some(CardFace::K),
        _ => None,
    };
    Card::new(val, face, Suit::Diamonds)
}

fn make_hand(vals: &[u32]) -> Hand {
    let mut h = Hand::new();
    for v in vals {
        h.give_card(Some(card(*v)));
    }
    h
}

/// A one-deck `Deck` whose draw pile deals `top` first (in that order),
/// padded below with other cards to 52.
fn rigged_deck(top: &[u32]) -> Deck {
    let mut cards: Vec<Card> = Vec::new();
    for i in 0..(52 - top.len()) {
        cards.push(card((i % 13) as u32 + 1));
    }
    for v in top.iter().rev() {
        cards.push(card(*v));
    }
    Deck::from_piles(1, Pile::from_cards(cards), Pile::new_empty(1))
}

fn cards_on_table(g: &Game) -> usize {
    g.deck().draw_pile.count()
        + g.deck().discard_pile.count()
        + g.hands().iter().map(|h| h.cards().len()).sum::<usize>()
        + g.dealer().cards().len()
}

#[test]
fn plain_win_pays_two_bets() {
    let dealer = make_hand(&[10, 8]);
    let hands = vec![make_hand(&[10, 13])];
    assert_eq!(settle(&hands, &dealer), 4);
}

#[test]
fn blackjack_win_pays_one_and_a_half_bets() {
    let dealer = make_hand(&[10, 8]);
    let hands = vec![make_hand(&[1, 13])];
    assert_eq!(settle(&hands, &dealer), 3);
}

#[test]
fn doubled_win_pays_four_bets() {
    let dealer = make_hand(&[10, 8]);
    let mut h = make_hand(&[5, 5, 10]);
    h.set_doubled(true);
    assert_eq!(settle(&vec![h], &dealer), 8);
}

#[test]
fn busted_dealer_loses_to_a_legal_fifteen() {
    let dealer = make_hand(&[10, 6, 9]);
    assert_eq!(dealer.true_value(), 0);
    let hands = vec![make_hand(&[10, 5])];
    assert_eq!(settle(&hands, &dealer), 4);
}

#[test]
fn ties_losses_and_busts_pay_nothing() {
    let dealer = make_hand(&[10, 8]);
    let hands = vec![make_hand(&[9, 9]), make_hand(&[10, 7]), make_hand(&[10, 9, 5])];
    assert_eq!(settle(&hands, &dealer), 0);
    let busted_dealer = make_hand(&[10, 9, 5]);
    assert_eq!(settle(&vec![make_hand(&[10, 10, 2])], &busted_dealer), 0);
}

#[test]
fn payouts_add_up_over_hands() {
    let dealer = make_hand(&[10, 8]);
    let mut doubled = make_hand(&[9, 10]);
    doubled.set_doubled(true);
    let hands = vec![make_hand(&[1, 12]), doubled, make_hand(&[10, 10]), make_hand(&[10, 4])];
    assert_eq!(settle(&hands, &dealer), 3 + 8 + 4);
}

#[test]
fn dealer_on_sixteen_draws() {
    let mut dealer = make_hand(&[10, 6]);
    let mut deck = Deck::new(1);
    play_dealer(&mut dealer, &mut deck);
    assert!(dealer.cards().len() >= 3);
    let v = dealer.true_value();
    assert!(v == 0 || v >= 17);
    assert_eq!(deck.draw_pile.count() + dealer.cards().len(), 54);
}

#[test]
fn dealer_on_seventeen_stands() {
    let mut dealer = make_hand(&[10, 7]);
    let mut deck = Deck::new(1);
    play_dealer(&mut dealer, &mut deck);
    assert_eq!(dealer.cards().len(), 2);
    assert_eq!(deck.draw_pile.count(), 52);
}

#[test]
fn dealer_on_soft_seventeen_stands() {
    let mut dealer = make_hand(&[1, 6]);
    let mut deck = Deck::new(1);
    play_dealer(&mut dealer, &mut deck);
    assert_eq!(dealer.cards().len(), 2);
}

#[test]
fn busted_dealer_does_not_draw() {
    let mut dealer = make_hand(&[10, 6, 9]);
    let mut deck = Deck::new(1);
    play_dealer(&mut dealer, &mut deck);
    assert_eq!(dealer.cards().len(), 3);
    assert_eq!(deck.draw_pile.count(), 52);
}

#[test]
fn dealer_draws_until_seventeen() {
    let mut dealer = make_hand(&[2, 3]);
    let draw = Pile::from_cards(vec![card(10), card(4), card(2), card(5)]);
    let mut deck = Deck::from_piles(1, draw, Pile::new_empty(1));
    play_dealer(&mut dealer, &mut deck);
    // 5 -> 10 -> 12 -> 16 -> 26: busted after the fourth card.
    assert_eq!(dealer.cards().len(), 6);
    assert_eq!(dealer.true_value(), 0);
    assert!(deck.is_empty());
}

#[test]
fn new_game_sets_up_the_table() {
    let g = Game::new(&GameSettings { deck_count: 2, hand_count: 3 });
    assert_eq!(g.hands().len(), 3);
    assert_eq!(g.deck().size(), 2);
    assert_eq!(cards_on_table(&g), 104);
    assert!(g.dealer().cards().is_empty());
}

#[test]
fn update_settings_rebuilds_what_changed() {
    let mut g = Game::new(&GameSettings { deck_count: 1, hand_count: 2 });
    g.update_settings(&GameSettings { deck_count: 3, hand_count: 5 });
    assert_eq!(g.deck().size(), 3);
    assert_eq!(g.hands().len(), 5);
    assert_eq!(cards_on_table(&g), 156);
}

#[test]
fn split_then_stand_on_both_hands() {
    // player 7, dealer 10, player 7, dealer 8, then 2 for the first split
    // hand and 3 for the second.
    let mut g = Game::with_deck(rigged_deck(&[7, 10, 7, 8, 2, 3]), 1);
    let mut round = g.start_round(1);
    assert!(!round.natural);
    assert_eq!(round.index, 0);
    assert!(g.allows(&round, 'l'));
    g.player_step(&mut round, 'l');
    assert_eq!(g.hands().len(), 2);
    assert_eq!(round.spare_hands, 0);
    assert_eq!(round.index, 0);
    assert_eq!(g.hands()[0].value(), vec![9]);
    assert_eq!(g.hands()[1].value(), vec![10]);
    assert!(!g.allows(&round, 'd'));
    g.player_step(&mut round, 's');
    assert_eq!(round.index, 1);
    g.player_step(&mut round, 's');
    assert_eq!(round.index, 2);
    assert!(!g.awaiting_input(&round));
    let payout = g.settle_round(&round);
    assert_eq!(payout, 0);
    assert_eq!(g.dealer().true_value(), 18);
    let bought = g.end_round(round);
    assert_eq!(bought, 1);
    assert_eq!(g.hands().len(), 1);
    assert!(g.hands()[0].cards().is_empty());
    assert_eq!(cards_on_table(&g), 52);
    assert_eq!(g.deck().discard_pile.count(), 6);
}

#[test]
fn hit_until_bust_ends_the_hand() {
    let mut g = Game::with_deck(rigged_deck(&[10, 10, 6, 7, 9]), 1);
    let mut round = g.start_round(0);
    g.player_step(&mut round, 'h');
    assert!(g.hands()[0].is_busted());
    assert_eq!(round.index, 1);
    let payout = g.settle_round(&round);
    assert_eq!(payout, 0);
    assert_eq!(g.end_round(round), 0);
}

#[test]
fn hit_below_twenty_one_keeps_the_turn() {
    let mut g = Game::with_deck(rigged_deck(&[2, 10, 3, 7, 4]), 1);
    let mut round = g.start_round(0);
    g.player_step(&mut round, 'H');
    assert_eq!(g.hands()[0].true_value(), 9);
    assert_eq!(round.index, 0);
}

#[test]
fn double_draws_one_card_and_pays_four_bets() {
    let mut g = Game::with_deck(rigged_deck(&[5, 10, 6, 8, 9]), 1);
    let mut round = g.start_round(2);
    assert!(g.allows(&round, 'd'));
    assert!(!g.allows(&round, 'l'));
    assert!(!g.allows(&round, 'x'));
    g.player_step(&mut round, 'd');
    assert!(g.hands()[0].is_doubled());
    assert_eq!(g.hands()[0].true_value(), 20);
    assert_eq!(round.index, 1);
    assert_eq!(round.spare_hands, 1);
    let payout = g.settle_round(&round);
    assert_eq!(payout, 8);
    assert_eq!(g.end_round(round), 1);
    assert!(!g.hands()[0].is_doubled());
}

#[test]
fn player_blackjack_is_skipped_and_paid() {
    // hand 1 is a blackjack, hand 2 is 10 + 9, dealer 10 + 8
    let mut g = Game::with_deck(rigged_deck(&[1, 10, 10, 13, 9, 8]), 2);
    let mut round = g.start_round(0);
    assert_eq!(round.index, 1);
    g.player_step(&mut round, 's');
    assert_eq!(round.index, 2);
    assert_eq!(g.settle_round(&round), 3 + 4);
}

#[test]
fn dealer_blackjack_pushes_player_blackjacks() {
    // hand 1: A + K (blackjack), hand 2: 10 + 9, dealer: A + Q
    let mut g = Game::with_deck(rigged_deck(&[1, 10, 1, 13, 9, 12]), 2);
    assert_eq!(g.hands().len(), 2);
    let round = g.start_round(3);
    assert!(round.natural);
    assert_eq!(round.pushes, 1);
    assert!(!g.awaiting_input(&round));
    let (natural, pushes) = g.dealer_blackjack();
    assert!(natural);
    assert_eq!(pushes, 1);
    assert_eq!(g.settle_round(&round), 2);
    assert_eq!(g.end_round(round), 0);
    assert_eq!(cards_on_table(&g), 52);
}

#[test]
fn no_dealer_blackjack_means_no_natural() {
    let mut g = Game::with_deck(rigged_deck(&[1, 10, 13, 9]), 1);
    let round = g.start_round(0);
    assert!(!round.natural);
    assert_eq!(round.pushes, 0);
    assert_eq!(g.dealer_blackjack(), (false, 0));
    assert_eq!(round.index, 1);
}

#[test]
fn handle_play_input_reports_turn_end_and_purchase() {
    let mut g = Game::with_deck(rigged_deck(&[5, 10, 6, 8]), 1);
    let _round: Round = g.start_round(1);
    assert_eq!(g.handle_play_input(0, 's'), (true, false));
    assert_eq!(g.handle_play_input(0, 'l'), (false, true));
    assert_eq!(g.handle_play_input(0, 'q'), (false, false));
    assert_eq!(g.hands()[0].cards().len(), 2);
    assert_eq!(g.handle_play_input(0, 'h'), (false, false));
    assert_eq!(g.hands()[0].cards().len(), 3);
    assert_eq!(g.handle_play_input(0, 'D'), (true, true));
    assert!(g.hands()[0].is_doubled());
}

#[test]
fn next_pending_skips_blackjacks() {
    let mut g = Game::with_deck(rigged_deck(&[1, 1, 10, 10, 13, 12, 8, 9]), 3);
    let _ = g.start_round(0);
    // hands: A+K (blackjack), A+Q (blackjack), 10+8; dealer 10+9
    assert_eq!(g.next_pending(0), 2);
    assert_eq!(g.next_pending(3), 3);
}

#[test]
fn rounds_conserve_cards() {
    let mut g = Game::new(&GameSettings { deck_count: 1, hand_count: 4 });
    for _ in 0..40 {
        let mut round = g.start_round(0);
        let mut steps = 0;
        while g.awaiting_input(&round) && steps < 100 {
            steps += 1;
            let c = if g.hands()[round.index].true_value() < 15 { 'h' } else { 's' };
            g.player_step(&mut round, c);
        }
        g.settle_round(&round);
        assert_eq!(cards_on_table(&g), 52);
        g.end_round(round);
        assert_eq!(g.hands().len(), 4);
        assert_eq!(cards_on_table(&g), 52);
        assert_eq!(g.deck().draw_pile.count() + g.deck().discard_pile.count(), 52);
    }
}
