use blackjack::card::{Card, CardFace};
use blackjack::deck::{Deck, Pile};
use blackjack::hand::Hand;
use blackjack::suit::Suit;

fn rank_counts(cards: &[Card]) -> Vec<usize> {
    let mut counts = vec![0usize; 15];
    for c in cards {
        counts[c.val as usize] += 1;
    }
    counts
}

fn drain(pile: &mut Pile) -> Vec<Card> {
    let mut out = Vec::new();
    while let Some(c) = pile.draw() {
        out.push(c);
    }
    out
}

#[test]
fn suit_cycles_every_four() {
    assert_eq!(Suit::from_val(0), Suit::Spades);
    assert_eq!(Suit::from_val(1), Suit::Hearts);
    assert_eq!(Suit::from_val(2), Suit::Diamonds);
    assert_eq!(Suit::from_val(3), Suit::Clubs);
    assert_eq!(Suit::from_val(4), Suit::Spades);
    assert_eq!(Suit::from_val(7), Suit::Clubs);
}

#[test]
fn full_pile_is_laid_out_in_order() {
    let mut p = Pile::new_full(2);
    assert_eq!(p.count(), 104);
    let mut cards = drain(&mut p);
    cards.reverse();
    assert_eq!(cards[0].val, 1);
    assert!(matches!(cards[0].face, Some(CardFace::A)));
    assert_eq!(cards[0].suit, Suit::Spades);
    assert_eq!(cards[9].val, 10);
    assert!(cards[9].face.is_none());
    assert!(matches!(cards[10].face, Some(CardFace::J)));
    assert!(matches!(cards[11].face, Some(CardFace::Q)));
    assert_eq!(cards[12].val, 13);
    assert!(matches!(cards[12].face, Some(CardFace::K)));
    assert_eq!(cards[13].suit, Suit::Hearts);
    assert_eq!(cards[13].val, 1);
    assert_eq!(cards[51].suit, Suit::Clubs);
    assert_eq!(cards[52].suit, Suit::Spades);
    let counts = rank_counts(&cards);
    for rank in 1..=13 {
        assert_eq!(counts[rank], 8);
    }
    assert_eq!(counts[14], 0);
}

#[test]
fn empty_pile_has_nothing_to_draw() {
    let mut p = Pile::new_empty(3);
    assert_eq!(p.count(), 0);
    assert!(p.draw().is_none());
    p.place(Card::new(5, None, Suit::Hearts));
    assert_eq!(p.count(), 1);
    assert_eq!(p.draw().unwrap().val, 5);
}

#[test]
fn new_deck_holds_every_card_shuffled_in_the_draw_pile() {
    let mut d = Deck::new(2);
    assert_eq!(d.size(), 2);
    assert_eq!(d.discard_pile.count(), 0);
    assert_eq!(d.draw_pile.count(), 104);
    let cards = drain(&mut d.draw_pile);
    let counts = rank_counts(&cards);
    for rank in 1..=13 {
        assert_eq!(counts[rank], 8);
    }
}

#[test]
fn shuffle_keeps_the_same_cards() {
    let mut p = Pile::new_full(1);
    p.shuffle();
    assert_eq!(p.count(), 52);
    let cards = drain(&mut p);
    let counts = rank_counts(&cards);
    for rank in 1..=13 {
        assert_eq!(counts[rank], 4);
    }
}

#[test]
fn draw_takes_the_top_card() {
    let draw = Pile::from_cards(vec![Card::new(2, None, Suit::Spades), Card::new(9, None, Suit::Clubs)]);
    let mut d = Deck::from_piles(1, draw, Pile::new_empty(1));
    let mut h = Hand::new();
    let c = h.draw_from(&mut d);
    assert_eq!(c.val, 9);
    assert_eq!(h.cards().len(), 1);
    assert_eq!(d.draw_pile.count(), 1);
}

#[test]
fn drawing_from_an_empty_draw_pile_reshuffles_the_discards() {
    let discard = Pile::from_cards(vec![Card::new(4, None, Suit::Spades), Card::new(6, None, Suit::Hearts)]);
    let mut d = Deck::from_piles(1, Pile::new_empty(1), discard);
    let mut h = Hand::new();
    let c = h.draw_from(&mut d);
    assert!(c.val == 4 || c.val == 6);
    assert_eq!(d.discard_pile.count(), 0);
    assert_eq!(d.draw_pile.count(), 1);
    let rest = d.draw_pile.draw().unwrap();
    assert_eq!(c.val + rest.val, 10);
}

#[test]
fn discard_hand_moves_cards_last_first() {
    let mut d = Deck::from_piles(1, Pile::new_empty(1), Pile::new_empty(1));
    let mut h = Hand::new();
    h.give_card(Some(Card::new(3, None, Suit::Spades)));
    h.give_card(Some(Card::new(8, None, Suit::Hearts)));
    h.set_doubled(true);
    d.discard_hand(&mut h);
    assert!(h.cards().is_empty());
    assert!(h.is_doubled());
    assert_eq!(d.discard_pile.count(), 2);
    assert_eq!(d.discard_pile.draw().unwrap().val, 3);
    assert_eq!(d.discard_pile.draw().unwrap().val, 8);
}

#[test]
fn reshuffle_moves_discards_under_the_draw_pile() {
    let draw = Pile::from_cards(vec![Card::new(2, None, Suit::Spades)]);
    let discard = Pile::from_cards(vec![Card::new(3, None, Suit::Spades), Card::new(4, None, Suit::Spades)]);
    let mut d = Deck::from_piles(1, draw, discard);
    d.reshuffle();
    assert_eq!(d.discard_pile.count(), 0);
    assert_eq!(d.draw_pile.count(), 3);
    let mut vals: Vec<u32> = drain(&mut d.draw_pile).iter().map(|c| c.val).collect();
    vals.sort();
    assert_eq!(vals, vec![2, 3, 4]);
}

#[test]
fn cards_are_conserved_across_draws_discards_and_reshuffles() {
    let mut d = Deck::new(1);
    let mut hands = vec![Hand::new(), Hand::new(), Hand::new()];
    let total = |d: &Deck, hands: &Vec<Hand>| {
        d.draw_pile.count() + d.discard_pile.count() + hands.iter().map(|h| h.cards().len()).sum::<usize>()
    };
    for step in 0..300usize {
        let i = step % 3;
        if step % 7 == 6 {
            d.discard_hand(&mut hands[i]);
        } else if step % 29 == 28 {
            d.reshuffle();
        } else {
            hands[i].draw_from(&mut d);
        }
        assert_eq!(total(&d, &hands), 52);
    }
    assert!(!d.is_empty());
}
