use vstd::prelude::*;

use crate::card::Card;
use crate::deck::{all_valid, Deck};
use crate::hand::{
    blackjack, fits, lemma_aces_bounded, lemma_legal_count, lemma_valid_fits, min_total, splittable,
    true_total, Hand,
};
use crate::settings::{GameSettings, MAX_DECKS, MAX_HANDS};

verus! {

/// The number of cards held by `hands` together.
pub open spec fn held(hands: Seq<Hand>) -> nat
    decreases hands.len(),
{
    if hands.len() == 0 {
        0
    } else {
        held(hands.drop_last()) + hands.last()@.len()
    }
}

/// Every hand of `hands` holds only well-formed cards.
pub open spec fn hands_valid(hands: Seq<Hand>) -> bool {
    forall|i: int| 0 <= i < hands.len() ==> all_valid(#[trigger] hands[i]@)
}

/// Every hand of `hands` is empty and not doubled.
pub open spec fn hands_clear(hands: Seq<Hand>) -> bool {
    forall|i: int|
        0 <= i < hands.len() ==> (#[trigger] hands[i])@.len() == 0 && !hands[i].is_doubled()
}

/// Every hand of `hands` holds at least one card.
pub open spec fn hands_nonempty(hands: Seq<Hand>) -> bool {
    forall|i: int| 0 <= i < hands.len() ==> (#[trigger] hands[i])@.len() > 0
}

/// Replacing one hand changes the count by the difference of their sizes.
pub proof fn lemma_held_update(hands: Seq<Hand>, i: int, h: Hand)
    requires
        0 <= i < hands.len(),
    ensures
        held(hands.update(i, h)) == held(hands) - hands[i]@.len() + h@.len(),
    decreases hands.len(),
{
    let u = hands.update(i, h);
    if i == hands.len() - 1 {
        assert(u.drop_last() =~= hands.drop_last());
    } else {
        assert(u.drop_last() =~= hands.drop_last().update(i, h));
        lemma_held_update(hands.drop_last(), i, h);
    }
}

/// Inserting a hand adds its cards to the count.
pub proof fn lemma_held_insert(hands: Seq<Hand>, i: int, h: Hand)
    requires
        0 <= i <= hands.len(),
    ensures
        held(hands.insert(i, h)) == held(hands) + h@.len(),
    decreases hands.len(),
{
    let u = hands.insert(i, h);
    if i == hands.len() {
        assert(u.drop_last() =~= hands);
    } else {
        assert(u.drop_last() =~= hands.drop_last().insert(i, h));
        lemma_held_insert(hands.drop_last(), i, h);
    }
}

/// No single hand holds more cards than all of them together.
pub proof fn lemma_held_bound(hands: Seq<Hand>, i: int)
    requires
        0 <= i < hands.len(),
    ensures
        hands[i]@.len() <= held(hands),
    decreases hands.len(),
{
    if i < hands.len() - 1 {
        lemma_held_bound(hands.drop_last(), i);
    }
}

/// When every hand holds a card, there are no more hands than cards.
pub proof fn lemma_held_nonempty(hands: Seq<Hand>)
    requires
        hands_nonempty(hands),
    ensures
        hands.len() <= held(hands),
    decreases hands.len(),
{
    if hands.len() > 0 {
        assert(hands_nonempty(hands.drop_last())) by {
            assert forall|i: int| 0 <= i < hands.drop_last().len() implies (
            #[trigger] hands.drop_last()[i])@.len() > 0 by {
                assert(hands.drop_last()[i] == hands[i]);
            }
        }
        assert(hands.last() == hands[hands.len() - 1]);
        lemma_held_nonempty(hands.drop_last());
    }
}

/// Empty hands hold no cards.
pub proof fn lemma_held_clear(hands: Seq<Hand>)
    requires
        hands_clear(hands),
    ensures
        held(hands) == 0,
    decreases hands.len(),
{
    if hands.len() > 0 {
        assert(hands_clear(hands.drop_last())) by {
            assert forall|i: int| 0 <= i < hands.drop_last().len() implies (
            #[trigger] hands.drop_last()[i])@.len() == 0 && !hands.drop_last()[i].is_doubled() by {
                assert(hands.drop_last()[i] == hands[i]);
            }
        }
        assert(hands.last() == hands[hands.len() - 1]);
        lemma_held_clear(hands.drop_last());
    }
}

/// The number of blackjacks among `hands`.
pub open spec fn blackjack_count(hands: Seq<Hand>) -> nat
    decreases hands.len(),
{
    if hands.len() == 0 {
        0
    } else {
        blackjack_count(hands.drop_last()) + if blackjack(hands.last()@) {
            1nat
        } else {
            0nat
        }
    }
}

/// What a hand wins against a dealer whose true value is `dealer_value`,
/// in half-bets: nothing unless its true value is strictly higher; then
/// 3 (1.5 bets) for a blackjack, 8 (4 bets) for a doubled hand, 4 (2 bets)
/// otherwise.
pub open spec fn hand_payout(h: Hand, dealer_value: int) -> nat {
    if true_total(h@) > dealer_value {
        if blackjack(h@) {
            3
        } else if h.is_doubled() {
            8
        } else {
            4
        }
    } else {
        0
    }
}

/// What all of `hands` win together, in half-bets.
pub open spec fn payout_total(hands: Seq<Hand>, dealer_value: int) -> nat
    decreases hands.len(),
{
    if hands.len() == 0 {
        0
    } else {
        payout_total(hands.drop_last(), dealer_value) + hand_payout(hands.last(), dealer_value)
    }
}

/// The dealer draws on a legal total below 17, and stands on 17 or more
/// and when busted (true value 0).
pub open spec fn dealer_draws(cards: Seq<Card>) -> bool {
    1 <= true_total(cards) < 17
}

/// The total payout, in half-bets, of the player's `hands` against the
/// `dealer`'s hand.
pub fn settle(hands: &Vec<Hand>, dealer: &Hand) -> (r: usize)
    requires
        hands@.len() <= usize::MAX / 8,
        forall|i: int| 0 <= i < hands@.len() ==> fits(#[trigger] hands@[i]@),
        fits(dealer@),
    ensures
        r == payout_total(hands@, true_total(dealer@)),
{
    let dealer_max = dealer.true_value();
    let mut total: usize = 0;
    let mut i: usize = 0;
    while i < hands.len()
        invariant
            hands@.len() <= usize::MAX / 8,
            forall|j: int| 0 <= j < hands@.len() ==> fits(#[trigger] hands@[j]@),
            dealer_max == true_total(dealer@),
            0 <= i <= hands@.len(),
            total == payout_total(hands@.take(i as int), dealer_max as int),
            total <= 8 * i,
        decreases hands@.len() - i,
    {
        let hand = &hands[i];
        proof {
            assert(hands@.take(i + 1).drop_last() =~= hands@.take(i as int));
        }
        if hand.true_value() > dealer_max {
            if hand.is_blackjack() {
                total = total + 3;
            } else if hand.is_doubled() {
                total = total + 8;
            } else {
                total = total + 4;
            }
        }
        i += 1;
    }
    proof {
        assert(hands@.take(i as int) =~= hands@);
    }
    total
}

/// The dealer's fixed policy: draws from `deck` while the dealer's true
/// value is a legal total below 17 and the deck has cards.
pub fn play_dealer(dealer: &mut Hand, deck: &mut Deck)
    requires
        fits(old(dealer)@),
        old(deck).valid(),
    ensures
        fits(final(dealer)@),
        final(deck).valid(),
        final(dealer).is_doubled() == old(dealer).is_doubled(),
        final(dealer)@.len() >= old(dealer)@.len(),
        final(dealer)@.take(old(dealer)@.len() as int) == old(dealer)@,
        forall|k: int|
            old(dealer)@.len() <= k < final(dealer)@.len() ==> dealer_draws(
                #[trigger] final(dealer)@.take(k),
            ),
        !dealer_draws(final(dealer)@) || final(deck).total() == 0,
        dealer_draws(old(dealer)@) && old(deck).total() > 0 ==> final(dealer)@.len() > old(dealer)@.len(),
        !dealer_draws(old(dealer)@) ==> final(dealer)@ == old(dealer)@ && *final(deck) == *old(deck),
        final(deck).size() == old(deck).size(),
        final(deck).total() + final(dealer)@.len() == old(deck).total() + old(dealer)@.len(),
        all_valid(old(dealer)@) ==> all_valid(final(dealer)@),
{
    let ghost start = dealer@;
    let mut value = dealer.true_value();
    while value < 17 && value != 0 && !deck.is_empty()
        invariant
            fits(dealer@),
            deck.valid(),
            value == true_total(dealer@),
            dealer.is_doubled() == old(dealer).is_doubled(),
            start == old(dealer)@,
            dealer@.len() >= start.len(),
            dealer@.take(start.len() as int) == start,
            forall|k: int|
                start.len() <= k < dealer@.len() ==> dealer_draws(#[trigger] dealer@.take(k)),
            deck.size() == old(deck).size(),
            deck.total() + dealer@.len() == old(deck).total() + start.len(),
            all_valid(start) ==> all_valid(dealer@),
            !dealer_draws(start) ==> dealer@ == start && *deck == *old(deck),
        decreases deck.total(),
    {
        let ghost before = dealer@;
        proof {
            lemma_legal_count(before);
        }
        let c = dealer.draw_from(deck);
        proof {
            let after = dealer@;
            assert(after.drop_last() =~= before);
            assert(min_total(after) == min_total(before) + c.min_points());
            lemma_aces_bounded(after);
            assert(after.take(before.len() as int) =~= before);
            assert(after.take(start.len() as int) =~= before.take(start.len() as int));
            assert forall|k: int|
                start.len() <= k < after.len() implies dealer_draws(#[trigger] after.take(k)) by {
                if k < before.len() {
                    assert(after.take(k) =~= before.take(k));
                } else {
                    assert(after.take(k) =~= before);
                }
            }
            if all_valid(start) {
                assert(all_valid(after)) by {
                    assert forall|i: int| 0 <= i < after.len() implies (#[trigger] after[i]).valid() by {
                        if i < before.len() {
                            assert(after[i] == before[i]);
                        }
                    }
                }
            }
        }
        value = dealer.true_value();
    }
    proof {
        if dealer@.len() == start.len() {
            assert(dealer@ =~= dealer@.take(start.len() as int));
        }
    }
}

/// `r` is where play goes on after hand `from - 1`: the first hand from
/// `from` on that is not a blackjack (a blackjack stands by itself), or
/// `hands.len()` when there is none.
pub open spec fn next_open(hands: Seq<Hand>, from: int, r: int) -> bool {
    &&& from <= r <= hands.len()
    &&& forall|j: int| from <= j < r ==> blackjack(#[trigger] hands[j]@)
    &&& r < hands.len() ==> !blackjack(hands[r]@)
}

/// The player hits: one more card.
pub open spec fn is_hit(c: char) -> bool {
    c == 'h' || c == 'H'
}

/// The player stands: the hand's turn ends as it is.
pub open spec fn is_stand(c: char) -> bool {
    c == 's' || c == 'S'
}

/// The player doubles: one more card, and the hand's turn ends.
pub open spec fn is_double(c: char) -> bool {
    c == 'd' || c == 'D'
}

/// The player splits a pair into two hands.
pub open spec fn is_split(c: char) -> bool {
    c == 'l' || c == 'L'
}

/// Where a round stands while the player plays their hands.
#[derive(Debug, Copy, Clone, PartialEq, Eq, Structural)]
pub struct Round {
    /// The number of hands bought before the round.
    pub base_hands: usize,
    /// The spare-hand slots the round started with.
    pub spare_start: usize,
    /// The spare-hand slots still unused.
    pub spare_hands: usize,
    /// The hand being played; the number of hands once all are played.
    pub index: usize,
    /// The dealer was dealt a blackjack, so the player does not play.
    pub natural: bool,
    /// With a dealer blackjack, the player's blackjacks (each a push).
    pub pushes: usize,
}

/// There are no more blackjacks than hands.
pub proof fn lemma_blackjack_count(hands: Seq<Hand>)
    ensures
        blackjack_count(hands) <= hands.len(),
    decreases hands.len(),
{
    if hands.len() > 0 {
        lemma_blackjack_count(hands.drop_last());
    }
}

/// The table of a game: the deck, the player's hands and the dealer's hand.
pub struct Game {
    deck: Deck,
    hands: Vec<Hand>,
    dealer: Hand,
}

impl Game {
    pub closed spec fn spec_deck(&self) -> Deck {
        self.deck
    }

    pub closed spec fn spec_hands(&self) -> Seq<Hand> {
        self.hands@
    }

    pub closed spec fn spec_dealer(&self) -> Hand {
        self.dealer
    }

    /// The cards of `deck_count` decks are all on the table: in the deck's
    /// piles or in a hand, and all well formed.
    pub open spec fn wf(&self) -> bool {
        &&& 1 <= self.spec_deck().size() <= MAX_DECKS
        &&& self.spec_deck().valid()
        &&& hands_valid(self.spec_hands())
        &&& all_valid(self.spec_dealer()@)
        &&& self.spec_deck().total() + held(self.spec_hands()) + self.spec_dealer()@.len() == 52
            * self.spec_deck().size()
    }

    /// No round is under way: every hand is empty and not doubled.
    pub open spec fn idle(&self) -> bool {
        &&& hands_clear(self.spec_hands())
        &&& self.spec_dealer()@.len() == 0
        &&& !self.spec_dealer().is_doubled()
    }

    /// In a well-formed game every hand's totals fit in a `u32`.
    pub proof fn lemma_fits(&self)
        requires
            self.wf(),
        ensures
            forall|i: int| 0 <= i < self.spec_hands().len() ==> fits(#[trigger] self.spec_hands()[i]@),
            fits(self.spec_dealer()@),
    {
        assert forall|i: int| 0 <= i < self.spec_hands().len() implies fits(
            #[trigger] self.spec_hands()[i]@,
        ) by {
            lemma_held_bound(self.spec_hands(), i);
            lemma_valid_fits(self.spec_hands()[i]@);
        }
        lemma_valid_fits(self.spec_dealer()@);
    }

    /// `count` empty hands.
    fn empty_hands(count: usize) -> (r: Vec<Hand>)
        ensures
            r@.len() == count,
            hands_clear(r@),
    {
        let mut hands: Vec<Hand> = Vec::with_capacity(count);
        let mut i: usize = 0;
        while i < count
            invariant
                0 <= i <= count,
                hands@.len() == i,
                hands_clear(hands@),
            decreases count - i,
        {
            hands.push(Hand::new());
            i += 1;
        }
        hands
    }

    /// A game for `settings`: a fresh shuffled deck of `deck_count` decks,
    /// `hand_count` empty hands and an empty dealer hand.
    pub fn new(settings: &GameSettings) -> (r: Game)
        requires
            settings.valid(),
        ensures
            r.wf(),
            r.idle(),
            r.spec_deck().size() == settings.deck_count,
            r.spec_deck().total() == 52 * settings.deck_count,
            r.spec_hands().len() == settings.hand_count,
    {
        let g = Game {
            deck: Deck::new(settings.deck_count),
            hands: Game::empty_hands(settings.hand_count),
            dealer: Hand::new(),
        };
        proof {
            lemma_held_clear(g.hands@);
        }
        g
    }

    /// A game played with `deck`, which must hold all the cards of its
    /// decks, and `hand_count` empty hands.
    pub fn with_deck(deck: Deck, hand_count: usize) -> (r: Game)
        requires
            1 <= deck.size() <= MAX_DECKS,
            deck.valid(),
            deck.total() == 52 * deck.size(),
            hand_count <= MAX_HANDS,
        ensures
            r.wf(),
            r.idle(),
            r.spec_deck() == deck,
            r.spec_hands().len() == hand_count,
    {
        let g = Game { deck, hands: Game::empty_hands(hand_count), dealer: Hand::new() };
        proof {
            lemma_held_clear(g.hands@);
        }
        g
    }

    /// Adopts new settings between rounds: a fresh deck when the number of
    /// decks changes, fresh hands when the number of hands changes.
    pub fn update_settings(&mut self, settings: &GameSettings)
        requires
            old(self).wf(),
            old(self).idle(),
            settings.valid(),
        ensures
            final(self).wf(),
            final(self).idle(),
            final(self).spec_deck().size() == settings.deck_count,
            final(self).spec_hands().len() == settings.hand_count,
            old(self).spec_deck().size() == settings.deck_count ==> final(self).spec_deck()
                == old(self).spec_deck(),
    {
        proof {
            lemma_held_clear(self.hands@);
        }
        if self.deck.size() != settings.deck_count {
            self.deck = Deck::new(settings.deck_count);
        }
        if self.hands.len() != settings.hand_count {
            self.hands = Game::empty_hands(settings.hand_count);
        }
        proof {
            lemma_held_clear(self.hands@);
        }
    }

    /// Deals the top card of the deck to hand `i`, if the deck has a card
    /// left.
    fn deal_to(&mut self, i: usize)
        requires
            old(self).wf(),
            i < old(self).spec_hands().len(),
        ensures
            final(self).wf(),
            final(self).spec_hands().len() == old(self).spec_hands().len(),
            forall|j: int|
                0 <= j < old(self).spec_hands().len() && j != i ==> #[trigger] final(self).spec_hands()[j] == old(self).spec_hands()[j],
            final(self).spec_hands()[i as int].is_doubled() == old(self).spec_hands()[i as int].is_doubled(),
            final(self).spec_dealer() == old(self).spec_dealer(),
            final(self).spec_deck().size() == old(self).spec_deck().size(),
            old(self).spec_deck().total() > 0 ==> final(self).spec_hands()[i as int]@.len()
                == old(self).spec_hands()[i as int]@.len() + 1 && final(self).spec_hands()[i as int]@.drop_last() == old(self).spec_hands()[i as int]@
                && final(self).spec_deck().total() + 1 == old(self).spec_deck().total(),
            old(self).spec_deck().total() == 0 ==> *final(self) == *old(self),
    {
        if !self.deck.is_empty() {
            let ghost h0 = self.hands@;
            self.hands[i].draw_from(&mut self.deck);
            proof {
                lemma_held_update(h0, i as int, self.hands@[i as int]);
                assert(self.hands@ =~= h0.update(i as int, self.hands@[i as int]));
                let cards = self.hands@[i as int]@;
                assert(cards.drop_last() =~= h0[i as int]@);
                assert(all_valid(cards)) by {
                    assert forall|k: int| 0 <= k < cards.len() implies (#[trigger] cards[k]).valid() by {
                        if k < cards.len() - 1 {
                            assert(cards[k] == h0[i as int]@[k]);
                        }
                    }
                }
                assert(hands_valid(self.hands@)) by {
                    assert forall|j: int| 0 <= j < self.hands@.len() implies all_valid(
                        #[trigger] self.hands@[j]@,
                    ) by {
                        if j != i {
                            assert(self.hands@[j] == h0[j]);
                        }
                    }
                }
            }
        }
    }

    /// Deals the top card of the deck to the dealer, if the deck has a card
    /// left.
    fn deal_to_dealer(&mut self)
        requires
            old(self).wf(),
        ensures
            final(self).wf(),
            final(self).spec_hands() == old(self).spec_hands(),
            final(self).spec_dealer().is_doubled() == old(self).spec_dealer().is_doubled(),
            final(self).spec_deck().size() == old(self).spec_deck().size(),
            old(self).spec_deck().total() > 0 ==> final(self).spec_dealer()@.len() == old(self).spec_dealer()@.len() + 1 && final(self).spec_dealer()@.drop_last() == old(self).spec_dealer()@ && final(self).spec_deck().total() + 1 == old(self).spec_deck().total(),
            old(self).spec_deck().total() == 0 ==> *final(self) == *old(self),
    {
        if !self.deck.is_empty() {
            let ghost d0 = self.dealer@;
            self.dealer.draw_from(&mut self.deck);
            proof {
                let cards = self.dealer@;
                assert(cards.drop_last() =~= d0);
                assert(all_valid(cards)) by {
                    assert forall|k: int| 0 <= k < cards.len() implies (#[trigger] cards[k]).valid() by {
                        if k < cards.len() - 1 {
                            assert(cards[k] == d0[k]);
                        }
                    }
                }
            }
        }
    }

    /// Deals two cards to every hand, the dealer's included, one card at a
    /// time: each player hand left to right, then the dealer, twice.
    pub fn deal(&mut self)
        requires
            old(self).wf(),
            old(self).idle(),
            old(self).spec_hands().len() <= MAX_HANDS,
        ensures
            final(self).wf(),
            final(self).spec_hands().len() == old(self).spec_hands().len(),
            forall|j: int|
                0 <= j < final(self).spec_hands().len() ==> (#[trigger] final(self).spec_hands()[j])@.len() == 2 && !final(self).spec_hands()[j].is_doubled(),
            final(self).spec_dealer()@.len() == 2,
            !final(self).spec_dealer().is_doubled(),
            final(self).spec_deck().size() == old(self).spec_deck().size(),
    {
        proof {
            lemma_held_clear(self.hands@);
        }
        let n = self.hands.len();
        let mut round: usize = 0;
        while round < 2
            invariant
                self.wf(),
                n == self.hands@.len(),
                n <= MAX_HANDS,
                0 <= round <= 2,
                forall|j: int|
                    0 <= j < n ==> (#[trigger] self.hands@[j])@.len() == round
                        && !self.hands@[j].is_doubled(),
                self.dealer@.len() == round,
                !self.dealer.is_doubled(),
                self.deck.size() == old(self).spec_deck().size(),
                self.deck.total() + round * (n + 1) == 52 * self.deck.size(),
            decreases 2 - round,
        {
            let mut i: usize = 0;
            while i < n
                invariant
                    self.wf(),
                    n == self.hands@.len(),
                    n <= MAX_HANDS,
                    0 <= round < 2,
                    0 <= i <= n,
                    forall|j: int|
                        0 <= j < n ==> (#[trigger] self.hands@[j])@.len() == if j < i {
                            round + 1
                        } else {
                            round as int
                        } && !self.hands@[j].is_doubled(),
                    self.dealer@.len() == round,
                    !self.dealer.is_doubled(),
                    self.deck.size() == old(self).spec_deck().size(),
                    self.deck.total() + round * (n + 1) + i == 52 * self.deck.size(),
                decreases n - i,
            {
                proof {
                    assert(self.deck.total() > 0) by (nonlinear_arith)
                        requires
                            self.deck.total() + round * (n + 1) + i == 52 * self.deck.size(),
                            1 <= self.deck.size(),
                            round < 2,
                            i < n,
                            n <= 7,
                    ;
                }
                self.deal_to(i);
                i += 1;
            }
            proof {
                assert(self.deck.total() > 0) by (nonlinear_arith)
                    requires
                        self.deck.total() + round * (n + 1) + n == 52 * self.deck.size(),
                        1 <= self.deck.size(),
                        round < 2,
                        n <= 7,
                ;
            }
            self.deal_to_dealer();
            proof {
                assert(self.deck.total() + (round + 1) * (n + 1) == 52 * self.deck.size()) by (nonlinear_arith)
                    requires
                        self.deck.total() + 1 + round * (n + 1) + n == 52 * self.deck.size(),
                ;
            }
            round += 1;
        }
    }

    /// Whether the dealer holds a blackjack, and if so how many of the
    /// player's hands hold one too (0 when the dealer has none).
    pub fn dealer_blackjack(&self) -> (r: (bool, usize))
        requires
            self.wf(),
        ensures
            r.0 == blackjack(self.spec_dealer()@),
            r.1 == if r.0 {
                blackjack_count(self.spec_hands())
            } else {
                0
            },
    {
        proof {
            self.lemma_fits();
        }
        if !self.dealer.is_blackjack() {
            return (false, 0);
        }
        let mut count: usize = 0;
        let mut i: usize = 0;
        while i < self.hands.len()
            invariant
                forall|j: int| 0 <= j < self.hands@.len() ==> fits(#[trigger] self.hands@[j]@),
                0 <= i <= self.hands@.len(),
                count == blackjack_count(self.hands@.take(i as int)),
                count <= i,
            decreases self.hands@.len() - i,
        {
            proof {
                assert(self.hands@.take(i + 1).drop_last() =~= self.hands@.take(i as int));
            }
            if self.hands[i].is_blackjack() {
                count = count + 1;
            }
            i += 1;
        }
        proof {
            assert(self.hands@.take(i as int) =~= self.hands@);
        }
        (true, count)
    }

    /// `round` describes a round under way at this table.
    pub open spec fn round_ok(&self, round: Round) -> bool {
        &&& self.wf()
        &&& hands_nonempty(self.spec_hands())
        &&& self.spec_dealer()@.len() > 0
        &&& !self.spec_dealer().is_doubled()
        &&& round.base_hands <= self.spec_hands().len()
        &&& round.spare_hands <= round.spare_start
        &&& round.index <= self.spec_hands().len()
        &&& round.natural ==> round.index == self.spec_hands().len()
        &&& round.natural ==> blackjack(self.spec_dealer()@) && round.pushes == blackjack_count(
            self.spec_hands(),
        )
        &&& !round.natural ==> round.pushes == 0
    }

    /// What the player may choose for the current hand: hit and stand
    /// always; double with a spare hand left; split a pair with a spare hand
    /// left.
    pub open spec fn allowed(&self, round: Round, c: char) -> bool {
        &&& round.index < self.spec_hands().len()
        &&& is_hit(c) || is_stand(c) || (is_double(c) && round.spare_hands > 0) || (is_split(c)
            && round.spare_hands > 0 && splittable(self.spec_hands()[round.index as int]@))
    }

    /// Whether `player_step(round, c)` may be called.
    pub fn allows(&self, round: &Round, c: char) -> (r: bool)
        ensures
            r == self.allowed(*round, c),
    {
        if round.index >= self.hands.len() {
            return false;
        }
        match c {
            'h' | 'H' | 's' | 'S' => true,
            'd' | 'D' => round.spare_hands > 0,
            'l' | 'L' => round.spare_hands > 0 && self.hands[round.index].is_splittable(),
            _ => false,
        }
    }

    /// Whether the player still has a hand to play.
    pub fn awaiting_input(&self, round: &Round) -> (r: bool)
        ensures
            r == (round.index < self.spec_hands().len()),
    {
        round.index < self.hands.len()
    }

    /// The first hand from `from` on that is not a blackjack, or the number
    /// of hands when there is none.
    pub fn next_pending(&self, from: usize) -> (r: usize)
        requires
            self.wf(),
            from <= self.spec_hands().len(),
        ensures
            next_open(self.spec_hands(), from as int, r as int),
    {
        proof {
            self.lemma_fits();
        }
        let mut i = from;
        while i < self.hands.len() && self.hands[i].is_blackjack()
            invariant
                forall|j: int| 0 <= j < self.hands@.len() ==> fits(#[trigger] self.hands@[j]@),
                from <= i <= self.hands@.len(),
                forall|j: int| from <= j < i ==> blackjack(#[trigger] self.hands@[j]@),
            decreases self.hands@.len() - i,
        {
            i += 1;
        }
        i
    }

    /// Deals two cards to every hand and checks for a dealer blackjack.
    /// Returns the round: with a dealer blackjack the player does not play
    /// and each player blackjack is a push; otherwise play starts at the
    /// first hand that is not a blackjack.
    pub fn start_round(&mut self, spare_hands: usize) -> (r: Round)
        requires
            old(self).wf(),
            old(self).idle(),
            old(self).spec_hands().len() <= MAX_HANDS,
        ensures
            final(self).round_ok(r),
            final(self).spec_hands().len() == old(self).spec_hands().len(),
            forall|j: int|
                0 <= j < final(self).spec_hands().len() ==> (#[trigger] final(self).spec_hands()[j])@.len() == 2,
            final(self).spec_dealer()@.len() == 2,
            final(self).spec_deck().size() == old(self).spec_deck().size(),
            r.base_hands == old(self).spec_hands().len(),
            r.spare_start == spare_hands,
            r.spare_hands == spare_hands,
            r.natural == blackjack(final(self).spec_dealer()@),
            r.pushes == if r.natural {
                blackjack_count(final(self).spec_hands())
            } else {
                0
            },
            !r.natural ==> next_open(final(self).spec_hands(), 0, r.index as int),
    {
        self.deal();
        let (natural, pushes) = self.dealer_blackjack();
        proof {
            assert forall|i: int| 0 <= i < self.hands@.len() implies (#[trigger] self.hands@[i])@.len() > 0 by {}
            assert(blackjack_count(self.hands@) <= self.hands@.len()) by {
                lemma_blackjack_count(self.hands@);
            }
        }
        let index = if natural {
            self.hands.len()
        } else {
            self.next_pending(0)
        };
        Round {
            base_hands: self.hands.len(),
            spare_start: spare_hands,
            spare_hands,
            index,
            natural,
            pushes,
        }
    }

    /// Carries out the player's choice `c` on hand `ndx`: a hit or a double
    /// draws a card, a double also marks the hand doubled. Returns whether
    /// the hand's turn ends (stand, double) and whether a spare hand is used
    /// (double, split). A split itself is left to `split_hand`; any other
    /// character changes nothing.
    pub fn handle_play_input(&mut self, ndx: usize, c: char) -> (r: (bool, bool))
        requires
            old(self).wf(),
            ndx < old(self).spec_hands().len(),
        ensures
            final(self).wf(),
            final(self).spec_dealer() == old(self).spec_dealer(),
            final(self).spec_deck().size() == old(self).spec_deck().size(),
            final(self).spec_hands().len() == old(self).spec_hands().len(),
            forall|j: int|
                0 <= j < old(self).spec_hands().len() && j != ndx ==> #[trigger] final(self).spec_hands()[j]
                    == old(self).spec_hands()[j],
            r == (is_stand(c) || is_double(c), is_double(c) || is_split(c)),
            (is_hit(c) || is_double(c)) && old(self).spec_deck().total() > 0 ==> final(self).spec_hands()[ndx as int]@.drop_last()
                == old(self).spec_hands()[ndx as int]@ && final(self).spec_hands()[ndx as int]@.len()
                == old(self).spec_hands()[ndx as int]@.len() + 1,
            (is_hit(c) || is_double(c)) && old(self).spec_deck().total() == 0 ==> final(self).spec_hands()[ndx as int]@
                == old(self).spec_hands()[ndx as int]@,
            is_double(c) ==> final(self).spec_hands()[ndx as int].is_doubled(),
            !is_double(c) ==> final(self).spec_hands()[ndx as int].is_doubled() == old(self).spec_hands()[ndx as int].is_doubled(),
            !(is_hit(c) || is_double(c)) ==> final(self).spec_hands()[ndx as int] == old(self).spec_hands()[ndx as int],
    {
        match c {
            'h' | 'H' => {
                self.deal_to(ndx);
                (false, false)
            },
            's' | 'S' => (true, false),
            'd' | 'D' => {
                self.deal_to(ndx);
                let ghost h1 = self.hands@;
                self.hands[ndx].set_doubled(true);
                proof {
                    lemma_held_update(h1, ndx as int, self.hands@[ndx as int]);
                    assert(self.hands@ =~= h1.update(ndx as int, self.hands@[ndx as int]));
                    assert(hands_valid(self.hands@)) by {
                        assert forall|j: int| 0 <= j < self.hands@.len() implies all_valid(
                            #[trigger] self.hands@[j]@,
                        ) by {
                            if j != ndx {
                                assert(self.hands@[j] == h1[j]);
                            }
                        }
                    }
                }
                (true, true)
            },
            'l' | 'L' => (false, true),
            _ => (false, false),
        }
    }

    /// Splits hand `ndx`: its second card starts a new hand placed right
    /// after it, and each of the two hands draws one card (while the deck
    /// has cards).
    pub fn split_hand(&mut self, ndx: usize)
        requires
            old(self).wf(),
            ndx < old(self).spec_hands().len(),
            old(self).spec_hands()[ndx as int]@.len() == 2,
        ensures
            final(self).wf(),
            final(self).spec_dealer() == old(self).spec_dealer(),
            final(self).spec_deck().size() == old(self).spec_deck().size(),
            final(self).spec_hands().len() == old(self).spec_hands().len() + 1,
            forall|j: int| 0 <= j < ndx ==> #[trigger] final(self).spec_hands()[j] == old(self).spec_hands()[j],
            forall|j: int|
                ndx < j < old(self).spec_hands().len() ==> #[trigger] final(self).spec_hands()[j + 1]
                    == old(self).spec_hands()[j],
            final(self).spec_hands()[ndx as int]@[0] == old(self).spec_hands()[ndx as int]@[0],
            final(self).spec_hands()[ndx + 1]@[0] == old(self).spec_hands()[ndx as int]@[1],
            1 <= final(self).spec_hands()[ndx as int]@.len() <= 2,
            1 <= final(self).spec_hands()[ndx + 1]@.len() <= 2,
            old(self).spec_deck().total() >= 2 ==> final(self).spec_hands()[ndx as int]@.len() == 2
                && final(self).spec_hands()[ndx + 1]@.len() == 2,
            final(self).spec_hands()[ndx as int].is_doubled() == old(self).spec_hands()[ndx as int].is_doubled(),
            !final(self).spec_hands()[ndx + 1].is_doubled(),
    {
        let ghost h0 = self.hands@;
        let ghost old_hand = h0[ndx as int];
        let card = self.hands[ndx].take_card();
        let mut new_hand = Hand::new();
        new_hand.give_card(card);
        if !self.deck.is_empty() {
            self.hands[ndx].draw_from(&mut self.deck);
        }
        if !self.deck.is_empty() {
            new_hand.draw_from(&mut self.deck);
        }
        let ghost h1 = self.hands@;
        assert(ndx < self.hands.len());
        self.hands.insert(ndx + 1, new_hand);
        proof {
            let prev = h1[ndx as int]@;
            let next = new_hand@;
            assert(h1 =~= h0.update(ndx as int, h1[ndx as int]));
            lemma_held_update(h0, ndx as int, h1[ndx as int]);
            lemma_held_insert(h1, ndx + 1, new_hand);
            assert(prev[0] == old_hand@[0]);
            assert(next[0] == old_hand@[1]);
            assert(all_valid(prev)) by {
                assert forall|k: int| 0 <= k < prev.len() implies (#[trigger] prev[k]).valid() by {
                    if k == 0 {
                        assert(prev[0] == old_hand@[0]);
                    }
                }
            }
            assert(all_valid(next)) by {
                assert forall|k: int| 0 <= k < next.len() implies (#[trigger] next[k]).valid() by {
                    if k == 0 {
                        assert(next[0] == old_hand@[1]);
                    }
                }
            }
            assert(hands_valid(self.hands@)) by {
                assert forall|j: int| 0 <= j < self.hands@.len() implies all_valid(
                    #[trigger] self.hands@[j]@,
                ) by {
                    if j < ndx {
                        assert(self.hands@[j] == h0[j]);
                    } else if j > ndx + 1 {
                        assert(self.hands@[j] == h0[j - 1]);
                    }
                }
            }
        }
    }

    /// Plays the player's choice `c` on the current hand and moves the round
    /// on. A hit draws a card and ends the hand's turn only when it busts; a
    /// stand ends it; a double uses a spare hand, draws one card, marks the
    /// hand doubled and ends its turn; a split uses a spare hand and splits
    /// the pair, and play resumes at the same position. Blackjacks are
    /// passed over without input.
    pub fn player_step(&mut self, round: &mut Round, c: char)
        requires
            old(self).round_ok(*old(round)),
            old(self).allowed(*old(round), c),
        ensures
            final(self).round_ok(*final(round)),
            final(round).base_hands == old(round).base_hands,
            final(round).spare_start == old(round).spare_start,
            final(round).natural == old(round).natural,
            final(round).pushes == old(round).pushes,
            final(round).spare_hands == old(round).spare_hands - if is_double(c) || is_split(c) {
                1int
            } else {
                0int
            },
            final(self).spec_dealer() == old(self).spec_dealer(),
            final(self).spec_deck().size() == old(self).spec_deck().size(),
            forall|j: int|
                0 <= j < old(round).index ==> #[trigger] final(self).spec_hands()[j] == old(self).spec_hands()[j],
            is_stand(c) ==> final(self).spec_hands() == old(self).spec_hands() && next_open(
                final(self).spec_hands(),
                old(round).index + 1,
                final(round).index as int,
            ),
            is_hit(c) || is_double(c) ==> final(self).spec_hands().len() == old(self).spec_hands().len()
                && (old(self).spec_deck().total() > 0 ==> final(self).spec_hands()[old(round).index as int]@.drop_last()
                == old(self).spec_hands()[old(round).index as int]@ && final(self).spec_hands()[old(round).index as int]@.len()
                == old(self).spec_hands()[old(round).index as int]@.len() + 1),
            is_hit(c) ==> if min_total(final(self).spec_hands()[old(round).index as int]@) > 21 {
                next_open(final(self).spec_hands(), old(round).index + 1, final(round).index as int)
            } else {
                final(round).index == old(round).index
            },
            is_double(c) ==> final(self).spec_hands()[old(round).index as int].is_doubled() && next_open(
                final(self).spec_hands(),
                old(round).index + 1,
                final(round).index as int,
            ),
            is_split(c) ==> final(self).spec_hands().len() == old(self).spec_hands().len() + 1
                && final(self).spec_hands()[old(round).index as int]@[0] == old(self).spec_hands()[old(round).index as int]@[0]
                && final(self).spec_hands()[old(round).index + 1]@[0] == old(self).spec_hands()[old(round).index as int]@[1]
                && next_open(final(self).spec_hands(), old(round).index as int, final(round).index as int),
    {
        let i = round.index;
        let (done, bought) = self.handle_play_input(i, c);
        let ghost mid = self.hands@;
        if bought {
            round.spare_hands = round.spare_hands - 1;
        }
        assert(i < self.hands.len());
        if done {
            round.index = self.next_pending(i + 1);
        } else if bought {
            self.split_hand(i);
            round.index = self.next_pending(i);
        } else {
            proof {
                self.lemma_fits();
            }
            if self.hands[i].is_busted() {
                round.index = self.next_pending(i + 1);
            }
        }
        proof {
            assert(hands_nonempty(self.hands@)) by {
                assert forall|j: int| 0 <= j < self.hands@.len() implies (#[trigger] self.hands@[j])@.len() > 0 by {
                    if !is_split(c) && j != i {
                        assert(self.hands@[j] == old(self).spec_hands()[j]);
                    } else if is_split(c) && j < i {
                        assert(self.hands@[j] == old(self).spec_hands()[j]);
                    } else if is_split(c) && j > i + 1 {
                        assert(self.hands@[(j - 1) + 1] == mid[j - 1]);
                        assert(mid[j - 1] == old(self).spec_hands()[j - 1]);
                    } else if !is_split(c) && j == i && !(is_hit(c) || is_double(c)) {
                        assert(self.hands@[j] == old(self).spec_hands()[j]);
                    } else if !is_split(c) && j == i && old(self).spec_deck().total() == 0 {
                        assert(self.hands@[j]@ == old(self).spec_hands()[j]@);
                    }
                }
            }
        }
    }

    /// The dealer's turn: the dealer draws by the fixed policy of
    /// `play_dealer`.
    pub fn run_dealer_turn(&mut self)
        requires
            old(self).wf(),
        ensures
            final(self).wf(),
            final(self).spec_hands() == old(self).spec_hands(),
            final(self).spec_deck().size() == old(self).spec_deck().size(),
            final(self).spec_dealer().is_doubled() == old(self).spec_dealer().is_doubled(),
            final(self).spec_dealer()@.len() >= old(self).spec_dealer()@.len(),
            final(self).spec_dealer()@.take(old(self).spec_dealer()@.len() as int) == old(self).spec_dealer()@,
            forall|k: int|
                old(self).spec_dealer()@.len() <= k < final(self).spec_dealer()@.len() ==> dealer_draws(
                    #[trigger] final(self).spec_dealer()@.take(k),
                ),
            !dealer_draws(final(self).spec_dealer()@) || final(self).spec_deck().total() == 0,
            dealer_draws(old(self).spec_dealer()@) && old(self).spec_deck().total() > 0 ==> final(self).spec_dealer()@.len()
                > old(self).spec_dealer()@.len(),
            !dealer_draws(old(self).spec_dealer()@) ==> final(self).spec_dealer()@ == old(self).spec_dealer()@
                && final(self).spec_deck() == old(self).spec_deck(),
    {
        proof {
            self.lemma_fits();
        }
        play_dealer(&mut self.dealer, &mut self.deck);
    }

    /// The payout of the player's hands against the dealer's, in half-bets.
    pub fn check_wins(&self) -> (r: usize)
        requires
            self.wf(),
            hands_nonempty(self.spec_hands()),
        ensures
            r == payout_total(self.spec_hands(), true_total(self.spec_dealer()@)),
    {
        proof {
            self.lemma_fits();
            lemma_held_nonempty(self.hands@);
        }
        settle(&self.hands, &self.dealer)
    }

    /// Once every hand is played: the dealer plays unless the round opened
    /// with a dealer blackjack, and the payout in half-bets is returned. A
    /// dealer blackjack pays back each pushed blackjack's bet (two
    /// half-bets); otherwise each hand is paid as `hand_payout` says.
    pub fn settle_round(&mut self, round: &Round) -> (r: usize)
        requires
            old(self).round_ok(*round),
            round.index >= old(self).spec_hands().len(),
        ensures
            final(self).round_ok(*round),
            final(self).spec_hands() == old(self).spec_hands(),
            final(self).spec_deck().size() == old(self).spec_deck().size(),
            round.natural ==> final(self).spec_dealer() == old(self).spec_dealer() && r == 2
                * blackjack_count(final(self).spec_hands()),
            !round.natural ==> r == payout_total(final(self).spec_hands(), true_total(final(self).spec_dealer()@)),
            !round.natural ==> final(self).spec_dealer()@.take(old(self).spec_dealer()@.len() as int) == old(self).spec_dealer()@
                && (forall|k: int|
                old(self).spec_dealer()@.len() <= k < final(self).spec_dealer()@.len() ==> dealer_draws(
                    #[trigger] final(self).spec_dealer()@.take(k),
                )) && (!dealer_draws(final(self).spec_dealer()@) || final(self).spec_deck().total() == 0),
    {
        proof {
            lemma_held_nonempty(self.hands@);
            lemma_blackjack_count(self.hands@);
        }
        if round.natural {
            round.pushes * 2
        } else {
            self.run_dealer_turn();
            self.check_wins()
        }
    }

    /// Ends the round: every card goes to the discard pile, the doubled
    /// marks are cleared and the hands made by splitting are dropped.
    /// Returns the number of spare hands the round used.
    pub fn end_round(&mut self, round: Round) -> (r: usize)
        requires
            old(self).round_ok(round),
        ensures
            final(self).wf(),
            final(self).idle(),
            final(self).spec_hands().len() == round.base_hands,
            final(self).spec_deck().size() == old(self).spec_deck().size(),
            final(self).spec_deck().total() == 52 * final(self).spec_deck().size(),
            r == round.spare_start - round.spare_hands,
    {
        let n = self.hands.len();
        let mut i: usize = 0;
        while i < n
            invariant
                self.wf(),
                n == self.hands@.len(),
                0 <= i <= n,
                round.base_hands <= n,
                hands_clear(self.hands@.take(i as int)),
                self.dealer == old(self).spec_dealer(),
                self.deck.size() == old(self).spec_deck().size(),
            decreases n - i,
        {
            let ghost h0 = self.hands@;
            self.deck.discard_hand(&mut self.hands[i]);
            self.hands[i].set_doubled(false);
            proof {
                lemma_held_update(h0, i as int, self.hands@[i as int]);
                assert(self.hands@ =~= h0.update(i as int, self.hands@[i as int]));
                assert(all_valid(self.deck.discards())) by {
                    let d = self.deck.discards();
                    let d0 = old(self).spec_deck().discards();
                    assert forall|k: int| 0 <= k < d.len() implies (#[trigger] d[k]).valid() by {
                        assert(all_valid(h0[i as int]@));
                    }
                }
                assert(hands_valid(self.hands@)) by {
                    assert forall|j: int| 0 <= j < self.hands@.len() implies all_valid(
                        #[trigger] self.hands@[j]@,
                    ) by {
                        if j != i {
                            assert(self.hands@[j] == h0[j]);
                        }
                    }
                }
                assert(hands_clear(self.hands@.take(i + 1))) by {
                    assert forall|j: int| 0 <= j < i + 1 implies (#[trigger] self.hands@.take(i + 1)[j])@.len() == 0
                        && !self.hands@.take(i + 1)[j].is_doubled() by {
                        if j < i {
                            assert(self.hands@.take(i + 1)[j] == h0.take(i as int)[j]);
                        }
                    }
                }
            }
            i += 1;
        }
        let ghost dealer0 = self.dealer@;
        self.deck.discard_hand(&mut self.dealer);
        proof {
            assert(self.hands@.take(n as int) =~= self.hands@);
            lemma_held_clear(self.hands@);
            assert(all_valid(self.deck.discards())) by {
                let d = self.deck.discards();
                assert forall|k: int| 0 <= k < d.len() implies (#[trigger] d[k]).valid() by {
                    assert(all_valid(dealer0));
                }
            }
        }
        let ghost hb = self.hands@;
        self.hands.truncate(round.base_hands);
        proof {
            assert(hands_clear(self.hands@)) by {
                assert forall|j: int| 0 <= j < self.hands@.len() implies (#[trigger] self.hands@[j])@.len() == 0
                    && !self.hands@[j].is_doubled() by {
                    assert(self.hands@[j] == hb[j]);
                }
            }
            lemma_held_clear(self.hands@);
            assert(hands_valid(self.hands@)) by {
                assert forall|j: int| 0 <= j < self.hands@.len() implies all_valid(#[trigger] self.hands@[j]@) by {
                    assert(self.hands@[j]@.len() == 0);
                }
            }
        }
        round.spare_start - round.spare_hands
    }

    /// The deck.
    pub fn deck(&self) -> (r: &Deck)
        ensures
            *r == self.spec_deck(),
    {
        &self.deck
    }

    /// The player's hands, left to right.
    pub fn hands(&self) -> (r: &Vec<Hand>)
        ensures
            r@ == self.spec_hands(),
    {
        &self.hands
    }

    /// The dealer's hand.
    pub fn dealer(&self) -> (r: &Hand)
        ensures
            *r == self.spec_dealer(),
    {
        &self.dealer
    }
}

} // verus!
