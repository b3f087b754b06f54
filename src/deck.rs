use vstd::multiset::Multiset;
use vstd::prelude::*;

use rand::seq::SliceRandom;

use crate::card::{face_of, Card, CardFace};
use crate::hand::Hand;
use crate::suit::{suit_at, Suit};

verus! {

broadcast use vstd::seq_lib::group_to_multiset_ensures;

/// The card that a freshly built pile holds at position `i`: rank
/// `i % 13 + 1`, with the suits cycling every thirteen cards.
pub open spec fn full_card(i: nat) -> Card {
    let val = (i % 13 + 1) as u32;
    Card { val, face: face_of(val), suit: suit_at(i / 13) }
}

/// Every card of `cards` is well formed.
pub open spec fn all_valid(cards: Seq<Card>) -> bool {
    forall|i: int| 0 <= i < cards.len() ==> (#[trigger] cards[i]).valid()
}

/// Two sequences that hold the same cards agree on being well formed.
pub proof fn lemma_same_cards_valid(a: Seq<Card>, b: Seq<Card>)
    requires
        a.to_multiset() == b.to_multiset(),
        all_valid(a),
    ensures
        all_valid(b),
{
    assert forall|i: int| 0 <= i < b.len() implies (#[trigger] b[i]).valid() by {
        assert(b.contains(b[i]));
        assert(b.to_multiset().count(b[i]) > 0);
        assert(a.to_multiset().count(b[i]) > 0);
        assert(a.contains(b[i]));
    }
}

/// Relies on `rand::seq::SliceRandom::shuffle` with the thread-local
/// generator `rand::rng()`: the shuffle only swaps elements, so the same
/// cards come back in some order. (`rand::rng()` panics only when the
/// operating system cannot seed the generator.)
#[verifier::external_body]
fn shuffle_cards(cards: &mut Vec<Card>)
    ensures
        final(cards)@.to_multiset() == old(cards)@.to_multiset(),
{
    cards.shuffle(&mut rand::rng());
}

/// A stack of cards; its top is the end of the sequence.
pub struct Pile {
    cards: Vec<Card>,
}

impl View for Pile {
    type V = Seq<Card>;

    closed spec fn view(&self) -> Seq<Card> {
        self.cards@
    }
}

impl Pile {
    /// An empty pile, with room for the cards of `decks` decks.
    pub fn new_empty(decks: usize) -> (r: Pile)
        requires
            52 * decks <= usize::MAX,
        ensures
            r@ == Seq::<Card>::empty(),
    {
        Pile { cards: Vec::with_capacity(52 * decks) }
    }

    /// A pile holding the `52 * decks` cards of `decks` decks, in order:
    /// position `i` holds `full_card(i)`.
    pub fn new_full(decks: usize) -> (r: Pile)
        requires
            52 * decks <= usize::MAX,
        ensures
            r@.len() == 52 * decks,
            forall|i: int| 0 <= i < r@.len() ==> #[trigger] r@[i] == full_card(i as nat),
            all_valid(r@),
    {
        let mut p = Pile::new_empty(decks);
        let n: usize = 52 * decks;
        let mut i: usize = 0;
        while i < n
            invariant
                n == 52 * decks,
                0 <= i <= n,
                p@.len() == i,
                forall|j: int| 0 <= j < i ==> #[trigger] p@[j] == full_card(j as nat),
            decreases n - i,
        {
            let suit = Suit::from_val(i / 13);
            let val = (i % 13 + 1) as u32;
            let face = match val {
                1 => Some(CardFace::A),
                11 => Some(CardFace::J),
                12 => Some(CardFace::Q),
                13 => Some(CardFace::K),
                _ => None,
            };
            p.cards.push(Card::new(val, face, suit));
            i += 1;
        }
        p
    }

    /// A pile holding `cards`, the last of them on top.
    pub fn from_cards(cards: Vec<Card>) -> (r: Pile)
        ensures
            r@ == cards@,
    {
        Pile { cards }
    }

    /// The number of cards in the pile.
    pub fn count(&self) -> (r: usize)
        ensures
            r == self@.len(),
    {
        self.cards.len()
    }

    /// Takes the top card, or `None` when the pile is empty.
    pub fn draw(&mut self) -> (r: Option<Card>)
        ensures
            old(self)@.len() == 0 ==> r is None && final(self)@ == old(self)@,
            old(self)@.len() > 0 ==> r == Some(old(self)@.last()) && final(self)@
                == old(self)@.drop_last(),
    {
        self.cards.pop()
    }

    /// Puts `card` on top.
    pub fn place(&mut self, card: Card)
        ensures
            final(self)@ == old(self)@.push(card),
    {
        self.cards.push(card);
    }

    /// Puts the cards of the pile in a random order.
    pub fn shuffle(&mut self)
        ensures
            final(self)@.to_multiset() == old(self)@.to_multiset(),
    {
        shuffle_cards(&mut self.cards);
    }
}

/// The cards of `decks` decks, split into a draw pile and a discard pile.
pub struct Deck {
    size: usize,
    pub draw_pile: Pile,
    pub discard_pile: Pile,
}

impl Deck {
    pub closed spec fn spec_size(&self) -> usize {
        self.size
    }

    /// The cards of the draw pile, the top one last.
    pub closed spec fn draws(self) -> Seq<Card> {
        self.draw_pile@
    }

    /// The cards of the discard pile, the top one last.
    pub closed spec fn discards(self) -> Seq<Card> {
        self.discard_pile@
    }

    /// The number of cards in both piles.
    pub open spec fn total(self) -> nat {
        self.draws().len() + self.discards().len()
    }

    /// The cards in both piles, counted with repetition.
    pub open spec fn contents(self) -> Multiset<Card> {
        self.draws().to_multiset().add(self.discards().to_multiset())
    }

    /// Every card in both piles is well formed.
    pub open spec fn valid(self) -> bool {
        all_valid(self.draws()) && all_valid(self.discards())
    }

    /// A deck of `decks` decks: all `52 * decks` cards shuffled into the
    /// draw pile, the discard pile empty.
    pub fn new(decks: usize) -> (r: Deck)
        requires
            52 * decks <= usize::MAX,
        ensures
            r.size() == decks,
            r.draws().len() == 52 * decks,
            r.draws().to_multiset() == Seq::new(52 * decks as nat, |i: int| full_card(i as nat)).to_multiset(),
            r.discards() == Seq::<Card>::empty(),
            r.valid(),
    {
        let mut deck = Deck {
            size: decks,
            draw_pile: Pile::new_full(decks),
            discard_pile: Pile::new_empty(decks),
        };
        proof {
            assert(deck.draw_pile@ =~= Seq::new(52 * decks as nat, |i: int| full_card(i as nat)));
        }
        let ghost before = deck.draw_pile@;
        deck.draw_pile.shuffle();
        proof {
            lemma_same_cards_valid(before, deck.draw_pile@);
            assert(before.to_multiset().len() == deck.draw_pile@.to_multiset().len());
        }
        deck
    }

    /// A deck of `size` decks made of the two piles given.
    pub fn from_piles(size: usize, draw_pile: Pile, discard_pile: Pile) -> (r: Deck)
        ensures
            r.size() == size,
            r.draws() == draw_pile@,
            r.discards() == discard_pile@,
    {
        Deck { size, draw_pile, discard_pile }
    }

    /// Takes the top card of the draw pile. When the draw pile is empty,
    /// the deck is reshuffled first, which refills it from the discard pile.
    pub fn draw(&mut self) -> (r: Card)
        requires
            old(self).total() > 0,
        ensures
            final(self).size() == old(self).size(),
            final(self).total() + 1 == old(self).total(),
            final(self).contents().insert(r) == old(self).contents(),
            old(self).draws().len() > 0 ==> r == old(self).draws().last() && final(self).draws()
                == old(self).draws().drop_last() && final(self).discards() == old(self).discards(),
            old(self).draws().len() == 0 ==> final(self).discards() == Seq::<Card>::empty()
                && final(self).draws().to_multiset().insert(r) == old(self).discards().to_multiset(),
            old(self).valid() ==> final(self).valid() && r.valid(),
    {
        if self.draw_pile.count() == 0 {
            self.reshuffle();
            proof {
                assert(self.draws().to_multiset().len() == self.draws().len());
                assert(self.discards().to_multiset().len() == 0);
            }
        }
        let ghost before = *self;
        let c = self.draw_pile.draw().unwrap();
        proof {
            let d = before.draws();
            assert(d =~= d.drop_last().push(d.last()));
            assert(d.to_multiset() =~= d.drop_last().to_multiset().insert(d.last()));
            assert(self.contents().insert(c) =~= before.contents());
            if before.valid() {
                assert(c == d[d.len() - 1]);
                assert(all_valid(self.draws()));
            }
        }
        c
    }

    /// Moves every card of `hand` onto the discard pile, last card first.
    pub fn discard_hand(&mut self, hand: &mut Hand)
        ensures
            final(hand)@ == Seq::<Card>::empty(),
            final(hand).is_doubled() == old(hand).is_doubled(),
            final(self).discards() == old(self).discards() + old(hand)@.reverse(),
            final(self).draws() == old(self).draws(),
            final(self).size() == old(self).size(),
            final(self).total() == old(self).total() + old(hand)@.len(),
    {
        let ghost d0 = self.discard_pile@;
        let ghost h0 = hand@;
        loop
            invariant
                hand@ == h0.take(hand@.len() as int),
                hand@.len() <= h0.len(),
                hand.is_doubled() == old(hand).is_doubled(),
                h0 == old(hand)@,
                d0 == old(self).discards(),
                self.discard_pile@ == d0 + Seq::new(
                    (h0.len() - hand@.len()) as nat,
                    |t: int| h0[h0.len() - 1 - t],
                ),
                self.draw_pile@ == old(self).draws(),
                self.size == old(self).size,
            ensures
                hand@ == Seq::<Card>::empty(),
                hand.is_doubled() == old(hand).is_doubled(),
                self.discard_pile@ == d0 + Seq::new(h0.len(), |t: int| h0[h0.len() - 1 - t]),
                self.draw_pile@ == old(self).draws(),
                self.size == old(self).size,
            decreases hand@.len(),
        {
            match hand.take_card() {
                Some(c) => {
                    self.discard_pile.place(c);
                    proof {
                        assert(hand@ =~= h0.take(hand@.len() as int));
                        assert(self.discard_pile@ =~= d0 + Seq::new(
                            (h0.len() - hand@.len()) as nat,
                            |t: int| h0[h0.len() - 1 - t],
                        ));
                    }
                },
                None => {
                    proof {
                        assert(Seq::new((h0.len() - hand@.len()) as nat, |t: int| h0[h0.len() - 1 - t])
                            =~= Seq::new(h0.len(), |t: int| h0[h0.len() - 1 - t]));
                    }
                    break;
                },
            }
        }
        proof {
            if h0.len() == 0 {
                assert(Seq::new(h0.len(), |t: int| h0[h0.len() - 1 - t]) =~= h0.reverse());
            } else {
                assert(Seq::new(h0.len(), |t: int| h0[h0.len() - 1 - t]) =~= h0.reverse());
            }
        }
    }

    /// Moves every card of the discard pile onto the draw pile and shuffles
    /// the draw pile; the discard pile is left empty.
    pub fn reshuffle(&mut self)
        ensures
            final(self).draws().to_multiset() == (old(self).draws()
                + old(self).discards()).to_multiset(),
            final(self).discards() == Seq::<Card>::empty(),
            final(self).size() == old(self).size(),
            final(self).total() == old(self).total(),
            final(self).contents() == old(self).contents(),
            old(self).valid() ==> final(self).valid(),
    {
        let ghost d0 = self.draw_pile@;
        let ghost x0 = self.discard_pile@;
        self.draw_pile.cards.append(&mut self.discard_pile.cards);
        self.draw_pile.shuffle();
        proof {
            vstd::seq_lib::lemma_multiset_commutative(d0, x0);
            assert(self.discard_pile@.to_multiset() =~= Multiset::<Card>::empty());
            assert((d0 + x0).to_multiset().len() == self.draw_pile@.to_multiset().len());
            if all_valid(d0) && all_valid(x0) {
                assert(all_valid(d0 + x0));
                lemma_same_cards_valid(d0 + x0, self.draw_pile@);
            }
        }
    }

    /// Whether both piles are empty.
    pub fn is_empty(&self) -> (r: bool)
        ensures
            r == (self.total() == 0),
    {
        self.draw_pile.count() == 0 && self.discard_pile.count() == 0
    }

    /// The number of decks the deck was built from.
    #[verifier::when_used_as_spec(spec_size)]
    pub fn size(&self) -> (r: usize)
        ensures
            r == self.spec_size(),
    {
        self.size
    }
}

} // verus!
