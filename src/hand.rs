use vstd::prelude::*;

use crate::card::{Card, CardFace};
use crate::deck::{all_valid, Deck};

verus! {

/// The total of `cards` when every Ace counts as 1 (other face cards count
/// 10, number cards their rank).
pub open spec fn min_total(cards: Seq<Card>) -> nat
    decreases cards.len(),
{
    if cards.len() == 0 {
        0
    } else {
        min_total(cards.drop_last()) + cards.last().min_points()
    }
}

/// The number of Aces among `cards`.
pub open spec fn ace_count(cards: Seq<Card>) -> nat
    decreases cards.len(),
{
    if cards.len() == 0 {
        0
    } else {
        ace_count(cards.drop_last()) + if cards.last().is_ace() {
            1nat
        } else {
            0nat
        }
    }
}

/// Every total that `cards` can reach, from the smallest up: the `j`-th
/// counts `j` of the Aces as 11 and the others as 1.
pub open spec fn totals(cards: Seq<Card>) -> Seq<int> {
    Seq::new(ace_count(cards) + 1, |j: int| min_total(cards) + 10 * j)
}

/// The largest total of `cards` still fits in a `u32`.
pub open spec fn fits(cards: Seq<Card>) -> bool {
    min_total(cards) + 10 * ace_count(cards) <= u32::MAX
}

/// How many totals of `cards` are legal (at most 21); they are the first ones.
pub open spec fn legal_count(cards: Seq<Card>) -> nat {
    if min_total(cards) > 21 {
        0
    } else {
        let room = ((21 - min_total(cards)) / 10) as nat;
        if ace_count(cards) < room {
            ace_count(cards) + 1
        } else {
            room + 1
        }
    }
}

/// The best legal total of `cards`, or 0 when every total is over 21.
pub open spec fn true_total(cards: Seq<Card>) -> int {
    if legal_count(cards) == 0 {
        0
    } else {
        totals(cards)[legal_count(cards) - 1]
    }
}

/// A blackjack: exactly two cards whose best legal total is 21.
pub open spec fn blackjack(cards: Seq<Card>) -> bool {
    cards.len() == 2 && true_total(cards) == 21
}

/// Two cards of the same rank.
pub open spec fn splittable(cards: Seq<Card>) -> bool {
    cards.len() == 2 && cards[0].val == cards[1].val
}

/// Each Ace adds at least one to the smallest total, so totals stay in
/// range while the smallest total is small.
pub proof fn lemma_aces_bounded(cards: Seq<Card>)
    ensures
        ace_count(cards) <= min_total(cards),
    decreases cards.len(),
{
    if cards.len() > 0 {
        lemma_aces_bounded(cards.drop_last());
    }
}

/// The totals that `legal_count` counts are exactly those at most 21.
pub proof fn lemma_legal_count(cards: Seq<Card>)
    ensures
        legal_count(cards) <= totals(cards).len(),
        forall|j: int|
            0 <= j < totals(cards).len() ==> (#[trigger] totals(cards)[j] <= 21 <==> j
                < legal_count(cards)),
{
}

/// The totals of a prefix of `cards` are no larger than those of `cards`.
pub proof fn lemma_prefix_totals(cards: Seq<Card>, i: int)
    requires
        0 <= i <= cards.len(),
    ensures
        min_total(cards.take(i)) <= min_total(cards),
        ace_count(cards.take(i)) <= ace_count(cards),
    decreases cards.len(),
{
    if i < cards.len() {
        assert(cards.drop_last().take(i) =~= cards.take(i));
        lemma_prefix_totals(cards.drop_last(), i);
    } else {
        assert(cards.take(i) =~= cards);
    }
}

/// Extending a prefix by the next card.
pub proof fn lemma_take_next(cards: Seq<Card>, i: int)
    requires
        0 <= i < cards.len(),
    ensures
        min_total(cards.take(i + 1)) == min_total(cards.take(i)) + cards[i].min_points(),
        ace_count(cards.take(i + 1)) == ace_count(cards.take(i)) + if cards[i].is_ace() {
            1nat
        } else {
            0nat
        },
{
    assert(cards.take(i + 1).drop_last() =~= cards.take(i));
}

/// Well-formed cards count at most 14 each, even with every Ace at 11.
pub proof fn lemma_valid_fits(cards: Seq<Card>)
    requires
        all_valid(cards),
    ensures
        min_total(cards) + 10 * ace_count(cards) <= 14 * cards.len(),
    decreases cards.len(),
{
    if cards.len() > 0 {
        let rest = cards.drop_last();
        assert(all_valid(rest)) by {
            assert forall|i: int| 0 <= i < rest.len() implies (#[trigger] rest[i]).valid() by {
                assert(rest[i] == cards[i]);
            }
        }
        assert(cards.last() == cards[cards.len() - 1]);
        lemma_valid_fits(rest);
    }
}

/// A hand of `k` Aces and nothing else reaches exactly `k + 1` totals,
/// strictly increasing from `k` (every Ace counted as 1) to `11 * k` (every
/// Ace counted as 11).
pub proof fn lemma_aces_only(cards: Seq<Card>)
    requires
        forall|i: int| 0 <= i < cards.len() ==> (#[trigger] cards[i]).is_ace(),
    ensures
        totals(cards).len() == cards.len() + 1,
        totals(cards)[0] == cards.len(),
        totals(cards)[cards.len() as int] == 11 * cards.len(),
        forall|i: int, j: int|
            0 <= i < j < totals(cards).len() ==> #[trigger] totals(cards)[i] < #[trigger] totals(
                cards,
            )[j],
    decreases cards.len(),
{
    if cards.len() > 0 {
        let rest = cards.drop_last();
        assert forall|i: int| 0 <= i < rest.len() implies (#[trigger] rest[i]).is_ace() by {
            assert(rest[i] == cards[i]);
        }
        assert(cards.last() == cards[cards.len() - 1]);
        lemma_aces_only(rest);
    }
}

/// A player's or the dealer's hand: its cards in the order received, and
/// whether it was doubled.
pub struct Hand {
    cards: Vec<Card>,
    doubled: bool,
}

impl View for Hand {
    type V = Seq<Card>;

    closed spec fn view(&self) -> Seq<Card> {
        self.cards@
    }
}

impl Hand {
    pub closed spec fn spec_doubled(&self) -> bool {
        self.doubled
    }

    /// An empty hand, not doubled.
    pub fn new() -> (r: Hand)
        ensures
            r@ == Seq::<Card>::empty(),
            !r.is_doubled(),
    {
        Hand { cards: Vec::new(), doubled: false }
    }

    /// Draws the top card of the deck's draw pile into the hand and returns
    /// it. When the draw pile is empty, the deck is reshuffled first.
    pub fn draw_from(&mut self, deck: &mut Deck) -> (r: Card)
        requires
            old(deck).total() > 0,
        ensures
            final(self)@ == old(self)@.push(r),
            final(self).is_doubled() == old(self).is_doubled(),
            final(deck).total() + final(self)@.len() == old(deck).total() + old(self)@.len(),
            final(deck).size() == old(deck).size(),
            final(deck).total() + 1 == old(deck).total(),
            final(deck).contents().insert(r) == old(deck).contents(),
            old(deck).draws().len() > 0 ==> r == old(deck).draws().last() && final(deck).draws()
                == old(deck).draws().drop_last() && final(deck).discards() == old(deck).discards(),
            old(deck).draws().len() == 0 ==> final(deck).discards() == Seq::<Card>::empty()
                && final(deck).draws().to_multiset().insert(r) == old(deck).discards().to_multiset(),
            old(deck).valid() ==> final(deck).valid() && r.valid(),
    {
        let c = deck.draw();
        self.cards.push(c);
        c
    }

    /// Takes the last card received, if any.
    pub fn take_card(&mut self) -> (r: Option<Card>)
        ensures
            old(self)@.len() == 0 ==> r is None && final(self)@ == old(self)@,
            old(self)@.len() > 0 ==> r == Some(old(self)@.last()) && final(self)@
                == old(self)@.drop_last(),
            final(self).is_doubled() == old(self).is_doubled(),
    {
        self.cards.pop()
    }

    /// Adds the card, if there is one.
    pub fn give_card(&mut self, card: Option<Card>)
        ensures
            card matches Some(c) ==> final(self)@ == old(self)@.push(c),
            card is None ==> final(self)@ == old(self)@,
            final(self).is_doubled() == old(self).is_doubled(),
    {
        match card {
            Some(c) => self.cards.push(c),
            None => {},
        }
    }

    /// The cards of the hand, in the order received.
    pub fn cards(&self) -> (r: &Vec<Card>)
        ensures
            r@ == self@,
    {
        &self.cards
    }

    /// The card shown face up: the first one received, if any.
    pub fn top_card(&self) -> (r: Option<Card>)
        ensures
            self@.len() == 0 ==> r is None,
            self@.len() > 0 ==> r == Some(self@[0]),
    {
        if self.cards.len() == 0 {
            None
        } else {
            Some(self.cards[0])
        }
    }

    /// Marks the hand as doubled, or not.
    pub fn set_doubled(&mut self, doubled: bool)
        ensures
            final(self)@ == old(self)@,
            final(self).is_doubled() == doubled,
    {
        self.doubled = doubled;
    }

    /// Whether the hand was doubled.
    #[verifier::when_used_as_spec(spec_doubled)]
    pub fn is_doubled(&self) -> (r: bool)
        ensures
            r == self.spec_doubled(),
    {
        self.doubled
    }

    /// Every total the hand can reach by counting each Ace as 1 or 11, in
    /// increasing order; `k` Aces give `k + 1` totals.
    pub fn value(&self) -> (r: Vec<u32>)
        requires
            fits(self@),
        ensures
            r@.len() == totals(self@).len(),
            forall|j: int| 0 <= j < r@.len() ==> r@[j] as int == #[trigger] totals(self@)[j],
    {
        let mut vals: Vec<u32> = Vec::new();
        vals.push(0);
        let n = self.cards.len();
        let mut i: usize = 0;
        while i < n
            invariant
                n == self@.len(),
                0 <= i <= n,
                fits(self@),
                vals@.len() == ace_count(self@.take(i as int)) + 1,
                forall|j: int|
                    0 <= j < vals@.len() ==> #[trigger] vals@[j] as int == min_total(
                        self@.take(i as int),
                    ) + 10 * j,
            decreases n - i,
        {
            let card = self.cards[i];
            proof {
                lemma_take_next(self@, i as int);
                lemma_prefix_totals(self@, i as int + 1);
            }
            match card.face {
                Some(CardFace::A) => {
                    let len = vals.len();
                    let mut j: usize = 0;
                    while j < len
                        invariant
                            len == vals@.len(),
                            0 <= j <= len,
                            min_total(self@.take(i as int)) + 1 + 10 * (len - 1) <= u32::MAX,
                            forall|t: int|
                                0 <= t < len ==> #[trigger] vals@[t] as int == min_total(
                                    self@.take(i as int),
                                ) + 10 * t + if t < j {
                                    1int
                                } else {
                                    0int
                                },
                        decreases len - j,
                    {
                        vals[j] = vals[j] + 1;
                        j += 1;
                    }
                    let top = vals[len - 1];
                    vals.push(top + 10);
                },
                Some(_) => {
                    let len = vals.len();
                    let mut j: usize = 0;
                    while j < len
                        invariant
                            len == vals@.len(),
                            0 <= j <= len,
                            min_total(self@.take(i as int)) + 10 + 10 * (len - 1) <= u32::MAX,
                            forall|t: int|
                                0 <= t < len ==> #[trigger] vals@[t] as int == min_total(
                                    self@.take(i as int),
                                ) + 10 * t + if t < j {
                                    10int
                                } else {
                                    0int
                                },
                        decreases len - j,
                    {
                        vals[j] = vals[j] + 10;
                        j += 1;
                    }
                },
                None => {
                    let len = vals.len();
                    let mut j: usize = 0;
                    while j < len
                        invariant
                            len == vals@.len(),
                            0 <= j <= len,
                            min_total(self@.take(i as int)) + card.val + 10 * (len - 1)
                                <= u32::MAX,
                            forall|t: int|
                                0 <= t < len ==> #[trigger] vals@[t] as int == min_total(
                                    self@.take(i as int),
                                ) + 10 * t + if t < j {
                                    card.val as int
                                } else {
                                    0int
                                },
                        decreases len - j,
                    {
                        vals[j] = vals[j] + card.val;
                        j += 1;
                    }
                },
            }
            i += 1;
        }
        proof {
            assert(self@.take(n as int) =~= self@);
        }
        vals
    }

    /// The legal totals of the hand (those at most 21), in increasing order.
    pub fn filter_value(&self) -> (r: Vec<u32>)
        requires
            fits(self@),
        ensures
            r@.len() == legal_count(self@),
            forall|j: int| 0 <= j < r@.len() ==> r@[j] as int == #[trigger] totals(self@)[j],
            forall|j: int|
                0 <= j < totals(self@).len() ==> (#[trigger] totals(self@)[j] <= 21 <==> j
                    < r@.len()),
    {
        let vals = self.value();
        let mut legal: Vec<u32> = Vec::new();
        let mut i: usize = 0;
        proof {
            lemma_legal_count(self@);
        }
        while i < vals.len()
            invariant
                vals@.len() == totals(self@).len(),
                forall|j: int| 0 <= j < vals@.len() ==> vals@[j] as int == #[trigger] totals(self@)[j],
                forall|j: int|
                    0 <= j < totals(self@).len() ==> (#[trigger] totals(self@)[j] <= 21 <==> j
                        < legal_count(self@)),
                legal_count(self@) <= totals(self@).len(),
                0 <= i <= vals@.len(),
                legal@.len() == if i < legal_count(self@) { i as nat } else { legal_count(self@) },
                forall|j: int| 0 <= j < legal@.len() ==> legal@[j] == vals@[j],
            decreases vals@.len() - i,
        {
            assert(vals@[i as int] as int == totals(self@)[i as int]);
            if vals[i] <= 21 {
                legal.push(vals[i]);
            }
            i += 1;
        }
        legal
    }

    /// The best legal total of the hand, or 0 when it is busted.
    pub fn true_value(&self) -> (r: u32)
        requires
            fits(self@),
        ensures
            r as int == true_total(self@),
    {
        let legal = self.filter_value();
        let mut best: u32 = 0;
        let mut i: usize = 0;
        while i < legal.len()
            invariant
                forall|j: int| 0 <= j < legal@.len() ==> legal@[j] as int == #[trigger] totals(self@)[j],
                0 <= i <= legal@.len(),
                legal@.len() <= totals(self@).len(),
                i == 0 ==> best == 0,
                i > 0 ==> best == legal@[i - 1],
            decreases legal@.len() - i,
        {
            assert(legal@[i as int] as int == totals(self@)[i as int]);
            if i > 0 {
                assert(legal@[i - 1] as int == totals(self@)[i - 1]);
            }
            if legal[i] > best {
                best = legal[i];
            }
            i += 1;
        }
        best
    }

    /// A blackjack is a hand of exactly two cards whose true value is 21.
    pub fn is_blackjack(&self) -> (r: bool)
        requires
            fits(self@),
        ensures
            r == blackjack(self@),
    {
        self.true_value() == 21 && self.cards.len() == 2
    }

    /// A hand is busted when every total it can reach is over 21.
    pub fn is_busted(&self) -> (r: bool)
        requires
            fits(self@),
        ensures
            r == (min_total(self@) > 21),
            r == (forall|j: int| 0 <= j < totals(self@).len() ==> #[trigger] totals(self@)[j] > 21),
            r == (legal_count(self@) == 0),
    {
        let vals = self.value();
        let mut least: u32 = vals[0];
        let mut i: usize = 1;
        while i < vals.len()
            invariant
                vals@.len() == totals(self@).len(),
                forall|j: int| 0 <= j < vals@.len() ==> vals@[j] as int == #[trigger] totals(self@)[j],
                1 <= i <= vals@.len(),
                least == vals@[0],
            decreases vals@.len() - i,
        {
            assert(vals@[i as int] as int == totals(self@)[i as int]);
            assert(vals@[0] as int == totals(self@)[0]);
            if vals[i] < least {
                least = vals[i];
            }
            i += 1;
        }
        proof {
            assert(totals(self@)[0] == min_total(self@));
            lemma_legal_count(self@);
        }
        least > 21
    }

    /// A hand can be split when it holds exactly two cards of the same rank
    /// (a King and a Queen differ).
    pub fn is_splittable(&self) -> (r: bool)
        ensures
            r == splittable(self@),
    {
        if self.cards.len() != 2 {
            return false;
        }
        self.cards[0].val == self.cards[1].val
    }
}

} // verus!
