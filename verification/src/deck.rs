//! The deck that hands are dealt from.

use vstd::prelude::*;
use crate::card::{Card, Rank, Suit};

verus! {

/// A pile of cards to deal from. Its view is the sequence of cards that are
/// still to come, the next one first. A card that has been dealt has left
/// the deck.
pub struct Deck {
    cards: Vec<Card>,
    dealt: usize,
}

impl View for Deck {
    type V = Seq<Card>;

    closed spec fn view(&self) -> Seq<Card> {
        self.cards@.skip(self.dealt as int)
    }
}

/// Card `i` of a run of new decks: thirteen ranks of clubs, of diamonds,
/// of hearts and of spades, and then the same again.
pub open spec fn standard_card(i: int) -> Card {
    Card { rank: Rank::spec_nth(i % 13), suit: Suit::spec_nth((i / 13) % 4) }
}

/// `count` new decks of 52 cards, one after the other.
pub open spec fn standard_decks(count: nat) -> Seq<Card> {
    Seq::new(52 * count, |i: int| standard_card(i))
}

/// The two cards at `i` and `j` exchanged.
pub open spec fn swapped(cards: Seq<Card>, i: int, j: int) -> Seq<Card> {
    cards.update(i, cards[j]).update(j, cards[i])
}

/// The generator that drives a shuffle: the state after `state`.
#[verifier::opaque]
pub open spec fn next_state(state: u64) -> u64 {
    state.wrapping_mul(6364136223846793005).wrapping_add(1442695040888963407)
}

/// The position below `bound` that a state of the generator picks.
#[verifier::opaque]
pub open spec fn pick(state: u64, bound: int) -> int {
    ((state >> 33) as int) % bound
}

/// The cards after the positions `last`, `last - 1`, down to 1 have each
/// been exchanged with a position picked at or below them.
pub open spec fn shuffled_down(cards: Seq<Card>, last: int, state: u64) -> Seq<Card>
    decreases last,
{
    if last <= 0 {
        cards
    } else {
        let state = next_state(state);
        shuffled_down(swapped(cards, last, pick(state, last + 1)), last - 1, state)
    }
}

/// The cards as a shuffle with the given seed leaves them.
pub open spec fn shuffled(cards: Seq<Card>, seed: u64) -> Seq<Card> {
    shuffled_down(cards, cards.len() - 1, seed)
}

/// A shuffle rearranges the cards: none is lost, none is added.
pub proof fn lemma_shuffled_is_permutation(cards: Seq<Card>, seed: u64)
    ensures
        shuffled(cards, seed).len() == cards.len(),
        shuffled(cards, seed).to_multiset() == cards.to_multiset(),
{
    lemma_shuffled_down(cards, cards.len() - 1, seed);
}

proof fn lemma_shuffled_down(cards: Seq<Card>, last: int, state: u64)
    requires
        last < cards.len(),
    ensures
        shuffled_down(cards, last, state).len() == cards.len(),
        shuffled_down(cards, last, state).to_multiset() == cards.to_multiset(),
    decreases last,
{
    if last > 0 {
        let state = next_state(state);
        let j = pick(state, last + 1);
        assert(0 <= j <= last) by {
            reveal(pick);
        }
        lemma_swapped(cards, last, j);
        lemma_shuffled_down(swapped(cards, last, j), last - 1, state);
    }
}

/// Exchanging two cards rearranges the cards.
pub proof fn lemma_swapped(cards: Seq<Card>, i: int, j: int)
    requires
        0 <= i < cards.len(),
        0 <= j < cards.len(),
    ensures
        swapped(cards, i, j).len() == cards.len(),
        swapped(cards, i, j).to_multiset() == cards.to_multiset(),
{
    vstd::seq_lib::to_multiset_update(cards, i, cards[j]);
    vstd::seq_lib::to_multiset_update(cards.update(i, cards[j]), j, cards[i]);
    cards.to_multiset_ensures();
}

/// In one new deck every card is there once: two positions among the
/// first 52 hold the same card only if they are the same position.
pub proof fn lemma_standard_deck_distinct(i: int, j: int)
    requires
        0 <= i < 52,
        0 <= j < 52,
        standard_card(i) == standard_card(j),
    ensures
        i == j,
{
}

/// One step of the generator.
fn advance(state: u64) -> (next: u64)
    ensures
        next == next_state(state),
{
    reveal(next_state);
    state.wrapping_mul(6364136223846793005).wrapping_add(1442695040888963407)
}

/// The position below `bound` that `state` picks.
fn pick_below(state: u64, bound: usize) -> (position: usize)
    requires
        bound > 0,
    ensures
        position == pick(state, bound as int),
        position < bound,
{
    reveal(pick);
    let high = state >> 33;
    assert(high < 0x8000_0000) by (bit_vector)
        requires
            high == state >> 33,
    ;
    (high as usize) % bound
}

impl Deck {
    /// No more cards were dealt than there are.
    #[verifier::type_invariant]
    spec fn inv(self) -> bool {
        self.dealt <= self.cards@.len()
    }

    /// `deck_count` new decks of 52 cards, one after the other, unshuffled.
    pub fn new(deck_count: usize) -> (deck: Deck)
        requires
            52 * deck_count <= usize::MAX,
        ensures
            deck@ == standard_decks(deck_count as nat),
    {
        let mut cards: Vec<Card> = Vec::new();
        for deck in 0..deck_count
            invariant
                cards@ == standard_decks(deck as nat),
                52 * deck_count <= usize::MAX,
        {
            for suit in 0..4usize
                invariant
                    cards@ == Seq::new((52 * deck + 13 * suit) as nat, |i: int| standard_card(i)),
            {
                for rank in 0..13usize
                    invariant
                        suit < 4,
                        cards@ == Seq::new(
                            (52 * deck + 13 * suit + rank) as nat,
                            |i: int| standard_card(i),
                        ),
                {
                    cards.push(Card::new(Rank::nth(rank), Suit::nth(suit)));
                }
            }
        }
        Deck { cards, dealt: 0 }
    }

    /// Shuffles the cards that are left: the same cards in another order,
    /// which the seed fixes.
    pub fn shuffle(&mut self, seed: u64)
        ensures
            final(self)@ == shuffled(old(self)@, seed),
            final(self)@.len() == old(self)@.len(),
            final(self)@.to_multiset() == old(self)@.to_multiset(),
    {
        proof {
            use_type_invariant(&*self);
            lemma_shuffled_is_permutation(self@, seed);
        }
        let left = self.cards.len() - self.dealt;
        if left < 2 {
            return ;
        }
        let mut state = seed;
        let mut last = left - 1;
        while last > 0
            invariant
                last < left == self@.len() == old(self)@.len(),
                shuffled_down(self@, last as int, state) == shuffled(old(self)@, seed),
            decreases last,
        {
            state = advance(state);
            let other = pick_below(state, last + 1);
            self.swap(last, other);
            last -= 1;
        }
    }

    /// Exchanges two of the cards that are left.
    fn swap(&mut self, i: usize, j: usize)
        requires
            i < old(self)@.len(),
            j < old(self)@.len(),
        ensures
            final(self)@ == swapped(old(self)@, i as int, j as int),
    {
        proof {
            use_type_invariant(&*self);
        }
        assert(self@.len() == self.cards.len() - self.dealt);
        let first = self.cards[self.dealt + i];
        let second = self.cards[self.dealt + j];
        self.cards[self.dealt + i] = second;
        self.cards[self.dealt + j] = first;
    }

    /// A deck that deals the given cards in order, the first one first.
    pub fn from_cards(cards: Vec<Card>) -> (deck: Deck)
        ensures
            deck@ == cards@,
    {
        Deck { cards, dealt: 0 }
    }

    /// Number of cards that are left.
    pub fn remaining(&self) -> (n: usize)
        ensures
            n == self@.len(),
    {
        proof {
            use_type_invariant(self);
        }
        self.cards.len() - self.dealt
    }

    /// Deals the next card.
    pub fn next_card(&mut self) -> (card: Card)
        requires
            old(self)@.len() > 0,
        ensures
            card == old(self)@[0],
            final(self)@ == old(self)@.skip(1),
    {
        proof {
            use_type_invariant(&*self);
            assert(self@.len() == self.cards.len() - self.dealt);
        }
        let card = self.cards[self.dealt];
        self.dealt = self.dealt + 1;
        card
    }
}

} // verus!
