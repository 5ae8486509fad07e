//! One hand of cards with its wager.

use vstd::prelude::*;
use crate::card::Card;
use crate::deck::Deck;
use crate::scoring::{
    ace_count, hand_value, high_aces, lemma_card_keeps_value, lemma_card_lowers_soft_value,
    lemma_prefix_total, lemma_push_card, lemma_total_bounds, low_score, raw_total, settled_aces,
    settled_total,
};

verus! {

/// What a hand is: its cards in the order they were dealt, the wager placed
/// on it, and whether it was surrendered and whether it is finished, that
/// is, can no longer be acted on.
#[verifier::ext_equal]
pub struct HandView {
    pub cards: Seq<Card>,
    pub wager: int,
    pub surrendered: bool,
    pub finished: bool,
}

impl HandView {
    /// The blackjack value of the hand.
    pub open spec fn value(self) -> nat {
        hand_value(self.cards)
    }

    /// The number of aces that the value counts as 11.
    pub open spec fn high_aces(self) -> nat {
        high_aces(self.cards)
    }

    /// A hand is bust when its value is over 21.
    pub open spec fn busted(self) -> bool {
        self.value() > 21
    }

    /// A hand is lost when it was surrendered or is bust.
    pub open spec fn lost(self) -> bool {
        self.surrendered || self.busted()
    }

    /// A hand is soft when its value counts an ace as 11.
    pub open spec fn is_soft(self) -> bool {
        self.high_aces() > 0
    }

    /// Sum of the cards' scores with every ace counted as 11.
    pub open spec fn raw_total(self) -> nat {
        raw_total(self.cards)
    }

    /// A hand may be split while it holds exactly two cards that score the
    /// same. The scores decide, not the ranks: a king and a queen may be
    /// split.
    pub open spec fn can_split(self) -> bool {
        self.cards.len() == 2 && self.cards[0].spec_score() == self.cards[1].spec_score()
    }

    /// The hand with one more card.
    pub open spec fn with_card(self, card: Card) -> HandView {
        HandView { cards: self.cards.push(card), ..self }
    }

    /// The hand, finished.
    pub open spec fn set(self) -> HandView {
        HandView { finished: true, ..self }
    }

    /// The hand, surrendered. Surrendering does not finish a hand.
    pub open spec fn surrender(self) -> HandView {
        HandView { surrendered: true, ..self }
    }

    /// The hand after doubling down with `card`: twice the wager, finished,
    /// and exactly one more card.
    pub open spec fn double_wager(self, card: Card) -> HandView {
        HandView { wager: 2 * self.wager, finished: true, ..self }.with_card(card)
    }

    /// What stays of a split hand: its first card and `card` in place of
    /// the second.
    pub open spec fn split_kept(self, card: Card) -> HandView {
        HandView { cards: seq![self.cards[0], card], ..self }
    }

    /// The hand that is split off: the second card and `card`, under the
    /// same wager, neither surrendered nor finished.
    pub open spec fn split_off(self, card: Card) -> HandView {
        HandView {
            cards: seq![self.cards[1], card],
            wager: self.wager,
            surrendered: false,
            finished: false,
        }
    }
}

/// Taking a card never lowers the value of a hand, with one exception: a
/// soft hand that the card takes over 21, although the card is counted at
/// its least and does not score 10.
pub proof fn lemma_hit_keeps_value(hand: HandView, card: Card)
    requires
        !(hand.is_soft() && card.spec_score() != 10 && hand.value() + low_score(card) > 21),
    ensures
        hand.with_card(card).value() >= hand.value(),
{
    lemma_card_keeps_value(hand.cards, card);
}

/// The exception is a real one: such a hand has its ace demoted by the
/// card, and its value goes down. An ace and a king make a soft 21; with
/// a two they make 13.
pub proof fn lemma_hit_lowers_soft_hand(hand: HandView, card: Card)
    requires
        hand.is_soft(),
        card.spec_score() != 10,
        hand.value() + low_score(card) > 21,
    ensures
        hand.with_card(card).value() < hand.value(),
        !hand.with_card(card).busted(),
{
    lemma_card_lowers_soft_value(hand.cards, card);
}

/// A soft hand is not bust, and a bust hand is lost.
pub proof fn lemma_soft_bust_lost(hand: HandView)
    ensures
        hand.is_soft() ==> !hand.busted(),
        hand.busted() ==> hand.lost(),
        hand.surrendered ==> hand.lost(),
{
}

/// Doubling down doubles the wager, adds exactly one card and finishes the
/// hand, bust or not.
pub proof fn lemma_double_wager(hand: HandView, card: Card)
    ensures
        hand.double_wager(card).wager == 2 * hand.wager,
        hand.double_wager(card).cards.len() == hand.cards.len() + 1,
        hand.double_wager(card).cards.last() == card,
        hand.double_wager(card).finished,
        hand.double_wager(card).surrendered == hand.surrendered,
{
}

/// Both hands of a split hold two cards and carry the wager of the hand
/// that was split; the new one is neither surrendered nor finished.
pub proof fn lemma_split(hand: HandView, first: Card, second: Card)
    ensures
        hand.split_kept(first).cards.len() == 2,
        hand.split_off(second).cards.len() == 2,
        hand.split_kept(first).wager == hand.wager,
        hand.split_off(second).wager == hand.wager,
        !hand.split_off(second).finished,
        !hand.split_off(second).surrendered,
{
}

/// A hand that is bet on, dealt from a deck. The scores of its cards add
/// up to a number of 32 bits: whatever adds a card asks for that.
pub struct Hand {
    cards: Vec<Card>,
    surrendered: bool,
    is_set: bool,
    wager: i32,
}

impl View for Hand {
    type V = HandView;

    closed spec fn view(&self) -> HandView {
        HandView {
            cards: self.cards@,
            wager: self.wager as int,
            surrendered: self.surrendered,
            finished: self.is_set,
        }
    }
}

impl Clone for Hand {
    /// A copy of the hand, with the same cards, wager and flags.
    fn clone(&self) -> (copy: Hand)
        ensures
            copy@ == self@,
    {
        proof {
            use_type_invariant(self);
        }
        let cards = self.cards.clone();
        Hand { cards, surrendered: self.surrendered, is_set: self.is_set, wager: self.wager }
    }
}

impl Hand {
    /// The raw total of the cards can be computed in 32 bits.
    #[verifier::type_invariant]
    spec fn inv(self) -> bool {
        raw_total(self.cards@) <= u32::MAX
    }

    /// Deals a fresh hand of two cards.
    pub fn new(wager: i32, deck: &mut Deck) -> (hand: Hand)
        requires
            old(deck)@.len() >= 2,
        ensures
            hand@ == (HandView {
                cards: old(deck)@.take(2),
                wager: wager as int,
                surrendered: false,
                finished: false,
            }),
            hand@.cards.len() == 2,
            final(deck)@ == old(deck)@.skip(2),
    {
        let mut cards: Vec<Card> = Vec::with_capacity(11);
        for dealt in 0..2usize
            invariant
                cards@ == old(deck)@.take(dealt as int),
                deck@ == old(deck)@.skip(dealt as int),
                old(deck)@.len() >= 2,
        {
            let card = deck.next_card();
            cards.push(card);
        }
        proof {
            lemma_total_bounds(cards@);
        }
        Hand { cards, surrendered: false, is_set: false, wager }
    }

    /// The value of the hand, or, with `get_aces`, the number of aces that
    /// the value counts as 11.
    pub fn value(&self, get_aces: bool) -> (result: u32)
        ensures
            result == if get_aces {
                self@.high_aces()
            } else {
                self@.value()
            },
    {
        proof {
            use_type_invariant(self);
        }
        let mut total: u32 = 0;
        let mut aces: u32 = 0;
        for card in it: self.cards.iter()
            invariant
                it.seq().len() == self.cards@.len(),
                forall|i: int| 0 <= i < it.seq().len() ==> *it.seq()[i] == self.cards@[i],
                total == raw_total(self.cards@.take(it.index() as int)),
                aces == ace_count(self.cards@.take(it.index() as int)),
                raw_total(self.cards@) <= u32::MAX,
        {
            let value = card.score();
            proof {
                let n = it.index() as int;
                assert(self.cards@.take(n + 1) =~= self.cards@.take(n).push(*card));
                lemma_push_card(self.cards@.take(n), *card);
                lemma_prefix_total(self.cards@, n + 1);
                lemma_total_bounds(self.cards@.take(n + 1));
            }
            if value == 11 {
                aces += 1
            }
            total += value;
        }
        assert(self.cards@.take(self.cards@.len() as int) =~= self.cards@);
        while total > 21 && aces > 0
            invariant
                settled_total(total as nat, aces as nat) == self@.value(),
                settled_aces(total as nat, aces as nat) == self@.high_aces(),
            decreases aces,
        {
            total -= 10;
            aces -= 1;
        }
        match get_aces {
            true => aces,
            false => total,
        }
    }

    /// Whether the value counts an ace as 11.
    pub fn is_soft(&self) -> (soft: bool)
        ensures
            soft == self@.is_soft(),
    {
        self.value(true) > 0
    }

    /// Whether the value is over 21.
    pub fn busted(&self) -> (bust: bool)
        ensures
            bust == self@.busted(),
    {
        self.value(false) > 21
    }

    /// Whether the hand was surrendered or is bust.
    pub fn lost(&self) -> (lost: bool)
        ensures
            lost == self@.lost(),
    {
        self.surrendered || self.busted()
    }

    /// The wager placed on the hand.
    pub fn get_wager(&self) -> (wager: i32)
        ensures
            wager == self@.wager,
    {
        self.wager
    }

    /// Whether the hand is finished.
    pub fn get_is_set(&self) -> (finished: bool)
        ensures
            finished == self@.finished,
    {
        self.is_set
    }

    /// The cards in the order they were dealt.
    pub fn card_iter(&self) -> (cards: std::slice::Iter<'_, Card>)
        ensures
            vstd::std_specs::slice::into_iter_elts(cards) == self@.cards,
            vstd::std_specs::iter::IteratorSpec::decrease(&cards) is Some,
            vstd::std_specs::iter::IteratorSpec::initial_value_relation(&cards, &cards),
    {
        self.cards.iter()
    }

    /// Number of cards in the hand.
    pub fn get_card_count(&self) -> (count: usize)
        ensures
            count == self@.cards.len(),
    {
        self.cards.len()
    }

    /// Card `idx` of the hand, in the order of dealing.
    pub fn get_card_at(&self, idx: usize) -> (card: Card)
        requires
            idx < self@.cards.len(),
        ensures
            card == self@.cards[idx as int],
    {
        self.cards[idx]
    }

    /// Marks the hand finished.
    pub fn set(&mut self)
        ensures
            final(self)@ == old(self)@.set(),
    {
        proof {
            use_type_invariant(&*self);
        }
        self.is_set = true;
    }

    /// Marks the hand surrendered. It is not finished by that.
    pub fn surrender(&mut self)
        ensures
            final(self)@ == old(self)@.surrender(),
    {
        proof {
            use_type_invariant(&*self);
        }
        self.surrendered = true;
    }

    /// Takes one card from the deck and says whether the hand is bust with
    /// it. The hand is not finished by that.
    pub fn hit(&mut self, deck: &mut Deck) -> (bust: bool)
        requires
            old(deck)@.len() >= 1,
            old(self)@.raw_total() + old(deck)@[0].spec_score() <= u32::MAX,
        ensures
            final(self)@ == old(self)@.with_card(old(deck)@[0]),
            final(deck)@ == old(deck)@.skip(1),
            bust == final(self)@.busted(),
    {
        proof {
            lemma_push_card(self.cards@, deck@[0]);
        }
        // The cards are taken out while the vector grows, so that the hand
        // is a valid one at every point.
        let mut cards = Vec::new();
        std::mem::swap(&mut cards, &mut self.cards);
        cards.push(deck.next_card());
        self.cards = cards;
        self.busted()
    }

    /// Doubles the wager, finishes the hand, then takes exactly one card and
    /// says whether the hand is bust with it.
    pub fn double_wager(&mut self, deck: &mut Deck) -> (bust: bool)
        requires
            old(deck)@.len() >= 1,
            old(self)@.raw_total() + old(deck)@[0].spec_score() <= u32::MAX,
            i32::MIN <= 2 * old(self)@.wager <= i32::MAX,
        ensures
            final(self)@ == old(self)@.double_wager(old(deck)@[0]),
            final(deck)@ == old(deck)@.skip(1),
            bust == final(self)@.busted(),
    {
        self.wager *= 2;
        self.is_set = true;
        self.hit(deck)
    }

    /// Splits the hand if it may be split: the second card moves to a new
    /// hand under the same wager, and each of the two hands gets one card
    /// from the deck, this one first. Otherwise nothing changes.
    pub fn split(&mut self, deck: &mut Deck) -> (new_hand: Option<Hand>)
        requires
            old(self)@.can_split() ==> old(deck)@.len() >= 2,
        ensures
            old(self)@.can_split() ==> {
                &&& new_hand matches Some(hand)
                &&& hand@ == old(self)@.split_off(old(deck)@[1])
                &&& final(self)@ == old(self)@.split_kept(old(deck)@[0])
                &&& final(deck)@ == old(deck)@.skip(2)
            },
            !old(self)@.can_split() ==> {
                &&& new_hand is None
                &&& final(self)@ == old(self)@
                &&& final(deck)@ == old(deck)@
            },
    {
        if self.cards.len() == 2 {
            if self.cards[0].score() == self.cards[1].score() {
                let card = self.cards[1];
                let replacement = deck.next_card();
                proof {
                    assert forall|any: Card| raw_total(#[trigger] self.cards@.update(1, any))
                        <= u32::MAX by {
                        lemma_total_bounds(self.cards@.update(1, any));
                    }
                }
                self.cards[1] = replacement;
                let cards = vec![card, deck.next_card()];
                proof {
                    lemma_total_bounds(cards@);
                }
                return Some(Hand { cards, surrendered: false, is_set: false, wager: self.wager });
            }
        }
        None
    }
}

} // verus!
