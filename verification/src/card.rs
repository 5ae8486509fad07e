//! Playing cards and the points they score in blackjack.

use vstd::prelude::*;

verus! {

/// The four suits. A suit never affects how a card scores.
#[derive(Clone, Copy, Debug, PartialEq, Eq, Structural)]
pub enum Suit {
    Clubs,
    Diamonds,
    Hearts,
    Spades,
}

/// The thirteen ranks of a standard deck.
#[derive(Clone, Copy, Debug, PartialEq, Eq, Structural)]
pub enum Rank {
    Ace,
    Two,
    Three,
    Four,
    Five,
    Six,
    Seven,
    Eight,
    Nine,
    Ten,
    Jack,
    Queen,
    King,
}

/// One card of a deck.
#[derive(Clone, Copy, Debug, PartialEq, Eq, Structural)]
pub struct Card {
    pub rank: Rank,
    pub suit: Suit,
}

impl Suit {
    /// The suits in their order in a new deck.
    pub open spec fn spec_nth(i: int) -> Suit {
        if i == 0 {
            Suit::Clubs
        } else if i == 1 {
            Suit::Diamonds
        } else if i == 2 {
            Suit::Hearts
        } else {
            Suit::Spades
        }
    }

    /// Suit number `i` of a new deck.
    pub fn nth(i: usize) -> (suit: Suit)
        requires
            i < 4,
        ensures
            suit == Suit::spec_nth(i as int),
    {
        match i {
            0 => Suit::Clubs,
            1 => Suit::Diamonds,
            2 => Suit::Hearts,
            _ => Suit::Spades,
        }
    }
}

impl Rank {
    /// The ranks in their order in a new deck, the ace first.
    pub open spec fn spec_nth(i: int) -> Rank {
        if i == 0 {
            Rank::Ace
        } else if i == 1 {
            Rank::Two
        } else if i == 2 {
            Rank::Three
        } else if i == 3 {
            Rank::Four
        } else if i == 4 {
            Rank::Five
        } else if i == 5 {
            Rank::Six
        } else if i == 6 {
            Rank::Seven
        } else if i == 7 {
            Rank::Eight
        } else if i == 8 {
            Rank::Nine
        } else if i == 9 {
            Rank::Ten
        } else if i == 10 {
            Rank::Jack
        } else if i == 11 {
            Rank::Queen
        } else {
            Rank::King
        }
    }

    /// Rank number `i` of a suit in a new deck.
    pub fn nth(i: usize) -> (rank: Rank)
        requires
            i < 13,
        ensures
            rank == Rank::spec_nth(i as int),
    {
        match i {
            0 => Rank::Ace,
            1 => Rank::Two,
            2 => Rank::Three,
            3 => Rank::Four,
            4 => Rank::Five,
            5 => Rank::Six,
            6 => Rank::Seven,
            7 => Rank::Eight,
            8 => Rank::Nine,
            9 => Rank::Ten,
            10 => Rank::Jack,
            11 => Rank::Queen,
            _ => Rank::King,
        }
    }

    /// Points a card of this rank scores: number cards their face value,
    /// face cards 10, and an ace 11. Whether an ace is later counted as 1
    /// is decided when a whole hand is valued, never on the card.
    pub open spec fn spec_score(self) -> nat {
        match self {
            Rank::Ace => 11,
            Rank::Two => 2,
            Rank::Three => 3,
            Rank::Four => 4,
            Rank::Five => 5,
            Rank::Six => 6,
            Rank::Seven => 7,
            Rank::Eight => 8,
            Rank::Nine => 9,
            Rank::Ten | Rank::Jack | Rank::Queen | Rank::King => 10,
        }
    }

    /// Points a card of this rank scores.
    pub fn score(self) -> (points: u32)
        ensures
            points == self.spec_score(),
            2 <= points <= 11,
    {
        match self {
            Rank::Ace => 11,
            Rank::Two => 2,
            Rank::Three => 3,
            Rank::Four => 4,
            Rank::Five => 5,
            Rank::Six => 6,
            Rank::Seven => 7,
            Rank::Eight => 8,
            Rank::Nine => 9,
            Rank::Ten | Rank::Jack | Rank::Queen | Rank::King => 10,
        }
    }
}

impl Card {
    /// The card of the given rank and suit.
    pub fn new(rank: Rank, suit: Suit) -> (card: Card)
        ensures
            card == (Card { rank, suit }),
    {
        Card { rank, suit }
    }

    /// Points this card scores; see [`Rank::spec_score`].
    pub open spec fn spec_score(self) -> nat {
        self.rank.spec_score()
    }

    /// Points this card scores.
    pub fn score(&self) -> (points: u32)
        ensures
            points == self.spec_score(),
            2 <= points <= 11,
    {
        self.rank.score()
    }
}

} // verus!
