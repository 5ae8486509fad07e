//! A single-table blackjack engine.
//!
//! * [`card`]: the cards and what they score.
//! * [`deck`]: the deck that cards are dealt from.
//! * [`scoring`]: the value of a set of cards, with aces counted as 11
//!   while that does not take the total over 21.
//! * [`hand`]: one hand with its wager, and what can be done with it: hit,
//!   split, double down, surrender.
//! * [`player`]: a player's hands of one round, the choice of the hand that
//!   is being played, the dealer's play, and the settlement of a round.
//!
//! Every function states what it returns and changes over the views of
//! these types, and is verified against that.

pub mod card;
pub mod deck;
pub mod hand;
pub mod player;
pub mod scoring;
