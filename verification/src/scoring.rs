//! The valuation of a set of cards, as mathematics.
//!
//! Every ace is first counted as 11. While the total is over 21 and an ace
//! is still counted high, one ace is demoted to 1, which lowers the total
//! by 10. The value of a hand is what is left when that stops.

use vstd::prelude::*;
use crate::card::Card;

verus! {

/// Sum of the cards' scores, with every ace counted as 11.
pub open spec fn raw_total(cards: Seq<Card>) -> nat
    decreases cards.len(),
{
    if cards.len() == 0 {
        0
    } else {
        raw_total(cards.drop_last()) + cards.last().spec_score()
    }
}

/// Number of aces among the cards.
pub open spec fn ace_count(cards: Seq<Card>) -> nat
    decreases cards.len(),
{
    if cards.len() == 0 {
        0
    } else {
        ace_count(cards.drop_last()) + if cards.last().spec_score() == 11 {
            1nat
        } else {
            0nat
        }
    }
}

/// Number of aces that have to be counted as 1 when `aces` aces counted
/// as 11 give `total`: the fewest that bring the total to 21 or below, and
/// all of them when even that is not enough. A total over 21 asks for one
/// demotion for every 10 points, or part of 10 points, that it is over.
pub open spec fn demotions(total: nat, aces: nat) -> nat {
    if total <= 21 {
        0
    } else if (total - 12) / 10 <= aces {
        ((total - 12) / 10) as nat
    } else {
        aces
    }
}

/// The total after the necessary demotions.
pub open spec fn settled_total(total: nat, aces: nat) -> nat {
    (total - 10 * demotions(total, aces)) as nat
}

/// The number of aces still counted as 11 after the necessary demotions.
pub open spec fn settled_aces(total: nat, aces: nat) -> nat {
    (aces - demotions(total, aces)) as nat
}

/// The blackjack value of the cards.
pub open spec fn hand_value(cards: Seq<Card>) -> nat {
    settled_total(raw_total(cards), ace_count(cards))
}

/// The number of aces that the value of the cards counts as 11.
pub open spec fn high_aces(cards: Seq<Card>) -> nat {
    settled_aces(raw_total(cards), ace_count(cards))
}

/// What a card scores at the least: an ace 1, any other card its score.
pub open spec fn low_score(card: Card) -> nat {
    if card.spec_score() == 11 {
        1
    } else {
        card.spec_score()
    }
}

/// The total with every ace counted as 1.
pub open spec fn hard_total(cards: Seq<Card>) -> nat {
    (raw_total(cards) - 10 * ace_count(cards)) as nat
}

/// Appending a card adds its score to the raw total, and one to the ace
/// count when it is an ace.
pub proof fn lemma_push_card(cards: Seq<Card>, card: Card)
    ensures
        raw_total(cards.push(card)) == raw_total(cards) + card.spec_score(),
        ace_count(cards.push(card)) == ace_count(cards) + if card.spec_score() == 11 {
            1nat
        } else {
            0nat
        },
{
    assert(cards.push(card).drop_last() =~= cards);
}

/// Every card scores between 2 and 11, and only an ace scores 11: so each
/// ace accounts for 11 points of the raw total and every other card for at
/// least 2.
pub proof fn lemma_total_bounds(cards: Seq<Card>)
    ensures
        11 * ace_count(cards) + 2 * (cards.len() - ace_count(cards)) <= raw_total(cards),
        raw_total(cards) <= 11 * ace_count(cards) + 10 * (cards.len() - ace_count(cards)),
        ace_count(cards) <= cards.len(),
    decreases cards.len(),
{
    if cards.len() > 0 {
        lemma_total_bounds(cards.drop_last());
    }
}

/// A prefix of the cards never totals more than all of them.
pub proof fn lemma_prefix_total(cards: Seq<Card>, n: int)
    requires
        0 <= n <= cards.len(),
    ensures
        raw_total(cards.take(n)) <= raw_total(cards),
        ace_count(cards.take(n)) <= ace_count(cards),
    decreases cards.len() - n,
{
    if n < cards.len() {
        lemma_prefix_total(cards, n + 1);
        assert(cards.take(n + 1) =~= cards.take(n).push(cards[n]));
        lemma_push_card(cards.take(n), cards[n]);
    } else {
        assert(cards.take(n) =~= cards);
    }
}

/// Cards whose value is below 17 hold fewer than 17 aces, so their raw
/// total is far from any machine limit.
pub proof fn lemma_low_value_total(cards: Seq<Card>)
    requires
        hand_value(cards) < 17,
    ensures
        raw_total(cards) < 187,
{
    lemma_total_bounds(cards);
}

/// The demotion is minimal: no more aces are counted as 1 than there are,
/// the total ends at 21 or below unless every ace has been demoted, and one
/// demotion fewer would leave it over 21.
pub proof fn lemma_demotions_minimal(total: nat, aces: nat)
    ensures
        demotions(total, aces) <= aces,
        10 * demotions(total, aces) <= total,
        settled_total(total, aces) <= 21 || settled_aces(total, aces) == 0,
        demotions(total, aces) > 0 ==> settled_total(total, aces) + 10 > 21,
{
}

/// Nothing else is minimal in that way: a number of demotions of which the
/// same holds is the number of demotions.
pub proof fn lemma_demotions_unique(total: nat, aces: nat, count: nat)
    requires
        count <= aces,
        total - 10 * count <= 21 || count == aces,
        count > 0 ==> total - 10 * (count - 1) > 21,
    ensures
        count == demotions(total, aces),
{
}

/// The demotion can be done one ace at a time: while the total is over 21
/// and an ace is counted high, demoting one ace changes neither the settled
/// total nor the settled number of high aces; otherwise nothing is demoted.
pub proof fn lemma_demote_one(total: nat, aces: nat)
    ensures
        total > 21 && aces > 0 ==> {
            &&& settled_total((total - 10) as nat, (aces - 1) as nat) == settled_total(total, aces)
            &&& settled_aces((total - 10) as nat, (aces - 1) as nat) == settled_aces(total, aces)
        },
        !(total > 21 && aces > 0) ==> {
            &&& settled_total(total, aces) == total
            &&& settled_aces(total, aces) == aces
        },
{
}

/// The value lies between the total with every ace counted as 1 and the
/// total with every ace counted as 11.
pub proof fn lemma_value_bounds(cards: Seq<Card>)
    ensures
        hard_total(cards) <= hand_value(cards) <= raw_total(cards),
        hand_value(cards) == hard_total(cards) + 10 * high_aces(cards),
        high_aces(cards) <= ace_count(cards),
{
    lemma_total_bounds(cards);
}

/// A soft hand is never bust, and at most one ace is ever counted as 11.
pub proof fn lemma_soft_is_not_bust(cards: Seq<Card>)
    ensures
        high_aces(cards) <= 1,
        high_aces(cards) == 1 ==> 11 <= hand_value(cards) <= 21,
{
    lemma_total_bounds(cards);
}

/// The value after one more card, from the value and the number of high
/// aces before it: the new card is counted at its score, and then aces are
/// demoted again as far as necessary.
pub proof fn lemma_value_after_card(cards: Seq<Card>, card: Card)
    ensures
        hand_value(cards.push(card)) == settled_total(
            hand_value(cards) + card.spec_score(),
            high_aces(cards) + if card.spec_score() == 11 {
                1nat
            } else {
                0nat
            },
        ),
        hard_total(cards.push(card)) == hard_total(cards) + low_score(card),
{
    lemma_push_card(cards, card);
    lemma_total_bounds(cards);
}

/// One more card never lowers the value of a hard hand, nor of a soft
/// hand that stays at 21 or below with the card counted at its least, nor
/// does a card that scores 10 lower any hand.
pub proof fn lemma_card_keeps_value(cards: Seq<Card>, card: Card)
    requires
        high_aces(cards) == 0 || card.spec_score() == 10 || hand_value(cards) + low_score(card)
            <= 21,
    ensures
        hand_value(cards.push(card)) >= hand_value(cards),
{
    lemma_value_after_card(cards, card);
}

/// Every other hand loses by one more card: a soft hand that the card,
/// not scoring 10, takes over 21 even when counted at its least has its
/// ace demoted and ends below its former value.
pub proof fn lemma_card_lowers_soft_value(cards: Seq<Card>, card: Card)
    requires
        high_aces(cards) > 0,
        card.spec_score() != 10,
        hand_value(cards) + low_score(card) > 21,
    ensures
        hand_value(cards.push(card)) < hand_value(cards),
{
    lemma_value_after_card(cards, card);
}

/// With every ace counted as 1, each card adds at least one point.
pub proof fn lemma_card_raises_hard_total(cards: Seq<Card>, card: Card)
    ensures
        hard_total(cards.push(card)) > hard_total(cards),
{
    lemma_value_after_card(cards, card);
}

/// Totals add up over two piles of cards.
pub proof fn lemma_totals_of_concat(cards: Seq<Card>, more: Seq<Card>)
    ensures
        raw_total(cards + more) == raw_total(cards) + raw_total(more),
        ace_count(cards + more) == ace_count(cards) + ace_count(more),
        hard_total(cards + more) == hard_total(cards) + hard_total(more),
    decreases more.len(),
{
    lemma_total_bounds(cards);
    lemma_total_bounds(more);
    if more.len() == 0 {
    } else {
        lemma_totals_of_concat(cards, more.drop_last());
        assert((cards + more).drop_last() =~= cards + more.drop_last());
    }
}

} // verus!
