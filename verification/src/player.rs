//! A player at the table: the hands of one round, a balance, and the rules
//! that route every decision to the hand that is being played.

use vstd::prelude::*;
use crate::card::Card;
use crate::deck::Deck;
use crate::hand::{Hand, HandView};
use crate::scoring::{
    hand_value, hard_total, lemma_low_value_total, lemma_total_bounds, lemma_totals_of_concat,
    lemma_value_bounds,
};

verus! {

/// What a player is: a name, whether this is the dealer, the hands of the
/// current round in the order they were created, the balance, and the
/// standing, which accumulates every change of the balance. Nothing here
/// ever sets the standing back: it adds up over the rounds.
#[verifier::ext_equal]
pub struct PlayerView {
    pub name: Seq<char>,
    pub is_dealer: bool,
    pub hands: Seq<HandView>,
    pub balance: int,
    pub standing: int,
}

impl PlayerView {
    /// Whether hand `i` is the one being played: the first hand, in the
    /// order of creation, that is not finished.
    pub open spec fn plays_at(self, i: int) -> bool {
        &&& 0 <= i < self.hands.len()
        &&& !self.hands[i].finished
        &&& forall|j: int| 0 <= j < i ==> self.hands[j].finished
    }

    /// Whether any hand is still to be played.
    pub open spec fn is_playing(self) -> bool {
        exists|i: int| 0 <= i < self.hands.len() && !self.hands[i].finished
    }

    /// Index of the hand being played, while there is one.
    pub open spec fn playing_index(self) -> int {
        choose|i: int| self.plays_at(i)
    }

    /// The hand being played, while there is one.
    pub open spec fn playing_hand(self) -> HandView {
        self.hands[self.playing_index()]
    }

    /// The player with `hand` in place of the hand being played.
    pub open spec fn with_playing_hand(self, hand: HandView) -> PlayerView {
        PlayerView { hands: self.hands.update(self.playing_index(), hand), ..self }
    }

    /// The player after the hand being played stands.
    pub open spec fn stand(self) -> PlayerView {
        self.with_playing_hand(self.playing_hand().set())
    }

    /// The player after the hand being played takes `card`: a hand that
    /// goes bust is finished at once.
    pub open spec fn hit(self, card: Card) -> PlayerView {
        let hand = self.playing_hand().with_card(card);
        self.with_playing_hand(if hand.busted() { hand.set() } else { hand })
    }

    /// The player after winning `amount`, which may be negative: it goes to
    /// the balance and to the standing alike.
    pub open spec fn win(self, amount: int) -> PlayerView {
        PlayerView {
            balance: self.balance + amount,
            standing: self.standing + amount,
            ..self
        }
    }

    /// The player after betting on one more hand.
    pub open spec fn bet(self, hand: HandView) -> PlayerView {
        PlayerView { hands: self.hands.push(hand), ..self }
    }

    /// The player after surrendering the hand being played: the hand is
    /// marked, and half its wager is lost at once. The hand is not finished
    /// by that, so it is still the one being played.
    pub open spec fn surrender(self) -> PlayerView {
        self.with_playing_hand(self.playing_hand().surrender()).win(
            -half(self.playing_hand().wager),
        )
    }

    /// The player after doubling down on the hand being played with `card`.
    pub open spec fn double(self, card: Card) -> PlayerView {
        self.with_playing_hand(self.playing_hand().double_wager(card))
    }

    /// The player after splitting the hand being played: `first` completes
    /// the hand that stays in its place, `second` the new hand, which goes
    /// behind all the others.
    pub open spec fn split(self, first: Card, second: Card) -> PlayerView {
        self.with_playing_hand(self.playing_hand().split_kept(first)).bet(
            self.playing_hand().split_off(second),
        )
    }

    /// Whether any hand, played or not, is bust.
    pub open spec fn has_busted(self) -> bool {
        exists|i: int| 0 <= i < self.hands.len() && self.hands[i].busted()
    }

    /// Whether every hand is lost.
    pub open spec fn has_lost(self) -> bool {
        forall|i: int| 0 <= i < self.hands.len() ==> self.hands[i].lost()
    }

    /// The outcome as one number: 0 if any hand is bust, else the value of
    /// the first hand.
    pub open spec fn first_hand_value(self) -> nat {
        if self.has_busted() {
            0
        } else {
            self.hands[0].value()
        }
    }

    /// The dealer after taking the first `n` cards of `deck` for the first
    /// hand.
    pub open spec fn play_as_dealer(self, deck: Seq<Card>, n: int) -> PlayerView {
        PlayerView {
            hands: self.hands.update(
                0,
                HandView { cards: self.hands[0].cards + deck.take(n), ..self.hands[0] },
            ),
            ..self
        }
    }

    /// The player after the round: no hands are left. The dealer's balance
    /// and standing never change; another player wins the settlement of
    /// the hands against the dealer's value.
    pub open spec fn game_over(self, dealer_value: int) -> PlayerView {
        let cleared = PlayerView { hands: Seq::empty(), ..self };
        if self.is_dealer {
            cleared
        } else {
            cleared.win(settlement(self.hands, dealer_value))
        }
    }
}

/// Half of a wager, rounded toward zero.
pub open spec fn half(wager: int) -> int {
    if wager >= 0 {
        wager / 2
    } else {
        -((-wager) / 2)
    }
}

/// What one hand changes at the end of the round, against the dealer's
/// value: the wager is won by a hand that is not lost and beats the dealer;
/// it is lost by a hand that is lost, whatever the dealer has, or is below
/// the dealer; a hand that is not lost and equals the dealer changes
/// nothing.
pub open spec fn hand_delta(hand: HandView, dealer_value: int) -> int {
    if hand.value() > dealer_value && !hand.lost() {
        hand.wager
    } else if hand.value() < dealer_value || hand.lost() {
        -hand.wager
    } else {
        0
    }
}

/// The sum of what the hands change at the end of the round.
pub open spec fn settlement(hands: Seq<HandView>, dealer_value: int) -> int
    decreases hands.len(),
{
    if hands.len() == 0 {
        0
    } else {
        settlement(hands.drop_last(), dealer_value) + hand_delta(hands.last(), dealer_value)
    }
}

/// Whether a dealer who holds `cards` stops after taking exactly `n` cards
/// from `deck`: with them the value is 17 or more, and with any fewer it is
/// below 17.
pub open spec fn dealer_takes(cards: Seq<Card>, deck: Seq<Card>, n: int) -> bool {
    &&& 0 <= n <= deck.len()
    &&& hand_value(cards + deck.take(n)) >= 17
    &&& forall|k: int| 0 <= k < n ==> hand_value(cards + #[trigger] deck.take(k)) < 17
}

/// If any hand is unfinished, exactly one hand is being played.
pub proof fn lemma_playing_hand_unique(player: PlayerView)
    ensures
        player.is_playing() ==> player.plays_at(player.playing_index()),
        forall|i: int| player.plays_at(i) ==> i == player.playing_index() && player.is_playing(),
{
    if player.is_playing() {
        let k = choose|i: int| 0 <= i < player.hands.len() && !player.hands[i].finished;
        lemma_first_unfinished(player, k);
    }
}

proof fn lemma_first_unfinished(player: PlayerView, k: int)
    requires
        0 <= k < player.hands.len(),
        !player.hands[k].finished,
    ensures
        exists|i: int| player.plays_at(i),
    decreases k,
{
    if exists|j: int| 0 <= j < k && !player.hands[j].finished {
        let j = choose|j: int| 0 <= j < k && !player.hands[j].finished;
        lemma_first_unfinished(player, j);
    } else {
        assert(player.plays_at(k));
    }
}

/// No decision touches a finished hand: standing, hitting, surrendering,
/// doubling down and splitting act on the hand being played, which is not
/// finished, and leave every other hand as it was.
pub proof fn lemma_decisions_spare_other_hands(
    player: PlayerView,
    card: Card,
    second: Card,
    i: int,
)
    requires
        player.is_playing(),
        0 <= i < player.hands.len(),
        i != player.playing_index(),
    ensures
        !player.playing_hand().finished,
        player.stand().hands[i] == player.hands[i],
        player.hit(card).hands[i] == player.hands[i],
        player.surrender().hands[i] == player.hands[i],
        player.double(card).hands[i] == player.hands[i],
        player.split(card, second).hands[i] == player.hands[i],
{
    lemma_playing_hand_unique(player);
}

/// Standing finishes the hand being played and no other: it is never
/// played again, and the hand played next, if any, comes after it.
pub proof fn lemma_stand_moves_on(player: PlayerView)
    requires
        player.is_playing(),
    ensures
        player.stand().hands.len() == player.hands.len(),
        forall|i: int| 0 <= i <= player.playing_index() ==> player.stand().hands[i].finished,
        forall|i: int|
            0 <= i < player.hands.len() && i != player.playing_index() ==> player.stand().hands[i]
                == player.hands[i],
        player.stand().is_playing() ==> player.stand().playing_index() > player.playing_index(),
{
    lemma_playing_hand_unique(player);
    lemma_playing_hand_unique(player.stand());
}

/// A surrendered hand stays the hand being played, and half its wager is
/// gone from balance and standing.
pub proof fn lemma_surrender(player: PlayerView)
    requires
        player.is_playing(),
    ensures
        player.surrender().is_playing(),
        player.surrender().playing_index() == player.playing_index(),
        player.surrender().playing_hand().surrendered,
        player.surrender().balance == player.balance - half(player.playing_hand().wager),
        player.surrender().standing == player.standing - half(player.playing_hand().wager),
{
    lemma_playing_hand_unique(player);
    let after = player.surrender();
    assert(after.plays_at(player.playing_index()));
}

/// Half a wager is rounded toward zero: twice the half of a wager that is
/// not negative falls short of it by one at most, and a negative wager
/// halves as its opposite does.
pub proof fn lemma_half(wager: int)
    ensures
        wager >= 0 ==> 2 * half(wager) <= wager <= 2 * half(wager) + 1,
        half(-wager) == -half(wager),
{
}

/// A hit leaves the hand played if it is not bust, and finishes it if it
/// is; a hand that went bust is never the one being played.
pub proof fn lemma_hit(player: PlayerView, card: Card)
    requires
        player.is_playing(),
    ensures
        player.hit(card).hands[player.playing_index()].cards == player.playing_hand().cards.push(
            card,
        ),
        player.hit(card).hands[player.playing_index()].finished == player.playing_hand().with_card(
            card,
        ).busted(),
        !player.playing_hand().with_card(card).busted() ==> player.hit(card).playing_index()
            == player.playing_index(),
{
    lemma_playing_hand_unique(player);
    let after = player.hit(card);
    if !player.playing_hand().with_card(card).busted() {
        lemma_playing_hand_unique(after);
    }
}

/// A split puts the new hand last and leaves the hand that was split the
/// one being played.
pub proof fn lemma_split_keeps_playing(player: PlayerView, first: Card, second: Card)
    requires
        player.is_playing(),
    ensures
        player.split(first, second).hands.len() == player.hands.len() + 1,
        player.split(first, second).playing_index() == player.playing_index(),
        player.split(first, second).hands.last() == player.playing_hand().split_off(second),
{
    lemma_playing_hand_unique(player);
    let after = player.split(first, second);
    assert(after.plays_at(player.playing_index()));
}

/// A hand that is lost loses its wager whatever the dealer has, even when
/// the dealer is bust. Of the other hands the better one wins, and equal
/// values change nothing.
pub proof fn lemma_hand_delta(hand: HandView, dealer_value: int)
    ensures
        hand.lost() ==> hand_delta(hand, dealer_value) == -hand.wager,
        !hand.lost() && hand.value() > dealer_value ==> hand_delta(hand, dealer_value)
            == hand.wager,
        !hand.lost() && hand.value() < dealer_value ==> hand_delta(hand, dealer_value)
            == -hand.wager,
        !hand.lost() && hand.value() == dealer_value ==> hand_delta(hand, dealer_value) == 0,
{
}

/// The settlement of the hands is the settlement of all but the last plus
/// what the last one changes; a single hand settles at what it changes.
pub proof fn lemma_settlement(hands: Seq<HandView>, hand: HandView, dealer_value: int)
    ensures
        settlement(Seq::empty(), dealer_value) == 0,
        settlement(seq![hand], dealer_value) == hand_delta(hand, dealer_value),
        settlement(hands.push(hand), dealer_value) == settlement(hands, dealer_value) + hand_delta(
            hand,
            dealer_value,
        ),
{
    assert(hands.push(hand).drop_last() =~= hands);
    assert(seq![hand].drop_last() =~= Seq::<HandView>::empty());
}

/// After the round no hand is left, so none is being played; and ending
/// the round once more changes nothing.
pub proof fn lemma_game_over_clears(player: PlayerView, dealer_value: int, again: int)
    ensures
        player.game_over(dealer_value).hands.len() == 0,
        !player.game_over(dealer_value).is_playing(),
        !player.game_over(dealer_value).has_busted(),
        player.game_over(dealer_value).game_over(again) == player.game_over(dealer_value),
        player.is_dealer ==> player.game_over(dealer_value).balance == player.balance
            && player.game_over(dealer_value).standing == player.standing,
{
}

/// The number of cards that the dealer takes is determined by the cards:
/// none when the hand is at 17 or more already.
pub proof fn lemma_dealer_takes_unique(cards: Seq<Card>, deck: Seq<Card>, n: int, m: int)
    requires
        dealer_takes(cards, deck, n),
    ensures
        dealer_takes(cards, deck, m) ==> m == n,
        hand_value(cards) >= 17 ==> n == 0,
        hand_value(cards) < 17 ==> n > 0,
{
    assert(cards + deck.take(0) =~= cards);
}

/// The dealer always comes to a stop if the deck holds as many cards as
/// the first hand, with every ace counted as 1, is short of 17.
pub proof fn lemma_dealer_stops(cards: Seq<Card>, deck: Seq<Card>)
    requires
        hard_total(cards) + deck.len() >= 17,
    ensures
        exists|n: int| dealer_takes(cards, deck, n),
{
    lemma_dealer_stops_from(cards, deck, 0);
}

proof fn lemma_dealer_stops_from(cards: Seq<Card>, deck: Seq<Card>, from: int)
    requires
        hard_total(cards) + deck.len() >= 17,
        0 <= from <= deck.len(),
        forall|k: int| 0 <= k < from ==> hand_value(cards + #[trigger] deck.take(k)) < 17,
    ensures
        exists|n: int| dealer_takes(cards, deck, n),
    decreases deck.len() - from,
{
    if from == deck.len() {
        assert(deck.take(from) =~= deck);
        lemma_totals_of_concat(cards, deck);
        lemma_total_bounds(deck);
        lemma_value_bounds(cards + deck);
    }
    if hand_value(cards + deck.take(from)) >= 17 {
        assert(dealer_takes(cards, deck, from));
    } else {
        lemma_dealer_stops_from(cards, deck, from + 1);
    }
}

/// Whether the dealer has to play at all: not when every player has lost
/// every hand, by going bust or by surrendering.
pub open spec fn dealer_must_play(players: Seq<Player>) -> bool {
    exists|i: int| 0 <= i < players.len() && !(#[trigger] players[i])@.has_lost()
}

/// The views of the hands, in order.
pub open spec fn hand_views(hands: Seq<Hand>) -> Seq<HandView> {
    Seq::new(hands.len(), |i: int| hands[i]@)
}

/// A player at the table, or the dealer.
pub struct Player {
    name: String,
    is_dealer: bool,
    hands: Vec<Hand>,
    balance: i32,
    standing: i32,
}

impl View for Player {
    type V = PlayerView;

    closed spec fn view(&self) -> PlayerView {
        PlayerView {
            name: self.name@,
            is_dealer: self.is_dealer,
            hands: hand_views(self.hands@),
            balance: self.balance as int,
            standing: self.standing as int,
        }
    }
}

impl Player {
    /// A player with no hands and a standing of zero.
    pub fn new(name: String, is_dealer: bool, balance: i32) -> (player: Player)
        ensures
            player@ == (PlayerView {
                name: name@,
                is_dealer,
                hands: Seq::empty(),
                balance: balance as int,
                standing: 0,
            }),
    {
        Player { name, is_dealer, hands: Vec::with_capacity(2), balance, standing: 0 }
    }

    /// The hand being played: the first one that is not finished.
    pub fn get_playing_hand(&self) -> (hand: &Hand)
        requires
            self@.is_playing(),
        ensures
            hand@ == self@.playing_hand(),
    {
        proof {
            lemma_playing_hand_unique(self@);
        }
        let mut i: usize = 0;
        loop
            invariant
                self@.plays_at(self@.playing_index()),
                i <= self@.playing_index(),
            decreases self@.playing_index() - i,
        {
            assert(self@.hands.len() == self.hands.len());
            assert(self@.hands[i as int] == self.hands@[i as int]@);
            if !self.hands[i].get_is_set() {
                return &self.hands[i];
            }
            i += 1;
        }
    }

    /// The hand being played, to act on. What becomes of it becomes of the
    /// player's hand.
    fn get_playing_hand_mut(&mut self) -> (hand: &mut Hand)
        requires
            old(self)@.is_playing(),
        ensures
            hand@ == old(self)@.playing_hand(),
            final(self)@ == old(self)@.with_playing_hand(final(hand)@),
    {
        proof {
            lemma_playing_hand_unique(self@);
        }
        let mut i: usize = 0;
        loop
            invariant
                self == old(self),
                self@.plays_at(self@.playing_index()),
                i <= self@.playing_index(),
            decreases self@.playing_index() - i,
        {
            assert(self@.hands.len() == self.hands.len());
            assert(self@.hands[i as int] == self.hands@[i as int]@);
            if !self.hands[i].get_is_set() {
                assert forall|hand: Hand| #[trigger]
                    hand_views(self.hands@.update(i as int, hand)) =~= self@.hands.update(
                        i as int,
                        hand@,
                    ) by {}
                return &mut self.hands[i];
            }
            i += 1;
        }
    }

    /// Adds `amt` to the balance and to the standing.
    fn win(&mut self, amt: i32)
        requires
            i32::MIN <= old(self)@.balance + amt <= i32::MAX,
            i32::MIN <= old(self)@.standing + amt <= i32::MAX,
        ensures
            final(self)@ == old(self)@.win(amt as int),
    {
        self.balance += amt;
        self.standing += amt;
    }

    /// Takes `amt` from the balance and from the standing.
    fn lose(&mut self, amt: i32)
        requires
            i32::MIN <= old(self)@.balance - amt <= i32::MAX,
            i32::MIN <= old(self)@.standing - amt <= i32::MAX,
            amt > i32::MIN,
        ensures
            final(self)@ == old(self)@.win(-amt),
    {
        self.win(-amt);
    }

    /// Number of hands: zero between rounds.
    pub fn get_hand_count(&self) -> (count: usize)
        ensures
            count == self@.hands.len(),
    {
        self.hands.len()
    }

    /// A copy of hand `idx`.
    pub fn get_hand_at(&self, idx: usize) -> (hand: Hand)
        requires
            idx < self@.hands.len(),
        ensures
            hand@ == self@.hands[idx as int],
    {
        self.hands[idx].clone()
    }

    /// The player's name.
    pub fn get_name(&self) -> (name: &str)
        ensures
            name@ == self@.name,
    {
        self.name.as_str()
    }

    /// What the player owns.
    pub fn get_balance(&self) -> (balance: i32)
        ensures
            balance == self@.balance,
    {
        self.balance
    }

    /// The sum of all that was won, less all that was lost.
    pub fn get_standing(&self) -> (standing: i32)
        ensures
            standing == self@.standing,
    {
        self.standing
    }

    /// The hands in the order they were created.
    pub fn hand_iter(&self) -> (hands: std::slice::Iter<'_, Hand>)
        ensures
            hand_views(vstd::std_specs::slice::into_iter_elts(hands)) == self@.hands,
            vstd::std_specs::iter::IteratorSpec::decrease(&hands) is Some,
            vstd::std_specs::iter::IteratorSpec::initial_value_relation(&hands, &hands),
    {
        self.hands.iter()
    }

    /// Whether any hand is bust.
    pub fn has_busted(&self) -> (busted: bool)
        ensures
            busted == self@.has_busted(),
    {
        for hand in it: self.hands.iter()
            invariant
                it.seq().len() == self.hands@.len(),
                forall|i: int| 0 <= i < it.seq().len() ==> *it.seq()[i] == self.hands@[i],
                forall|i: int| 0 <= i < it.index() ==> !self@.hands[i].busted(),
        {
            if hand.busted() {
                assert(self@.hands[it.index() as int].busted());
                return true;
            }
        }
        false
    }

    /// Whether every hand is lost.
    pub fn has_lost(&self) -> (lost: bool)
        ensures
            lost == self@.has_lost(),
    {
        for hand in it: self.hands.iter()
            invariant
                it.seq().len() == self.hands@.len(),
                forall|i: int| 0 <= i < it.seq().len() ==> *it.seq()[i] == self.hands@[i],
                forall|i: int| 0 <= i < it.index() ==> self@.hands[i].lost(),
        {
            if !hand.lost() {
                assert(!self@.hands[it.index() as int].lost());
                return false;
            }
        }
        true
    }

    /// Whether any hand is still to be played.
    pub fn is_playing(&self) -> (playing: bool)
        ensures
            playing == self@.is_playing(),
    {
        for hand in it: self.hands.iter()
            invariant
                it.seq().len() == self.hands@.len(),
                forall|i: int| 0 <= i < it.seq().len() ==> *it.seq()[i] == self.hands@[i],
                forall|i: int| 0 <= i < it.index() ==> self@.hands[i].finished,
        {
            if !hand.get_is_set() {
                assert(!self@.hands[it.index() as int].finished);
                return true;
            }
        }
        false
    }

    /// The outcome as one number: 0 if any hand is bust, else the value of
    /// the first hand.
    pub fn first_hand_value(&self) -> (value: u32)
        requires
            self@.hands.len() >= 1,
        ensures
            value == self@.first_hand_value(),
    {
        if self.has_busted() {
            return 0
        }
        self.hands[0].value(false)
    }

    /// Whether the hand being played is soft.
    pub fn hand_is_soft(&self) -> (soft: bool)
        requires
            self@.is_playing(),
        ensures
            soft == self@.playing_hand().is_soft(),
    {
        self.get_playing_hand().is_soft()
    }

    /// Finishes the hand being played.
    pub fn stand(&mut self)
        requires
            old(self)@.is_playing(),
        ensures
            final(self)@ == old(self)@.stand(),
    {
        self.get_playing_hand_mut().set();
    }

    /// The hand being played takes one card; if that makes it bust, it is
    /// finished at once.
    pub fn hit(&mut self, deck: &mut Deck) -> (bust: bool)
        requires
            old(self)@.is_playing(),
            old(deck)@.len() >= 1,
            old(self)@.playing_hand().raw_total() + old(deck)@[0].spec_score() <= u32::MAX,
        ensures
            final(self)@ == old(self)@.hit(old(deck)@[0]),
            final(deck)@ == old(deck)@.skip(1),
            bust == old(self)@.playing_hand().with_card(old(deck)@[0]).busted(),
    {
        let hand = self.get_playing_hand_mut();
        let busted = hand.hit(deck);
        if busted {
            hand.set();
        }
        busted
    }

    /// Bets on one more hand, dealt from the deck.
    pub fn bet(&mut self, wager: i32, deck: &mut Deck)
        requires
            old(deck)@.len() >= 2,
        ensures
            final(self)@ == old(self)@.bet(
                HandView {
                    cards: old(deck)@.take(2),
                    wager: wager as int,
                    surrendered: false,
                    finished: false,
                },
            ),
            final(deck)@ == old(deck)@.skip(2),
    {
        self.hands.push(Hand::new(wager, deck));
        assert(hand_views(self.hands@) =~= hand_views(old(self).hands@).push(
            self.hands@.last()@,
        ));
    }

    /// Surrenders the hand being played and loses half its wager at once,
    /// rounded toward zero. The hand is not finished by that.
    pub fn surrender(&mut self)
        requires
            old(self)@.is_playing(),
            i32::MIN <= old(self)@.balance - half(old(self)@.playing_hand().wager) <= i32::MAX,
            i32::MIN <= old(self)@.standing - half(old(self)@.playing_hand().wager) <= i32::MAX,
        ensures
            final(self)@ == old(self)@.surrender(),
    {
        proof {
            lemma_playing_hand_unique(self@);
        }
        self.get_playing_hand_mut().surrender();
        proof {
            assert(self@.plays_at(old(self)@.playing_index()));
        }
        self.lose(self.get_playing_hand().get_wager() / 2);
    }

    /// Splits the hand being played if it may be split, and says whether it
    /// did. The new hand goes behind all the others.
    pub fn split(&mut self, deck: &mut Deck) -> (done: bool)
        requires
            old(self)@.is_playing(),
            old(self)@.playing_hand().can_split() ==> old(deck)@.len() >= 2,
        ensures
            done == old(self)@.playing_hand().can_split(),
            done ==> {
                &&& final(self)@ == old(self)@.split(old(deck)@[0], old(deck)@[1])
                &&& final(deck)@ == old(deck)@.skip(2)
            },
            !done ==> {
                &&& final(self)@ == old(self)@
                &&& final(deck)@ == old(deck)@
            },
    {
        proof {
            lemma_playing_hand_unique(self@);
        }
        match self.get_playing_hand_mut().split(deck) {
            Some(newhand) => {
                self.hands.push(newhand);
                true
            },
            None => false,
        }
    }

    /// Doubles down on the hand being played: twice the wager, exactly one
    /// more card, and the hand is finished whether or not it is bust, which
    /// is what is returned.
    pub fn double(&mut self, deck: &mut Deck) -> (bust: bool)
        requires
            old(self)@.is_playing(),
            old(deck)@.len() >= 1,
            old(self)@.playing_hand().raw_total() + old(deck)@[0].spec_score() <= u32::MAX,
            i32::MIN <= 2 * old(self)@.playing_hand().wager <= i32::MAX,
        ensures
            final(self)@ == old(self)@.double(old(deck)@[0]),
            final(deck)@ == old(deck)@.skip(1),
            bust == old(self)@.playing_hand().double_wager(old(deck)@[0]).busted(),
    {
        self.get_playing_hand_mut().double_wager(deck)
    }

    /// Plays the first hand as the dealer does: it takes cards while its
    /// value is below 17, and stops at 17 or more, bust or not. Returns 0
    /// if a hand is bust, else the value of the first hand. The deck has to
    /// hold the cards that this takes; [`lemma_dealer_stops`] says when it
    /// surely does.
    pub fn play_as_dealer(&mut self, deck: &mut Deck) -> (total: u32)
        requires
            old(self)@.hands.len() >= 1,
            exists|n: int| dealer_takes(old(self)@.hands[0].cards, old(deck)@, n),
        ensures
            ({
                let taken = old(deck)@.len() - final(deck)@.len();
                &&& dealer_takes(old(self)@.hands[0].cards, old(deck)@, taken)
                &&& final(self)@ == old(self)@.play_as_dealer(old(deck)@, taken)
                &&& final(deck)@ == old(deck)@.skip(taken)
            }),
            total == final(self)@.first_hand_value(),
    {
        let ghost cards = self@.hands[0].cards;
        let ghost needed = choose|n: int| dealer_takes(cards, old(deck)@, n);
        let ghost mut taken = 0int;
        assert forall|hand: Hand| #[trigger]
            hand_views(self.hands@.update(0, hand)) =~= self@.hands.update(0, hand@) by {}
        let hand = &mut self.hands[0];
        while hand.value(false) < 17
            invariant
                dealer_takes(cards, old(deck)@, needed),
                0 <= taken <= needed,
                hand@ == (HandView { cards: cards + old(deck)@.take(taken), ..old(self)@.hands[0] }),
                deck@ == old(deck)@.skip(taken),
            decreases needed - taken,
        {
            proof {
                lemma_low_value_total(hand@.cards);
                taken = taken + 1;
            }
            hand.hit(deck);
        }
        match self.has_busted() {
            true => 0,
            false => self.first_hand_value(),
        }
    }

    /// Ends the round. The dealer only gives up the hands. For any other
    /// player every hand is settled against the dealer's value, the sum is
    /// applied once to balance and standing, and then the hands are given
    /// up.
    pub fn game_over(&mut self, dealer_value: u32)
        requires
            !old(self)@.is_dealer ==> {
                let delta = settlement(old(self)@.hands, dealer_value as int);
                &&& i32::MIN <= old(self)@.balance + delta <= i32::MAX
                &&& i32::MIN <= old(self)@.standing + delta <= i32::MAX
            },
        ensures
            final(self)@ == old(self)@.game_over(dealer_value as int),
    {
        if self.is_dealer {
            self.hands.clear();
            return ;
        }
        let mut total_delta: i128 = 0;
        assert(self.hands@.len() == self.hands.len());
        for hand in it: self.hands.iter()
            invariant
                it.seq().len() == self.hands@.len(),
                forall|i: int| 0 <= i < it.seq().len() ==> *it.seq()[i] == self.hands@[i],
                total_delta == settlement(self@.hands.take(it.index() as int), dealer_value as int),
                -0x8000_0000 * it.index() <= total_delta <= 0x8000_0000 * it.index(),
                it.seq().len() <= usize::MAX,
        {
            let value = hand.value(false);
            let wager = hand.get_wager();
            proof {
                let n = it.index() as int;
                assert(self@.hands.take(n + 1).drop_last() =~= self@.hands.take(n));
            }
            if value > dealer_value && !hand.lost() {
                total_delta += wager as i128;
            } else if value < dealer_value || hand.lost() {
                total_delta -= wager as i128;
            }
        }
        assert(self@.hands.take(self@.hands.len() as int) =~= self@.hands);
        self.balance = (self.balance as i128 + total_delta) as i32;
        self.standing = (self.standing as i128 + total_delta) as i32;
        self.hands.clear();
    }
}

/// Whether the dealer has to play at all: not when every player has lost
/// every hand, by going bust or by surrendering.
pub fn dealer_plays(players: &[Player]) -> (plays: bool)
    ensures
        plays == dealer_must_play(players@),
{
    for player in it: players.iter()
        invariant
            it.seq().len() == players@.len(),
            forall|i: int| 0 <= i < it.seq().len() ==> *it.seq()[i] == players@[i],
            forall|i: int| 0 <= i < it.index() ==> players@[i]@.has_lost(),
    {
        if !player.has_lost() {
            return true;
        }
    }
    false
}

} // verus!
