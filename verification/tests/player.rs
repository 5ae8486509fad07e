use blackjack::card::{Card, Rank, Suit};
use blackjack::deck::Deck;
use blackjack::player::{dealer_plays, Player};

fn deck_of(ranks: &[Rank]) -> Deck {
    Deck::from_cards(ranks.iter().map(|r| Card::new(*r, Suit::Hearts)).collect())
}

fn player(balance: i32) -> Player {
    Player::new(String::from("Ann"), false, balance)
}

fn dealer() -> Player {
    Player::new(String::from("Dealer"), true, -1)
}

#[test]
fn new_player_has_no_hands_and_no_standing() {
    let p = Player::new(String::from("Ann"), false, 500);
    assert_eq!(p.get_name(), "Ann");
    assert_eq!(p.get_balance(), 500);
    assert_eq!(p.get_standing(), 0);
    assert_eq!(p.get_hand_count(), 0);
    assert!(!p.is_playing());
    assert!(!p.has_busted());
    assert!(p.has_lost());
    assert_eq!(p.hand_iter().count(), 0);
}

#[test]
fn bet_deals_one_hand_of_two_cards() {
    let mut deck = deck_of(&[Rank::Nine, Rank::Ten, Rank::Two]);
    let mut p = player(100);
    p.bet(50, &mut deck);
    assert_eq!(p.get_hand_count(), 1);
    assert!(p.is_playing());
    let hand = p.get_hand_at(0);
    assert_eq!(hand.get_card_count(), 2);
    assert_eq!(hand.get_card_at(0).rank, Rank::Nine);
    assert_eq!(hand.get_card_at(1).rank, Rank::Ten);
    assert_eq!(hand.get_wager(), 50);
    assert_eq!(p.get_balance(), 100);
    assert_eq!(p.get_standing(), 0);
    assert_eq!(deck.remaining(), 1);
    assert_eq!(p.first_hand_value(), 19);
}

#[test]
fn bet_twice_makes_two_hands_in_order() {
    let mut deck = deck_of(&[Rank::Nine, Rank::Ten, Rank::Two, Rank::Three]);
    let mut p = player(100);
    p.bet(50, &mut deck);
    p.bet(60, &mut deck);
    assert_eq!(p.get_hand_count(), 2);
    assert_eq!(p.get_hand_at(0).get_wager(), 50);
    assert_eq!(p.get_hand_at(1).get_wager(), 60);
    assert_eq!(p.get_hand_at(1).value(false), 5);
    assert_eq!(p.get_playing_hand().get_wager(), 50);
}

#[test]
fn stood_hand_of_19_wins_against_18() {
    let mut deck = deck_of(&[Rank::Nine, Rank::Ten]);
    let mut p = player(100);
    p.bet(50, &mut deck);
    p.stand();
    assert!(!p.is_playing());
    p.game_over(18);
    assert_eq!(p.get_balance(), 150);
    assert_eq!(p.get_standing(), 50);
    assert_eq!(p.get_hand_count(), 0);
}

#[test]
fn stood_hand_of_19_loses_against_20() {
    let mut deck = deck_of(&[Rank::Nine, Rank::Ten]);
    let mut p = player(100);
    p.bet(50, &mut deck);
    p.stand();
    p.game_over(20);
    assert_eq!(p.get_balance(), 50);
    assert_eq!(p.get_standing(), -50);
}

#[test]
fn stood_hand_of_19_pushes_against_19() {
    let mut deck = deck_of(&[Rank::Nine, Rank::Ten]);
    let mut p = player(100);
    p.bet(50, &mut deck);
    p.stand();
    p.game_over(19);
    assert_eq!(p.get_balance(), 100);
    assert_eq!(p.get_standing(), 0);
    assert_eq!(p.get_hand_count(), 0);
}

#[test]
fn hand_wins_against_a_bust_dealer() {
    let mut deck = deck_of(&[Rank::Two, Rank::Three]);
    let mut p = player(100);
    p.bet(10, &mut deck);
    p.game_over(0);
    assert_eq!(p.get_balance(), 110);
}

#[test]
fn bust_hand_loses_even_against_a_bust_dealer() {
    let mut deck = deck_of(&[Rank::King, Rank::Queen, Rank::Five]);
    let mut p = player(100);
    p.bet(30, &mut deck);
    assert!(p.hit(&mut deck));
    p.game_over(0);
    assert_eq!(p.get_balance(), 70);
    assert_eq!(p.get_standing(), -30);
}

#[test]
fn surrendered_hand_loses_its_wager_at_settlement_too() {
    let mut deck = deck_of(&[Rank::King, Rank::Nine]);
    let mut p = player(100);
    p.bet(40, &mut deck);
    p.surrender();
    assert_eq!(p.get_balance(), 80);
    p.game_over(0);
    assert_eq!(p.get_balance(), 40);
    assert_eq!(p.get_standing(), -60);
}

#[test]
fn surrender_of_40_loses_20_at_once() {
    let mut deck = deck_of(&[Rank::King, Rank::Six]);
    let mut p = player(100);
    p.bet(40, &mut deck);
    p.surrender();
    assert_eq!(p.get_balance(), 80);
    assert_eq!(p.get_standing(), -20);
}

#[test]
fn surrender_of_41_loses_20_at_once() {
    let mut deck = deck_of(&[Rank::King, Rank::Six]);
    let mut p = player(100);
    p.bet(41, &mut deck);
    p.surrender();
    assert_eq!(p.get_balance(), 80);
    assert_eq!(p.get_standing(), -20);
}

#[test]
fn surrender_of_1_loses_nothing_at_once() {
    let mut deck = deck_of(&[Rank::King, Rank::Six]);
    let mut p = player(100);
    p.bet(1, &mut deck);
    p.surrender();
    assert_eq!(p.get_balance(), 100);
    assert_eq!(p.get_standing(), 0);
}

#[test]
fn surrendered_hand_is_still_being_played() {
    let mut deck = deck_of(&[Rank::King, Rank::Six, Rank::Two]);
    let mut p = player(100);
    p.bet(40, &mut deck);
    p.surrender();
    assert!(p.is_playing());
    assert!(p.has_lost());
    assert!(!p.has_busted());
    let hand = p.get_hand_at(0);
    assert!(hand.lost());
    assert!(!hand.get_is_set());
    assert!(!p.hit(&mut deck));
    assert_eq!(p.get_hand_at(0).get_card_count(), 3);
}

#[test]
fn hit_that_does_not_bust_keeps_the_hand_playing() {
    let mut deck = deck_of(&[Rank::Five, Rank::Six, Rank::Nine]);
    let mut p = player(100);
    p.bet(10, &mut deck);
    assert!(!p.hit(&mut deck));
    assert!(p.is_playing());
    assert!(!p.get_hand_at(0).get_is_set());
    assert_eq!(p.get_hand_at(0).value(false), 20);
    assert!(!p.has_busted());
}

#[test]
fn hit_that_busts_finishes_the_hand() {
    let mut deck = deck_of(&[Rank::King, Rank::Six, Rank::Nine]);
    let mut p = player(100);
    p.bet(10, &mut deck);
    assert!(p.hit(&mut deck));
    assert!(!p.is_playing());
    assert!(p.get_hand_at(0).get_is_set());
    assert!(p.has_busted());
    assert!(p.has_lost());
    assert_eq!(p.first_hand_value(), 0);
}

#[test]
fn hand_is_soft_follows_the_hand_being_played() {
    let mut deck = deck_of(&[Rank::Ace, Rank::Six, Rank::King]);
    let mut p = player(100);
    p.bet(10, &mut deck);
    assert!(p.hand_is_soft());
    p.hit(&mut deck);
    assert!(!p.hand_is_soft());
    assert_eq!(p.first_hand_value(), 17);
}

#[test]
fn double_doubles_the_wager_and_finishes_the_hand() {
    let mut deck = deck_of(&[Rank::Five, Rank::Six, Rank::Nine, Rank::Two]);
    let mut p = player(100);
    p.bet(25, &mut deck);
    assert!(!p.double(&mut deck));
    assert!(!p.is_playing());
    let hand = p.get_hand_at(0);
    assert_eq!(hand.get_wager(), 50);
    assert_eq!(hand.get_card_count(), 3);
    assert!(hand.get_is_set());
    assert_eq!(deck.remaining(), 1);
    p.game_over(19);
    assert_eq!(p.get_balance(), 150);
}

#[test]
fn double_that_busts_finishes_the_hand_and_loses_twice_the_wager() {
    let mut deck = deck_of(&[Rank::Ten, Rank::Six, Rank::Nine, Rank::Two]);
    let mut p = player(100);
    p.bet(25, &mut deck);
    assert!(p.double(&mut deck));
    assert!(!p.is_playing());
    let hand = p.get_hand_at(0);
    assert_eq!(hand.get_wager(), 50);
    assert_eq!(hand.get_card_count(), 3);
    assert!(hand.get_is_set());
    p.game_over(0);
    assert_eq!(p.get_balance(), 50);
    assert_eq!(p.get_standing(), -50);
}

#[test]
fn split_of_king_and_queen_makes_two_hands() {
    let mut deck = Deck::from_cards(vec![
        Card::new(Rank::King, Suit::Clubs),
        Card::new(Rank::Queen, Suit::Spades),
        Card::new(Rank::Nine, Suit::Hearts),
        Card::new(Rank::Seven, Suit::Hearts),
    ]);
    let mut p = player(100);
    p.bet(20, &mut deck);
    assert!(p.split(&mut deck));
    assert_eq!(p.get_hand_count(), 2);
    let first = p.get_hand_at(0);
    let second = p.get_hand_at(1);
    assert_eq!(first.get_card_at(0), Card::new(Rank::King, Suit::Clubs));
    assert_eq!(first.get_card_at(1), Card::new(Rank::Nine, Suit::Hearts));
    assert_eq!(second.get_card_at(0), Card::new(Rank::Queen, Suit::Spades));
    assert_eq!(second.get_card_at(1), Card::new(Rank::Seven, Suit::Hearts));
    assert_eq!(first.get_wager(), 20);
    assert_eq!(second.get_wager(), 20);
    assert!(p.is_playing());
    assert_eq!(p.get_playing_hand().value(false), 19);
    assert_eq!(deck.remaining(), 0);
}

#[test]
fn split_of_ten_and_nine_is_refused() {
    let mut deck = deck_of(&[Rank::Ten, Rank::Nine, Rank::Two, Rank::Three]);
    let mut p = player(100);
    p.bet(20, &mut deck);
    assert!(!p.split(&mut deck));
    assert_eq!(p.get_hand_count(), 1);
    assert_eq!(p.get_hand_at(0).get_card_count(), 2);
    assert_eq!(p.get_hand_at(0).value(false), 19);
    assert_eq!(deck.remaining(), 2);
}

#[test]
fn stand_moves_on_to_the_next_hand() {
    let mut deck = deck_of(&[Rank::Eight, Rank::Eight, Rank::Two, Rank::Three, Rank::King]);
    let mut p = player(100);
    p.bet(20, &mut deck);
    assert!(p.split(&mut deck));
    assert_eq!(p.get_playing_hand().value(false), 10);
    p.stand();
    assert!(p.is_playing());
    assert!(p.get_hand_at(0).get_is_set());
    assert!(!p.get_hand_at(1).get_is_set());
    assert_eq!(p.get_playing_hand().value(false), 11);
    assert!(!p.hit(&mut deck));
    assert_eq!(p.get_hand_at(0).get_card_count(), 2);
    assert_eq!(p.get_hand_at(1).get_card_count(), 3);
    assert_eq!(p.get_hand_at(1).value(false), 21);
    p.stand();
    assert!(!p.is_playing());
}

#[test]
fn every_hand_is_settled_on_its_own() {
    let mut deck = deck_of(&[Rank::Eight, Rank::Eight, Rank::Two, Rank::King]);
    let mut p = player(100);
    p.bet(20, &mut deck);
    assert!(p.split(&mut deck));
    p.stand();
    p.stand();
    // one hand of 10 and one of 18 against 17
    p.game_over(17);
    assert_eq!(p.get_balance(), 100);
    assert_eq!(p.get_standing(), 0);
    assert_eq!(p.get_hand_count(), 0);
}

#[test]
fn two_winning_hands_win_twice() {
    let mut deck = deck_of(&[Rank::Eight, Rank::Eight, Rank::Ten, Rank::King]);
    let mut p = player(100);
    p.bet(20, &mut deck);
    assert!(p.split(&mut deck));
    p.game_over(17);
    assert_eq!(p.get_balance(), 140);
    assert_eq!(p.get_standing(), 40);
}

#[test]
fn has_busted_sees_every_hand() {
    let mut deck =
        deck_of(&[Rank::Eight, Rank::Eight, Rank::Seven, Rank::King, Rank::Nine, Rank::Two]);
    let mut p = player(100);
    p.bet(20, &mut deck);
    assert!(p.split(&mut deck));
    assert!(p.hit(&mut deck));
    assert!(p.has_busted());
    assert!(!p.has_lost());
    assert!(p.is_playing());
    assert_eq!(p.first_hand_value(), 0);
    assert_eq!(p.get_playing_hand().value(false), 18);
}

#[test]
fn game_over_leaves_nothing_to_play() {
    let mut deck = deck_of(&[Rank::Eight, Rank::Eight, Rank::Seven, Rank::King]);
    let mut p = player(100);
    p.bet(20, &mut deck);
    assert!(p.split(&mut deck));
    assert!(p.is_playing());
    p.game_over(21);
    assert!(!p.is_playing());
    assert_eq!(p.get_hand_count(), 0);
    assert!(!p.has_busted());
    assert_eq!(p.get_balance(), 60);
    p.game_over(5);
    assert!(!p.is_playing());
    assert_eq!(p.get_hand_count(), 0);
    assert_eq!(p.get_balance(), 60);
    assert_eq!(p.get_standing(), -40);
}

#[test]
fn dealer_only_gives_up_the_hands() {
    let mut deck = deck_of(&[Rank::Eight, Rank::Nine]);
    let mut d = dealer();
    d.bet(0, &mut deck);
    d.game_over(0);
    assert!(!d.is_playing());
    assert_eq!(d.get_hand_count(), 0);
    assert_eq!(d.get_balance(), -1);
    assert_eq!(d.get_standing(), 0);
    assert_eq!(d.get_name(), "Dealer");
}

#[test]
fn dealer_with_a_wager_never_wins_or_loses_it() {
    let mut deck = deck_of(&[Rank::Eight, Rank::Nine]);
    let mut d = dealer();
    d.bet(500, &mut deck);
    d.game_over(21);
    assert_eq!(d.get_balance(), -1);
    assert_eq!(d.get_standing(), 0);
}

#[test]
fn standing_adds_up_over_rounds() {
    let mut p = player(100);
    let mut deck = deck_of(&[Rank::Ten, Rank::Nine, Rank::Ten, Rank::Seven, Rank::Ten, Rank::Eight]);
    p.bet(10, &mut deck);
    p.game_over(18);
    p.bet(25, &mut deck);
    p.game_over(18);
    p.bet(5, &mut deck);
    p.game_over(18);
    assert_eq!(p.get_balance(), 85);
    assert_eq!(p.get_standing(), -15);
}

#[test]
fn dealer_at_16_draws_until_17_or_more() {
    let mut deck = deck_of(&[Rank::Ten, Rank::Six, Rank::Ace, Rank::Four, Rank::Nine]);
    let mut d = dealer();
    d.bet(0, &mut deck);
    assert_eq!(d.first_hand_value(), 16);
    let total = d.play_as_dealer(&mut deck);
    assert_eq!(total, 17);
    assert_eq!(d.get_hand_at(0).get_card_count(), 3);
    assert_eq!(deck.remaining(), 2);
    assert!(!d.get_hand_at(0).get_is_set());
}

#[test]
fn dealer_draws_more_than_once_if_needed() {
    let mut deck =
        deck_of(&[Rank::Two, Rank::Three, Rank::Four, Rank::Five, Rank::Two, Rank::Six, Rank::Nine]);
    let mut d = dealer();
    d.bet(0, &mut deck);
    let total = d.play_as_dealer(&mut deck);
    assert_eq!(total, 22 - 22);
    assert_eq!(d.get_hand_at(0).get_card_count(), 6);
    assert_eq!(d.get_hand_at(0).value(false), 22);
    assert!(d.has_busted());
    assert_eq!(deck.remaining(), 1);
}

#[test]
fn dealer_at_a_natural_17_draws_nothing() {
    let mut deck = deck_of(&[Rank::Ten, Rank::Seven, Rank::Four]);
    let mut d = dealer();
    d.bet(0, &mut deck);
    let total = d.play_as_dealer(&mut deck);
    assert_eq!(total, 17);
    assert_eq!(d.get_hand_at(0).get_card_count(), 2);
    assert_eq!(deck.remaining(), 1);
}

#[test]
fn dealer_stands_on_a_soft_17() {
    let mut deck = deck_of(&[Rank::Ace, Rank::Six, Rank::Four]);
    let mut d = dealer();
    d.bet(0, &mut deck);
    assert_eq!(d.play_as_dealer(&mut deck), 17);
    assert_eq!(d.get_hand_at(0).get_card_count(), 2);
    assert_eq!(deck.remaining(), 1);
}

#[test]
fn dealer_with_blackjack_draws_nothing() {
    let mut deck = deck_of(&[Rank::Ace, Rank::King]);
    let mut d = dealer();
    d.bet(0, &mut deck);
    assert_eq!(d.play_as_dealer(&mut deck), 21);
    assert_eq!(deck.remaining(), 0);
}

#[test]
fn dealer_on_a_soft_16_that_a_card_demotes_draws_on() {
    let mut deck = deck_of(&[Rank::Ace, Rank::Five, Rank::Nine, Rank::Three, Rank::Two]);
    let mut d = dealer();
    d.bet(0, &mut deck);
    // soft 16, then 15 with the nine, then 18
    assert_eq!(d.play_as_dealer(&mut deck), 18);
    assert_eq!(d.get_hand_at(0).get_card_count(), 4);
    assert_eq!(deck.remaining(), 1);
}

#[test]
fn dealer_that_goes_bust_counts_as_zero() {
    let mut deck = deck_of(&[Rank::Ten, Rank::Six, Rank::King]);
    let mut d = dealer();
    d.bet(0, &mut deck);
    assert_eq!(d.play_as_dealer(&mut deck), 0);
    assert!(d.has_busted());
    assert_eq!(d.first_hand_value(), 0);
    assert_eq!(d.get_hand_at(0).value(false), 26);
}

#[test]
fn a_whole_round_against_the_dealer() {
    let mut deck = deck_of(&[
        Rank::Ten,
        Rank::Nine,
        Rank::Ten,
        Rank::Five,
        Rank::Three,
        Rank::King,
    ]);
    let mut p = player(200);
    let mut d = dealer();
    p.bet(50, &mut deck);
    d.bet(0, &mut deck);
    p.stand();
    let dealer_value = d.play_as_dealer(&mut deck);
    assert_eq!(dealer_value, 18);
    p.game_over(dealer_value);
    d.game_over(0);
    assert_eq!(p.get_balance(), 250);
    assert_eq!(p.get_standing(), 50);
    assert_eq!(deck.remaining(), 1);
}

#[test]
fn hand_iter_walks_the_hands_in_order() {
    let mut deck = deck_of(&[Rank::Eight, Rank::Eight, Rank::Two, Rank::King]);
    let mut p = player(100);
    p.bet(20, &mut deck);
    assert!(p.split(&mut deck));
    let values: Vec<u32> = p.hand_iter().map(|h| h.value(false)).collect();
    assert_eq!(values, vec![10, 18]);
}

#[test]
fn get_hand_at_hands_out_a_copy() {
    let mut deck = deck_of(&[Rank::Eight, Rank::Seven]);
    let mut p = player(100);
    p.bet(20, &mut deck);
    let mut copy = p.get_hand_at(0);
    copy.set();
    copy.surrender();
    assert!(p.is_playing());
    assert!(!p.get_hand_at(0).lost());
}

#[test]
fn negative_wager_turns_the_settlement_round() {
    let mut deck = deck_of(&[Rank::Ten, Rank::Nine]);
    let mut p = player(100);
    p.bet(-41, &mut deck);
    p.surrender();
    assert_eq!(p.get_balance(), 120);
    p.game_over(0);
    assert_eq!(p.get_balance(), 161);
    assert_eq!(p.get_standing(), 61);
}

#[test]
fn dealer_plays_while_a_hand_is_not_lost() {
    let mut deck = deck_of(&[
        Rank::King,
        Rank::Six,
        Rank::Ten,
        Rank::Nine,
        Rank::Queen,
        Rank::Eight,
        Rank::Eight,
        Rank::Two,
    ]);
    let mut ann = player(100);
    let mut bob = Player::new(String::from("Bob"), false, 100);
    ann.bet(10, &mut deck);
    bob.bet(10, &mut deck);
    let mut players = vec![ann, bob];
    assert!(dealer_plays(&players));
    // Ann goes bust with the queen: Bob is still in.
    assert!(players[0].hit(&mut deck));
    assert!(dealer_plays(&players));
    players[1].surrender();
    assert!(!dealer_plays(&players));
}

#[test]
fn dealer_plays_for_a_hand_left_of_a_split() {
    let mut deck =
        deck_of(&[Rank::Eight, Rank::Eight, Rank::Seven, Rank::King, Rank::Nine, Rank::Two]);
    let mut ann = player(100);
    ann.bet(20, &mut deck);
    assert!(ann.split(&mut deck));
    assert!(ann.hit(&mut deck));
    let players = vec![ann];
    assert!(players[0].has_busted());
    assert!(dealer_plays(&players));
}

#[test]
fn dealer_does_not_play_at_an_empty_table() {
    let players: Vec<Player> = Vec::new();
    assert!(!dealer_plays(&players));
    let idle = vec![player(100)];
    assert!(!dealer_plays(&idle));
}
