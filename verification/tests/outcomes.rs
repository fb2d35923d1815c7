use blackjack_core::card::{Card, Rank, Suit};
use blackjack_core::hand::Hand;
use blackjack_core::outcome::{classify_outcome, Outcome};

fn outcome_hand(ranks: &[Rank]) -> Hand {
    let mut hand = Hand::new();
    for &rank in ranks {
        hand.add_card(Card { rank, suit: Suit::Clubs });
    }
    hand
}

#[test]
fn player_natural_beats_dealer_seventeen() {
    let player = outcome_hand(&[Rank::Ace, Rank::King]);
    let dealer = outcome_hand(&[Rank::Nine, Rank::Eight]);
    assert_eq!(classify_outcome(&player, &dealer), Outcome::PlayerBlackjack);
}

#[test]
fn dealer_natural_beats_nineteen() {
    let player = outcome_hand(&[Rank::Ten, Rank::Nine]);
    let dealer = outcome_hand(&[Rank::Ace, Rank::King]);
    assert_eq!(classify_outcome(&player, &dealer), Outcome::DealerWin);
}

#[test]
fn player_bust_loses_regardless_of_dealer() {
    let player = outcome_hand(&[Rank::King, Rank::Queen, Rank::Five]);
    let low_dealer = outcome_hand(&[Rank::Two, Rank::Three]);
    let busted_dealer = outcome_hand(&[Rank::King, Rank::Nine, Rank::Five]);
    assert_eq!(classify_outcome(&player, &low_dealer), Outcome::PlayerBust);
    assert_eq!(classify_outcome(&player, &busted_dealer), Outcome::PlayerBust);
}

#[test]
fn equal_eighteens_push() {
    let player = outcome_hand(&[Rank::Ten, Rank::Eight]);
    let dealer = outcome_hand(&[Rank::Nine, Rank::Nine]);
    assert_eq!(classify_outcome(&player, &dealer), Outcome::Push);
}

#[test]
fn dealer_bust_pays_player() {
    let player = outcome_hand(&[Rank::Ten, Rank::Six]);
    let dealer = outcome_hand(&[Rank::King, Rank::Nine, Rank::Five]);
    assert_eq!(classify_outcome(&player, &dealer), Outcome::PlayerWin);
}

#[test]
fn higher_total_wins() {
    let player = outcome_hand(&[Rank::Ten, Rank::Ten]);
    let dealer = outcome_hand(&[Rank::Ten, Rank::Nine]);
    assert_eq!(classify_outcome(&player, &dealer), Outcome::PlayerWin);
    assert_eq!(classify_outcome(&dealer, &player), Outcome::DealerWin);
}

#[test]
fn two_naturals_push() {
    let player = outcome_hand(&[Rank::Ace, Rank::King]);
    let dealer = outcome_hand(&[Rank::Ace, Rank::Queen]);
    assert_eq!(classify_outcome(&player, &dealer), Outcome::Push);
}

#[test]
fn three_card_twenty_one_is_no_natural() {
    let player = outcome_hand(&[Rank::Seven, Rank::Seven, Rank::Seven]);
    let dealer = outcome_hand(&[Rank::Ten, Rank::Seven]);
    assert_eq!(classify_outcome(&player, &dealer), Outcome::PlayerWin);
}

#[test]
fn dealer_natural_ties_any_twenty_one() {
    let player = outcome_hand(&[Rank::Seven, Rank::Seven, Rank::Seven]);
    let dealer = outcome_hand(&[Rank::Ace, Rank::King]);
    assert_eq!(classify_outcome(&player, &dealer), Outcome::Push);
}
