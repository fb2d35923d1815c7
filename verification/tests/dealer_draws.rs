use blackjack_core::card::{Card, Rank, Suit};
use blackjack_core::dealer::dealer_play;
use blackjack_core::hand::Hand;

fn dealer_card(rank: Rank) -> Card {
    Card { rank, suit: Suit::Diamonds }
}

fn dealer_hand(ranks: &[Rank]) -> Hand {
    let mut hand = Hand::new();
    for &rank in ranks {
        hand.add_card(dealer_card(rank));
    }
    hand
}

#[test]
fn dealer_on_sixteen_draws_exactly_once_past_threshold() {
    let mut hand = dealer_hand(&[Rank::Ten, Rank::Six]);
    // The deck is a stack: the last card is drawn first.
    let mut deck = vec![dealer_card(Rank::Nine), dealer_card(Rank::Five)];
    dealer_play(&mut hand, &mut deck);
    // 16 < 17, so one draw (the Five) was owed; 21 >= 17 stops the rule
    // before the Nine is touched.
    assert_eq!(hand.best_value(), 21);
    assert_eq!(hand.cards().len(), 3);
    assert_eq!(hand.cards()[2].rank, Rank::Five);
    assert_eq!(deck.len(), 1);
    assert_eq!(deck[0].rank, Rank::Nine);
}

#[test]
fn dealer_on_seventeen_stands_immediately() {
    let mut hand = dealer_hand(&[Rank::Ten, Rank::Seven]);
    let mut deck = vec![dealer_card(Rank::Two), dealer_card(Rank::Three)];
    dealer_play(&mut hand, &mut deck);
    assert_eq!(hand.cards().len(), 2);
    assert_eq!(hand.best_value(), 17);
    assert_eq!(deck.len(), 2);
}

#[test]
fn dealer_keeps_drawing_below_seventeen() {
    let mut hand = dealer_hand(&[Rank::Two, Rank::Two]);
    // Drawn in order: Two, Queen, King (4 -> 6 -> 16 -> 26).
    let mut deck = vec![dealer_card(Rank::King), dealer_card(Rank::Queen), dealer_card(Rank::Two)];
    dealer_play(&mut hand, &mut deck);
    assert_eq!(hand.cards().len(), 5);
    assert_eq!(hand.best_value(), 26);
    assert!(deck.is_empty());
}

#[test]
fn dealer_soft_total_counts_high() {
    // Ace + Seven is a soft 18: the rule stands, with no soft/hard
    // distinction.
    let mut hand = dealer_hand(&[Rank::Ace, Rank::Seven]);
    let mut deck = vec![dealer_card(Rank::Nine)];
    dealer_play(&mut hand, &mut deck);
    assert_eq!(hand.cards().len(), 2);
    assert_eq!(hand.best_value(), 18);
    assert_eq!(deck.len(), 1);
}

#[test]
fn dealer_stops_on_empty_deck() {
    let mut hand = dealer_hand(&[Rank::Ten, Rank::Six]);
    let mut deck: Vec<Card> = Vec::new();
    dealer_play(&mut hand, &mut deck);
    assert_eq!(hand.cards().len(), 2);
    assert_eq!(hand.best_value(), 16);
    assert!(deck.is_empty());
}
