use blackjack_core::card::{Card, Rank, Suit};
use blackjack_core::deck::{create_deck, new_shuffled_deck};

#[test]
fn fresh_deck_has_fifty_two_cards_in_order() {
    let deck = create_deck();
    assert_eq!(deck.len(), 52);
    assert_eq!(deck[0], Card { rank: Rank::Ace, suit: Suit::Hearts });
    assert_eq!(deck[12], Card { rank: Rank::King, suit: Suit::Hearts });
    assert_eq!(deck[13], Card { rank: Rank::Ace, suit: Suit::Diamonds });
    assert_eq!(deck[51], Card { rank: Rank::King, suit: Suit::Spades });
}

#[test]
fn fresh_deck_has_no_repeated_card() {
    let deck = create_deck();
    for i in 0..deck.len() {
        for j in 0..deck.len() {
            if i != j {
                assert_ne!(deck[i], deck[j]);
            }
        }
    }
}

#[test]
fn shuffled_deck_is_a_permutation_of_the_fresh_deck() {
    let fresh = create_deck();
    let shuffled = new_shuffled_deck();
    assert_eq!(shuffled.len(), 52);
    for card in &fresh {
        let count: usize = shuffled.iter().filter(|c| *c == card).count();
        assert_eq!(count, 1);
    }
}
