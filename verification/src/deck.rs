use vstd::prelude::*;

use rand::seq::SliceRandom;

use crate::card::{Card, Rank, Suit};

verus! {

/// The rank dealt at position `i` within one suit's run: Ace first,
/// then Two up to Ten, then the face cards.
pub open spec fn rank_at(i: int) -> Rank {
    if i == 0 {
        Rank::Ace
    } else if i == 1 {
        Rank::Two
    } else if i == 2 {
        Rank::Three
    } else if i == 3 {
        Rank::Four
    } else if i == 4 {
        Rank::Five
    } else if i == 5 {
        Rank::Six
    } else if i == 6 {
        Rank::Seven
    } else if i == 7 {
        Rank::Eight
    } else if i == 8 {
        Rank::Nine
    } else if i == 9 {
        Rank::Ten
    } else if i == 10 {
        Rank::Jack
    } else if i == 11 {
        Rank::Queen
    } else {
        Rank::King
    }
}

pub open spec fn suit_at(i: int) -> Suit {
    if i == 0 {
        Suit::Hearts
    } else if i == 1 {
        Suit::Diamonds
    } else if i == 2 {
        Suit::Clubs
    } else {
        Suit::Spades
    }
}

/// The standard 52-card deck in its fixed order: for each suit in turn,
/// the thirteen ranks from Ace to King.
pub open spec fn full_deck() -> Seq<Card> {
    Seq::new(52, |i: int| Card { rank: rank_at(i % 13), suit: suit_at(i / 13) })
}

fn rank_from_index(i: usize) -> (r: Rank)
    requires
        i < 13,
    ensures
        r == rank_at(i as int),
{
    match i {
        0 => Rank::Ace,
        1 => Rank::Two,
        2 => Rank::Three,
        3 => Rank::Four,
        4 => Rank::Five,
        5 => Rank::Six,
        6 => Rank::Seven,
        7 => Rank::Eight,
        8 => Rank::Nine,
        9 => Rank::Ten,
        10 => Rank::Jack,
        11 => Rank::Queen,
        _ => Rank::King,
    }
}

fn suit_from_index(i: usize) -> (s: Suit)
    requires
        i < 4,
    ensures
        s == suit_at(i as int),
{
    match i {
        0 => Suit::Hearts,
        1 => Suit::Diamonds,
        2 => Suit::Clubs,
        _ => Suit::Spades,
    }
}

/// Builds the 52 cards of `full_deck` in order, one rank-suit
/// combination each.
pub fn create_deck() -> (deck: Vec<Card>)
    ensures
        deck@ == full_deck(),
{
    let mut deck: Vec<Card> = Vec::new();
    let mut s: usize = 0;
    while s < 4
        invariant
            s <= 4,
            deck@.len() == 13 * s,
            forall|i: int| 0 <= i < deck@.len() ==> deck@[i] == full_deck()[i],
        decreases 4 - s,
    {
        let mut r: usize = 0;
        while r < 13
            invariant
                s < 4,
                r <= 13,
                deck@.len() == 13 * s + r,
                forall|i: int| 0 <= i < deck@.len() ==> deck@[i] == full_deck()[i],
            decreases 13 - r,
        {
            deck.push(Card { rank: rank_from_index(r), suit: suit_from_index(s) });
            proof {
                let idx = 13 * (s as int) + r as int;
                vstd::arithmetic::div_mod::lemma_fundamental_div_mod_converse(
                    idx,
                    13,
                    s as int,
                    r as int,
                );
                assert(deck@[idx] == full_deck()[idx]);
            }
            r = r + 1;
        }
        s = s + 1;
    }
    proof {
        assert(deck@ =~= full_deck());
    }
    deck
}

/// Every one of the 52 rank-suit combinations appears exactly once in
/// the fixed deck: drawing from it without replacement never repeats a
/// card.
pub proof fn lemma_full_deck_no_duplicates()
    ensures
        full_deck().no_duplicates(),
{
    assert forall|i: int, j: int|
        0 <= i < 52 && 0 <= j < 52 && i != j implies full_deck()[i] != full_deck()[j] by {
        if full_deck()[i] == full_deck()[j] {
            assert(rank_at(i % 13) == rank_at(j % 13));
            assert(suit_at(i / 13) == suit_at(j / 13));
            assert(0 <= i % 13 < 13 && 0 <= j % 13 < 13);
            assert(0 <= i / 13 < 4 && 0 <= j / 13 < 4);
            assert(i % 13 == j % 13);
            assert(i / 13 == j / 13);
            assert(i == 13 * (i / 13) + i % 13);
            assert(j == 13 * (j / 13) + j % 13);
        }
    }
}

/// Relies on rand's `SliceRandom::shuffle`: a Fisher-Yates pass that
/// only swaps elements in place, so the same cards remain, in some
/// order that depends on the thread's generator.
#[verifier::external_body]
fn shuffle_cards(deck: &mut Vec<Card>)
    ensures
        final(deck)@.len() == old(deck)@.len(),
        final(deck)@.to_multiset() == old(deck)@.to_multiset(),
{
    deck.shuffle(&mut rand::thread_rng());
}

/// A full deck in a random order: whatever the order came out, the deck
/// holds exactly the 52 standard cards.
pub fn new_shuffled_deck() -> (deck: Vec<Card>)
    ensures
        deck@.len() == 52,
        deck@.to_multiset() == full_deck().to_multiset(),
{
    let mut deck = create_deck();
    shuffle_cards(&mut deck);
    deck
}

} // verus!
