use vstd::prelude::*;

verus! {

/// One of the four French suits. Suit never affects scoring; it exists
/// only so that a card can be displayed.
#[derive(Clone, Copy, PartialEq, Eq, Structural, Debug)]
pub enum Suit {
    Hearts,
    Diamonds,
    Clubs,
    Spades,
}

/// A card's rank. Jack, Queen and King score like a Ten; an Ace scores
/// as 1 or 11 at the holder's choice.
#[derive(Clone, Copy, PartialEq, Eq, Structural, Debug)]
pub enum Rank {
    Ace,
    Two,
    Three,
    Four,
    Five,
    Six,
    Seven,
    Eight,
    Nine,
    Ten,
    Jack,
    Queen,
    King,
}

/// An immutable playing card.
#[derive(Clone, Copy, PartialEq, Eq, Structural, Debug)]
pub struct Card {
    pub rank: Rank,
    pub suit: Suit,
}

/// The value of a rank with every Ace counted low (as 1).
pub open spec fn low_value(r: Rank) -> int {
    match r {
        Rank::Ace => 1,
        Rank::Two => 2,
        Rank::Three => 3,
        Rank::Four => 4,
        Rank::Five => 5,
        Rank::Six => 6,
        Rank::Seven => 7,
        Rank::Eight => 8,
        Rank::Nine => 9,
        Rank::Ten => 10,
        Rank::Jack => 10,
        Rank::Queen => 10,
        Rank::King => 10,
    }
}

pub open spec fn is_ace(c: Card) -> bool {
    c.rank is Ace
}

/// Which amounts a single card may add to a hand's total: an Ace
/// contributes 1 or 11, every other rank exactly its fixed value.
pub open spec fn contributes(c: Card, v: int) -> bool {
    if is_ace(c) {
        v == 1 || v == 11
    } else {
        v == low_value(c.rank)
    }
}

impl Card {
    /// Every value this card can contribute to a hand's total, lowest first.
    pub fn value(&self) -> (r: Vec<i32>)
        ensures
            r@.len() == if is_ace(*self) { 2int } else { 1int },
            forall|i: int| 0 <= i < r@.len() ==> contributes(*self, #[trigger] r@[i] as int),
            r@[0] as int == low_value(self.rank),
            is_ace(*self) ==> r@[1] == 11i32,
    {
        match self.rank {
            Rank::Ace => vec![1, 11],
            Rank::Two => vec![2],
            Rank::Three => vec![3],
            Rank::Four => vec![4],
            Rank::Five => vec![5],
            Rank::Six => vec![6],
            Rank::Seven => vec![7],
            Rank::Eight => vec![8],
            Rank::Nine => vec![9],
            _ => vec![10],
        }
    }
}

} // verus!
