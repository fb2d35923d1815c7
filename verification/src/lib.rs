//! Card-hand scoring and outcome resolution for blackjack.
//!
//! The library models cards, hands and the standard 52-card deck, computes
//! the set of totals a hand can stand for given the two-valued Ace, selects
//! the best playable total, decides whether a hand may be split, classifies
//! the outcome of a finished round, and runs the dealer's fixed
//! stand-on-17 drawing rule.

pub mod card;
pub mod dealer;
pub mod deck;
pub mod dice;
pub mod hand;
pub mod outcome;
pub mod totals;
