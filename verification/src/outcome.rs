use vstd::prelude::*;

use crate::card::Card;
use crate::hand::Hand;
use crate::totals::best_total;

verus! {

/// How one player hand fares against the dealer's at the end of a
/// round. Derived from the hands; never stored.
#[derive(Clone, Copy, PartialEq, Eq, Structural, Debug)]
pub enum Outcome {
    /// 21 on the player's first two cards, unmatched by the dealer; pays 3:2.
    PlayerBlackjack,
    PlayerWin,
    DealerWin,
    Push,
    PlayerBust,
}

/// The round's classification rules, in their fixed order of precedence:
/// a two-card 21 (a natural) on either side is checked before anything
/// else, so a natural is never mistaken for a plain win and a dealer
/// natural beats any non-natural hand; then busts; then the higher best
/// total wins, and equal totals push.
pub open spec fn classify(player: Seq<Card>, dealer: Seq<Card>) -> Outcome {
    let p = best_total(player);
    let d = best_total(dealer);
    if p == 21 && player.len() == 2 && d != 21 {
        Outcome::PlayerBlackjack
    } else if d == 21 && dealer.len() == 2 && p != 21 {
        Outcome::DealerWin
    } else if p > 21 {
        Outcome::PlayerBust
    } else if d > 21 {
        Outcome::PlayerWin
    } else if p > d {
        Outcome::PlayerWin
    } else if p == d {
        Outcome::Push
    } else {
        Outcome::DealerWin
    }
}

/// Classifies a finished round for one player hand against the dealer's
/// hand, per the rules of `classify`.
pub fn classify_outcome(player: &Hand, dealer: &Hand) -> (r: Outcome)
    requires
        player.wf(),
        dealer.wf(),
    ensures
        r == classify(player@, dealer@),
{
    let p: i32 = player.best_value();
    let d: i32 = dealer.best_value();
    let player_natural = p == 21 && player.cards().len() == 2;
    let dealer_natural = d == 21 && dealer.cards().len() == 2;
    if player_natural && d != 21 {
        Outcome::PlayerBlackjack
    } else if dealer_natural && p != 21 {
        Outcome::DealerWin
    } else if p > 21 {
        Outcome::PlayerBust
    } else if d > 21 {
        Outcome::PlayerWin
    } else if p > d {
        Outcome::PlayerWin
    } else if p == d {
        Outcome::Push
    } else {
        Outcome::DealerWin
    }
}

} // verus!
