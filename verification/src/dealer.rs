use vstd::prelude::*;

use crate::card::Card;
use crate::hand::Hand;
use crate::totals::best_total;

verus! {

/// The cards drawn when `deck` has been consumed from its end (the top
/// of the stack) down to `remaining` cards, first drawn card first.
pub open spec fn drawn_from(deck: Seq<Card>, remaining: int) -> Seq<Card> {
    Seq::new((deck.len() - remaining) as nat, |j: int| deck[deck.len() - 1 - j])
}

/// The dealer's fixed drawing rule: draw from the top of the deck while
/// the hand's best total is under 17, then stand — stand-on-17, with no
/// soft/hard distinction. The rule never draws once 17 is reached, and
/// only an exhausted deck can stop it earlier.
pub fn dealer_play(hand: &mut Hand, deck: &mut Vec<Card>)
    requires
        old(hand)@.len() + old(deck)@.len() <= 52,
    ensures
        final(deck)@.len() <= old(deck)@.len(),
        final(deck)@ == old(deck)@.take(final(deck)@.len() as int),
        final(hand)@ == old(hand)@ + drawn_from(old(deck)@, final(deck)@.len() as int),
        best_total(final(hand)@) >= 17 || final(deck)@.len() == 0,
        forall|i: int|
            0 <= i < old(deck)@.len() - final(deck)@.len() ==> best_total(
                old(hand)@ + #[trigger] drawn_from(
                    old(deck)@,
                    final(deck)@.len() as int,
                ).take(i),
            ) < 17,
{
    let ghost deck0 = deck@;
    let ghost hand0 = hand@;
    while hand.best_value() < 17 && deck.len() > 0
        invariant
            hand@.len() + deck@.len() <= 52,
            deck@.len() <= deck0.len(),
            deck@ == deck0.take(deck@.len() as int),
            hand@ == hand0 + drawn_from(deck0, deck@.len() as int),
            forall|i: int|
                0 <= i < deck0.len() - deck@.len() ==> best_total(
                    hand0 + #[trigger] drawn_from(deck0, deck@.len() as int).take(i),
                ) < 17,
        decreases deck@.len(),
    {
        let ghost rem = deck@.len() as int;
        let ghost hand_before = hand@;
        let c = deck.pop().unwrap();
        hand.add_card(c);
        proof {
            assert(deck@ =~= deck0.take(rem - 1));
            assert(c == deck0[rem - 1]);
            assert(drawn_from(deck0, rem - 1) =~= drawn_from(deck0, rem).push(c));
            assert(hand@ =~= hand0 + drawn_from(deck0, rem - 1));
            assert forall|i: int| 0 <= i < deck0.len() - (rem - 1) implies best_total(
                hand0 + #[trigger] drawn_from(deck0, rem - 1).take(i),
            ) < 17 by {
                if i < deck0.len() - rem {
                    assert(drawn_from(deck0, rem - 1).take(i) =~= drawn_from(deck0, rem).take(i));
                } else {
                    assert(drawn_from(deck0, rem - 1).take(i) =~= drawn_from(deck0, rem));
                    assert(hand0 + drawn_from(deck0, rem) =~= hand_before);
                }
            }
        }
    }
}

} // verus!
