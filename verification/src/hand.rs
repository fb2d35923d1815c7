use vstd::prelude::*;

use crate::card::{low_value, Card};
use crate::totals::{ace_count, best_from, best_total, min_total, possible_totals, step_total};
use crate::totals::{lemma_ace_count_bounds, lemma_possible_totals_closed_form, stepped_totals};

verus! {

/// True of a hand of exactly two cards of one rank: the only hands the
/// split action is offered on. Suit plays no part.
pub open spec fn splittable(s: Seq<Card>) -> bool {
    s.len() == 2 && s[0].rank == s[1].rank
}

/// An ordered sequence of cards held by one player or the dealer for
/// one round. A hand only ever grows, one dealt card at a time, and all
/// cards come from a single 52-card deck, so it never holds more than
/// 52 of them.
#[derive(Clone, Debug)]
pub struct Hand {
    cards: Vec<Card>,
}

impl View for Hand {
    type V = Seq<Card>;

    closed spec fn view(&self) -> Seq<Card> {
        self.cards@
    }
}

impl Hand {
    /// A hand dealt from one deck cannot outgrow the deck.
    pub open spec fn wf(self) -> bool {
        self@.len() <= 52
    }

    /// A new, empty hand.
    pub fn new() -> (h: Hand)
        ensures
            h@ == Seq::<Card>::empty(),
            h.wf(),
    {
        Hand { cards: Vec::new() }
    }

    /// Appends one dealt card. Cards are never removed.
    pub fn add_card(&mut self, card: Card)
        requires
            old(self)@.len() < 52,
        ensures
            final(self)@ == old(self)@.push(card),
            final(self).wf(),
    {
        self.cards.push(card);
    }

    /// The cards in the order they were dealt.
    pub fn cards(&self) -> (r: &Vec<Card>)
        ensures
            r@ == self@,
    {
        &self.cards
    }

    /// Every total this hand can stand for, in increasing order and
    /// without duplicates: as a set, exactly `possible_totals`, which the
    /// ladder shape (all-low total plus 10 per high Ace) lays out as
    /// `ace_count + 1` distinct values.
    pub fn values(&self) -> (r: Vec<i32>)
        requires
            self.wf(),
        ensures
            r@.len() == ace_count(self@) + 1,
            forall|i: int| 0 <= i < r@.len() ==> (#[trigger] r@[i]) as int == step_total(self@, i),
            forall|i: int, j: int| 0 <= i < j < r@.len() ==> r@[i] < r@[j],
            r@.map_values(|v: i32| v as int).to_set() == possible_totals(self@),
    {
        let n: usize = self.cards.len();
        let mut base: i32 = 0;
        let mut aces: usize = 0;
        let mut idx: usize = 0;
        while idx < n
            invariant
                idx <= n,
                n == self@.len() <= 52,
                base as int == min_total(self@.take(idx as int)),
                aces as int == ace_count(self@.take(idx as int)),
                aces <= idx,
                0 <= base as int <= 11 * idx as int,
            decreases n - idx,
        {
            let vals = self.cards[idx].value();
            proof {
                let prefix = self@.take(idx as int + 1);
                assert(prefix.drop_last() =~= self@.take(idx as int));
                assert(prefix.last() == self@[idx as int]);
                assert(1 <= low_value(self@[idx as int].rank) <= 11);
            }
            base = base + vals[0];
            if vals.len() == 2 {
                aces = aces + 1;
            }
            idx = idx + 1;
        }
        proof {
            assert(self@.take(n as int) =~= self@);
        }
        let count: usize = aces + 1;
        let mut r: Vec<i32> = Vec::new();
        let mut k: usize = 0;
        while k < count
            invariant
                k <= count,
                count == aces + 1,
                aces as int == ace_count(self@),
                base as int == min_total(self@),
                aces <= 52,
                0 <= base as int <= 572,
                r@.len() == k,
                forall|i: int| 0 <= i < k ==> (#[trigger] r@[i]) as int == step_total(self@, i),
            decreases count - k,
        {
            r.push(base + 10 * (k as i32));
            k = k + 1;
        }
        proof {
            lemma_possible_totals_closed_form(self@);
            let mapped = r@.map_values(|v: i32| v as int);
            assert forall|t: int| mapped.to_set().contains(t) implies stepped_totals(
                self@,
            ).contains(t) by {
                let i: int = choose|i: int| 0 <= i < mapped.len() && mapped[i] == t;
                assert(t == step_total(self@, i));
            }
            assert forall|t: int| stepped_totals(self@).contains(t) implies mapped.to_set()
                .contains(t) by {
                let k0: int = choose|k0: int|
                    0 <= k0 <= ace_count(self@) && t == #[trigger] step_total(self@, k0);
                assert(mapped[k0] == t);
            }
            assert(mapped.to_set() =~= possible_totals(self@));
        }
        r
    }

    /// The best playable total under the standard soft-ace rule: the
    /// greatest possible total that does not exceed 21, or, when every
    /// possible total busts, the least of them. An empty hand scores 0.
    pub fn best_value(&self) -> (r: i32)
        requires
            self.wf(),
        ensures
            r as int == best_total(self@),
    {
        let v = self.values();
        proof {
            lemma_ace_count_bounds(self@);
        }
        let mut best: i32 = v[0];
        let mut j: usize = 1;
        while j < v.len()
            invariant
                1 <= j <= v@.len(),
                v@.len() == ace_count(self@) + 1,
                forall|i: int| 0 <= i < v@.len() ==> (#[trigger] v@[i]) as int == step_total(
                    self@,
                    i,
                ),
                min_total(self@) > 21 ==> best == v@[0],
                min_total(self@) <= 21 ==> best as int == best_from(min_total(self@), j - 1),
            decreases v@.len() - j,
        {
            if v[j] <= 21 {
                best = v[j];
            }
            proof {
                if min_total(self@) > 21 {
                    assert(10 * (j as int) >= 0);
                    assert(v@[j as int] > 21);
                }
            }
            j = j + 1;
        }
        proof {
            if min_total(self@) > 21 {
                assert(best as int == step_total(self@, 0));
            }
        }
        best
    }

    /// Whether the split action is available: exactly two cards, both of
    /// the same rank.
    pub fn can_split(&self) -> (r: bool)
        ensures
            r == splittable(self@),
    {
        self.cards.len() == 2 && self.cards[0].rank == self.cards[1].rank
    }
}

} // verus!
