use vstd::prelude::*;

use crate::card::{contributes, is_ace, low_value, Card};

verus! {

/// How many Aces a sequence of cards holds.
pub open spec fn ace_count(s: Seq<Card>) -> int
    decreases s.len(),
{
    if s.len() == 0 {
        0
    } else {
        ace_count(s.drop_last()) + if is_ace(s.last()) {
            1int
        } else {
            0int
        }
    }
}

/// The lowest total of a sequence of cards: every card counted at its
/// low value, so every Ace as 1.
pub open spec fn min_total(s: Seq<Card>) -> int
    decreases s.len(),
{
    if s.len() == 0 {
        0
    } else {
        min_total(s.drop_last()) + low_value(s.last().rank)
    }
}

/// The set of all totals obtainable by choosing, independently, one
/// contribution per card (1 or 11 for each Ace, the fixed value for any
/// other card) and adding the choices up. The empty hand totals 0 alone,
/// and no cap at 21 is applied: totals over 21 are valid elements.
pub open spec fn possible_totals(s: Seq<Card>) -> Set<int>
    decreases s.len(),
{
    if s.len() == 0 {
        set![0int]
    } else {
        let rest = possible_totals(s.drop_last());
        let c = s.last();
        Set::new(
            |t: int| exists|p: int, v: int| rest.contains(p) && contributes(c, v) && t == p + v,
        )
    }
}

/// The total reached when k of the hand's Aces are counted high: each
/// such Ace adds 10 above the all-low total.
pub open spec fn step_total(s: Seq<Card>, k: int) -> int {
    min_total(s) + 10 * k
}

/// `possible_totals` in closed form: exactly the totals with 0 to
/// `ace_count` Aces counted high.
pub open spec fn stepped_totals(s: Seq<Card>) -> Set<int> {
    Set::new(|t: int| exists|k: int| 0 <= k <= ace_count(s) && t == #[trigger] step_total(s, k))
}

pub proof fn lemma_ace_count_bounds(s: Seq<Card>)
    ensures
        0 <= ace_count(s) <= s.len(),
    decreases s.len(),
{
    if s.len() > 0 {
        lemma_ace_count_bounds(s.drop_last());
    }
}

/// The combinatorial enumeration collapses to an arithmetic ladder: a
/// hand's possible totals are its all-low total plus 10 for each of 0,
/// 1, ..., `ace_count` Aces counted high. Distinct choices of the same
/// number of high Aces coincide, which is all the de-duplication there
/// is.
pub proof fn lemma_possible_totals_closed_form(s: Seq<Card>)
    ensures
        possible_totals(s) =~= stepped_totals(s),
    decreases s.len(),
{
    if s.len() == 0 {
        assert(step_total(s, 0) == 0);
        assert(stepped_totals(s).contains(0));
        assert forall|t: int| stepped_totals(s).contains(t) implies possible_totals(s).contains(
            t,
        ) by {
            let k: int = choose|k: int|
                0 <= k <= ace_count(s) && t == #[trigger] step_total(s, k);
            assert(k == 0);
        }
    } else {
        let rest = s.drop_last();
        let c = s.last();
        lemma_possible_totals_closed_form(rest);
        lemma_ace_count_bounds(rest);
        let base = min_total(rest);
        let n = ace_count(rest);
        assert forall|t: int| possible_totals(s).contains(t) implies stepped_totals(s).contains(
            t,
        ) by {
            let (p, v): (int, int) = choose|p: int, v: int|
                possible_totals(rest).contains(p) && contributes(c, v) && t == p + v;
            assert(stepped_totals(rest).contains(p));
            let k: int = choose|k: int| 0 <= k <= n && p == #[trigger] step_total(rest, k);
            if is_ace(c) {
                assert(min_total(s) == base + 1);
                assert(ace_count(s) == n + 1);
                if v == 1 {
                    assert(t == step_total(s, k));
                } else {
                    assert(t == step_total(s, k + 1));
                }
            } else {
                assert(min_total(s) == base + v);
                assert(ace_count(s) == n);
                assert(t == step_total(s, k));
            }
        }
        assert forall|t: int| stepped_totals(s).contains(t) implies possible_totals(s).contains(
            t,
        ) by {
            let k: int = choose|k: int|
                0 <= k <= ace_count(s) && t == #[trigger] step_total(s, k);
            if is_ace(c) {
                assert(min_total(s) == base + 1);
                assert(ace_count(s) == n + 1);
                if k <= n {
                    let p = step_total(rest, k);
                    assert(stepped_totals(rest).contains(p));
                    assert(possible_totals(rest).contains(p));
                    assert(contributes(c, 1) && t == p + 1);
                } else {
                    let p = step_total(rest, n);
                    assert(stepped_totals(rest).contains(p));
                    assert(possible_totals(rest).contains(p));
                    assert(contributes(c, 11) && t == p + 11);
                }
            } else {
                assert(min_total(s) == base + low_value(c.rank));
                assert(ace_count(s) == n);
                let p = step_total(rest, k);
                assert(stepped_totals(rest).contains(p));
                assert(possible_totals(rest).contains(p));
                assert(contributes(c, low_value(c.rank)) && t == p + low_value(c.rank));
            }
        }
    }
}

/// A hand with no Aces admits exactly one total: the sum of its cards'
/// fixed values, which is its all-low total.
pub proof fn lemma_no_aces_single_total(s: Seq<Card>)
    requires
        ace_count(s) == 0,
    ensures
        possible_totals(s) =~= set![min_total(s)],
{
    lemma_possible_totals_closed_form(s);
    assert(step_total(s, 0) == min_total(s));
    assert(stepped_totals(s).contains(min_total(s)));
    assert forall|t: int| stepped_totals(s).contains(t) implies t == min_total(s) by {
        let k: int = choose|k: int| 0 <= k <= ace_count(s) && t == #[trigger] step_total(s, k);
        assert(k == 0);
    }
}

/// The best total reachable from an all-low total `base` with up to `k`
/// Aces still free to count high: the greatest step not over 21, or
/// `base` itself when every step (even none) overshoots.
pub open spec fn best_from(base: int, k: int) -> int
    decreases k,
{
    if k <= 0 {
        base
    } else if base + 10 * k <= 21 {
        base + 10 * k
    } else {
        best_from(base, k - 1)
    }
}

/// The best playable total of a hand: the greatest possible total not
/// exceeding 21, or, when every possible total busts, the least possible
/// total. The empty hand's best total is 0.
pub open spec fn best_total(s: Seq<Card>) -> int {
    if min_total(s) > 21 {
        min_total(s)
    } else {
        best_from(min_total(s), ace_count(s))
    }
}

proof fn lemma_best_from_step(s: Seq<Card>, n: int)
    requires
        0 <= n <= ace_count(s),
        min_total(s) <= 21,
    ensures
        forall|k: int|
            0 <= k <= n && #[trigger] step_total(s, k) <= 21 ==> step_total(s, k) <= best_from(
                min_total(s),
                n,
            ),
        exists|k: int|
            0 <= k <= n && best_from(min_total(s), n) == #[trigger] step_total(s, k)
                && step_total(s, k) <= 21,
    decreases n,
{
    if n == 0 {
        assert(best_from(min_total(s), 0) == min_total(s));
        assert(min_total(s) == step_total(s, 0));
    } else if step_total(s, n) <= 21 {
        assert(best_from(min_total(s), n) == step_total(s, n));
        assert forall|k: int| 0 <= k <= n && #[trigger] step_total(s, k) <= 21 implies step_total(
            s,
            k,
        ) <= best_from(min_total(s), n) by {
            assert(10 * k <= 10 * n);
        }
    } else {
        assert(best_from(min_total(s), n) == best_from(min_total(s), n - 1));
        lemma_best_from_step(s, n - 1);
    }
}

/// What "best" means against the full set of possible totals: the best
/// total is itself possible; no possible total that stays within 21
/// exceeds it; and when it is over 21, every possible total is at least
/// as large (all choices bust, and it is the least bust).
pub proof fn lemma_best_total_correct(s: Seq<Card>)
    ensures
        possible_totals(s).contains(best_total(s)),
        forall|t: int|
            #[trigger] possible_totals(s).contains(t) && t <= 21 ==> t <= best_total(s),
        best_total(s) > 21 ==> forall|t: int|
            #[trigger] possible_totals(s).contains(t) ==> best_total(s) <= t,
{
    lemma_possible_totals_closed_form(s);
    lemma_ace_count_bounds(s);
    if min_total(s) > 21 {
        assert(best_total(s) == step_total(s, 0));
        assert(stepped_totals(s).contains(best_total(s)));
        assert forall|t: int| #[trigger] possible_totals(s).contains(t) implies best_total(s)
            <= t by {
            let k: int = choose|k: int|
                0 <= k <= ace_count(s) && t == #[trigger] step_total(s, k);
            assert(10 * k >= 0);
        }
    } else {
        lemma_best_from_step(s, ace_count(s));
        let kb: int = choose|k: int|
            0 <= k <= ace_count(s) && best_from(min_total(s), ace_count(s)) == #[trigger] step_total(
                s,
                k,
            ) && step_total(s, k) <= 21;
        assert(stepped_totals(s).contains(best_total(s)));
        assert forall|t: int|
            #[trigger] possible_totals(s).contains(t) && t <= 21 implies t <= best_total(s) by {
            let k: int = choose|k: int|
                0 <= k <= ace_count(s) && t == #[trigger] step_total(s, k);
        }
    }
}

} // verus!
