use vstd::prelude::*;

use rand::Rng;

verus! {

/// Relies on rand's `Rng::gen_range` over `1..=6`: it returns a value
/// within the given range, and panics only on an empty range, which
/// `1..=6` is not.
#[verifier::external_body]
fn roll_die() -> (r: i32)
    ensures
        1 <= r <= 6,
{
    rand::thread_rng().gen_range(1..=6)
}

/// Rolls two six-sided dice and returns their sum, which always lies
/// between 2 and 12.
pub fn roll_dice() -> (total: i32)
    ensures
        2 <= total <= 12,
{
    let die1: i32 = roll_die();
    let die2: i32 = roll_die();
    die1 + die2
}

} // verus!
