//! The number-guessing helper: a secret between 1 and 10, and the verdict
//! on a guess.

use rand::Rng;
use vstd::prelude::*;

verus! {

/// Relies on `rand::Rng::random_range`: the result of an inclusive integer
/// range is within that range; nothing else holds of a random draw.
#[verifier::external_body]
fn draw_in(low: i32, high: i32) -> (r: i32)
    requires
        low <= high,
    ensures
        low <= r <= high,
{
    rand::rng().random_range(low..=high)
}

/// Draws the secret number of a new game; it lies between 1 and 10.
pub fn new_game() -> (secret: i32)
    ensures
        1 <= secret <= 10,
{
    draw_in(1, 10)
}

/// How a guess compares to the secret.
pub fn evaluate_guess(guess: i32, secret: i32) -> (r: core::cmp::Ordering)
    ensures
        (r == core::cmp::Ordering::Less) == (guess < secret),
        (r == core::cmp::Ordering::Greater) == (guess > secret),
        (r == core::cmp::Ordering::Equal) == (guess == secret),
{
    if guess < secret {
        core::cmp::Ordering::Less
    } else if guess > secret {
        core::cmp::Ordering::Greater
    } else {
        core::cmp::Ordering::Equal
    }
}

} // verus!
