//! Randomness, drawn from the generator that `rand` keeps for each
//! thread.

use vstd::prelude::*;
use rand::rngs::ThreadRng;
use rand::seq::SliceRandom;
use rand::Rng;
use std::ops::Range;
use crate::carve::is_direction_order;
use crate::config::Chance;
use crate::position::Direction;

verus! {

/// `rand::rngs::ThreadRng`, the handle to the generator that `rand` keeps
/// for each thread. Nothing is known of its state.
#[verifier::external_type_specification]
#[verifier::external_body]
pub struct ExThreadRng(rand::rngs::ThreadRng);

/// `rand::thread_rng` hands out the calling thread's generator. Nothing is
/// claimed of it.
pub assume_specification[ rand::thread_rng ]() -> (rng: ThreadRng);

/// `SliceRandom::shuffle` reorders a slice in place by swapping its
/// elements: what it leaves is the same elements, each as often as before.
/// Which order comes out is not stated.
#[verifier::external_body]
pub(crate) fn shuffle_directions(directions: &mut [Direction; 4], rng: &mut ThreadRng)
    ensures
        final(directions)@.to_multiset() == old(directions)@.to_multiset(),
{
    directions.shuffle(rng);
}

/// `Rng::gen_range` on a half-open range of `usize`: it panics on an empty
/// range, and otherwise returns some value of the range.
#[verifier::external_body]
pub(crate) fn draw_in_range(rng: &mut ThreadRng, range: Range<usize>) -> (drawn: usize)
    requires
        range.start < range.end,
    ensures
        range.start <= drawn < range.end,
{
    rng.gen_range(range)
}

/// `Rng::gen_ratio` returns `true` with a chance of `numerator` in
/// `denominator`. It panics when the denominator is zero or smaller than
/// the numerator. Its documentation fixes two outcomes: always `false` for
/// a numerator of zero, always `true` for a numerator equal to the
/// denominator.
#[verifier::external_body]
pub(crate) fn draw_ratio(rng: &mut ThreadRng, numerator: u32, denominator: u32) -> (hit: bool)
    requires
        0 < denominator,
        numerator <= denominator,
    ensures
        numerator == 0 ==> !hit,
        numerator == denominator ==> hit,
{
    rng.gen_ratio(numerator, denominator)
}

/// How often `rand_odd_between` draws from the whole range before it
/// settles for the lowest odd value.
pub const ODD_DRAW_LIMIT: usize = 1024;

/// Whether `n` is odd.
pub open spec fn is_odd(n: int) -> bool {
    n % 2 == 1
}

/// Whether `range` holds an odd value.
pub open spec fn holds_odd(range: Range<usize>) -> bool {
    exists|n: int| range.start <= n < range.end && #[trigger] is_odd(n)
}

/// What a drawn value is accepted as: itself where it is odd, nothing
/// where it is even.
pub fn accept_odd(drawn: usize) -> (accepted: Option<usize>)
    ensures
        is_odd(drawn as int) ==> accepted == Some(drawn),
        !is_odd(drawn as int) ==> accepted.is_none(),
{
    if drawn % 2 != 0 {
        Some(drawn)
    } else {
        None
    }
}

/// The lowest odd value of `range`, if it holds one.
pub fn lowest_odd(range: &Range<usize>) -> (lowest: Option<usize>)
    ensures
        match lowest {
            Some(odd) => {
                &&& range.start <= odd < range.end
                &&& is_odd(odd as int)
                &&& forall|n: int| range.start <= n < odd ==> !is_odd(n)
            },
            None => !holds_odd(*range),
        },
{
    if range.start >= range.end {
        None
    } else if range.start % 2 != 0 {
        Some(range.start)
    } else if range.start + 1 < range.end {
        Some(range.start + 1)
    } else {
        None
    }
}

/// An odd value of `range`, drawn at random.
///
/// Values are drawn from the whole range until one is accepted as odd, as
/// long as `ODD_DRAW_LIMIT` allows. Each draw is odd with a chance of a
/// third or more, so the limit is reached once in more than 10^180 calls;
/// the lowest odd value of the range is returned then.
pub fn rand_odd_between(range: Range<usize>) -> (odd: usize)
    requires
        holds_odd(range),
    ensures
        range.start <= odd < range.end,
        is_odd(odd as int),
{
    let mut rng = rand::thread_rng();
    let mut draws: usize = 0;
    while draws < ODD_DRAW_LIMIT
        invariant
            range.start < range.end,
        decreases ODD_DRAW_LIMIT - draws,
    {
        let drawn = draw_in_range(&mut rng, range.start..range.end);
        if let Some(odd) = accept_odd(drawn) {
            return odd;
        }
        draws += 1;
    }
    lowest_odd(&range).unwrap()
}

/// The four directions in a random order.
pub fn shuffled_directions(rng: &mut ThreadRng) -> (order: [Direction; 4])
    ensures
        is_direction_order(order@),
{
    let mut directions = [Direction::Up, Direction::Left, Direction::Right, Direction::Down];
    let ghost before = directions@;
    shuffle_directions(&mut directions, rng);
    proof {
        assert(before[0] == Direction::Up && before[1] == Direction::Left && before[2]
            == Direction::Right && before[3] == Direction::Down);
        assert(before.contains(Direction::Up) && before.contains(Direction::Left)
            && before.contains(Direction::Right) && before.contains(Direction::Down));
        before.to_multiset_ensures();
        directions@.to_multiset_ensures();
        let after = directions@;
        assert(after.to_multiset().count(Direction::Up) > 0);
        assert(after.to_multiset().count(Direction::Left) > 0);
        assert(after.to_multiset().count(Direction::Right) > 0);
        assert(after.to_multiset().count(Direction::Down) > 0);
    }
    directions
}

/// One random direction order for each of `count` cells.
pub(crate) fn draw_orders(rng: &mut ThreadRng, count: usize) -> (orders: Vec<[Direction; 4]>)
    ensures
        orders.len() == count,
        forall|k: int| 0 <= k < count ==> is_direction_order(#[trigger] orders[k]@),
{
    let mut orders: Vec<[Direction; 4]> = Vec::new();
    while orders.len() < count
        invariant
            orders.len() <= count,
            forall|k: int| 0 <= k < orders.len() ==> is_direction_order(#[trigger] orders[k]@),
        decreases count - orders.len(),
    {
        let order = shuffled_directions(rng);
        orders.push(order);
    }
    orders
}

/// One random decision for each of `count` trials, each `true` with the
/// given chance.
pub(crate) fn draw_decisions(rng: &mut ThreadRng, chance: Chance, count: usize) -> (decisions: Vec<
    bool,
>)
    ensures
        decisions.len() == count,
        chance@.0 == 0 ==> forall|k: int| 0 <= k < count ==> !#[trigger] decisions[k],
        chance@.0 == chance@.1 ==> forall|k: int| 0 <= k < count ==> #[trigger] decisions[k],
{
    let numerator = chance.numerator();
    let denominator = chance.denominator();
    let mut decisions: Vec<bool> = Vec::new();
    while decisions.len() < count
        invariant
            decisions.len() <= count,
            0 < denominator,
            numerator <= denominator,
            numerator == chance@.0,
            denominator == chance@.1,
            numerator == 0 ==> forall|k: int| 0 <= k < decisions.len() ==> !#[trigger] decisions[k],
            numerator == denominator ==> forall|k: int|
                0 <= k < decisions.len() ==> #[trigger] decisions[k],
        decreases count - decisions.len(),
    {
        let hit = draw_ratio(rng, numerator, denominator);
        decisions.push(hit);
    }
    decisions
}

} // verus!
