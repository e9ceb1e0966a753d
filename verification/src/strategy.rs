//! What a search strategy owes its caller, and the simplest strategy.

use crate::tester::{right_guess, Tester, FLOORS};
use vstd::prelude::*;

verus! {

/// A way to find the first unsafe floor of a building with two eggs.
///
/// A strategy is a fixed policy: how many eggs it drops depends on the hidden
/// floor alone, and for every hidden floor up to `FLOORS.end` its guess is right.
pub trait Strategy {
    /// Whether the parameters of the strategy describe a search.
    spec fn valid(&self) -> bool;

    /// The number of eggs that the strategy drops when the first unsafe floor
    /// is `first_unsafe_floor`.
    spec fn tries(&self, first_unsafe_floor: nat) -> nat;

    /// Whatever floor a tester hides, the drops of the search fit its counter.
    proof fn tries_fit(&self, first_unsafe_floor: nat)
        requires
            self.valid(),
            first_unsafe_floor <= u32::MAX,
        ensures
            self.tries(first_unsafe_floor) <= u32::MAX,
    ;

    /// Finds the first unsafe floor by dropping eggs.
    ///
    /// The guess is `FLOORS.end` when an egg survives every floor. The tester
    /// needs both its eggs and room in its counter for the drops of the search;
    /// a tester that has counted no drop yet has that room, as `tries_fit` shows.
    fn solve(&self, tester: &mut Tester) -> (guess: u32)
        requires
            self.valid(),
            old(tester)@.eggs_left >= 2,
            old(tester)@.num_tries == 0 || old(tester)@.num_tries + self.tries(
                old(tester)@.first_unsafe_floor,
            ) <= u32::MAX,
        ensures
            old(tester)@.first_unsafe_floor <= FLOORS.end ==> guess == old(
                tester,
            )@.first_unsafe_floor,
            final(tester)@.first_unsafe_floor == old(tester)@.first_unsafe_floor,
            final(tester)@.num_tries == old(tester)@.num_tries + self.tries(
                old(tester)@.first_unsafe_floor,
            ),
            old(tester)@.eggs_left - 2 <= final(tester)@.eggs_left <= old(tester)@.eggs_left,
    ;
}

/// The floor that a scan of the floors `low..high` ends on: the lowest of them
/// from which an egg breaks, or `high` when there is none.
pub open spec fn scan_floor(low: nat, high: nat, first_unsafe_floor: nat) -> nat {
    if low >= high || first_unsafe_floor >= high {
        high
    } else if first_unsafe_floor <= low {
        low
    } else {
        first_unsafe_floor
    }
}

/// The number of eggs that a scan of the floors `low..high` drops: one for each
/// floor up to and including the one it ends on, as far as that is below `high`.
pub open spec fn scan_tries(low: nat, high: nat, first_unsafe_floor: nat) -> nat {
    if low >= high {
        0
    } else if first_unsafe_floor >= high {
        (high - low) as nat
    } else {
        (scan_floor(low, high, first_unsafe_floor) - low + 1) as nat
    }
}

/// The number of eggs that a scan of the floors `low..high` breaks: one if it
/// reaches a floor from which an egg breaks, else none.
pub open spec fn scan_broken(low: nat, high: nat, first_unsafe_floor: nat) -> nat {
    if low < high && first_unsafe_floor < high {
        1
    } else {
        0
    }
}

/// Drops an egg from each of the floors `low..high` in turn, lowest first,
/// until one breaks. Returns the floor from which it broke, or `high` if none did.
pub fn scan(low: u32, high: u32, tester: &mut Tester) -> (floor: u32)
    requires
        old(tester)@.eggs_left > 0,
        old(tester)@.num_tries + scan_tries(
            low as nat,
            high as nat,
            old(tester)@.first_unsafe_floor,
        ) <= u32::MAX,
    ensures
        floor == scan_floor(low as nat, high as nat, old(tester)@.first_unsafe_floor),
        final(tester)@ == old(tester)@.after(
            scan_tries(low as nat, high as nat, old(tester)@.first_unsafe_floor),
            scan_broken(low as nat, high as nat, old(tester)@.first_unsafe_floor),
        ),
{
    let ghost before = tester@;
    let mut floor: u32 = low;
    while floor < high
        invariant
            before == old(tester)@,
            low <= floor,
            low < high ==> floor <= high,
            low >= high ==> floor == low,
            low < floor ==> floor <= before.first_unsafe_floor,
            before.eggs_left > 0,
            before.num_tries + scan_tries(low as nat, high as nat, before.first_unsafe_floor)
                <= u32::MAX,
            tester@ == before.after((floor - low) as nat, 0),
        decreases high - floor,
    {
        if tester.breaks_from(floor) {
            return floor;
        }
        floor += 1;
    }
    high
}

/// Tries every floor from the ground up.
#[derive(Debug)]
pub struct Linear;

impl Strategy for Linear {
    open spec fn valid(&self) -> bool {
        true
    }

    open spec fn tries(&self, first_unsafe_floor: nat) -> nat {
        scan_tries(0, FLOORS.end as nat, first_unsafe_floor)
    }

    proof fn tries_fit(&self, first_unsafe_floor: nat) {
    }

    fn solve(&self, tester: &mut Tester) -> (guess: u32)
        ensures
            guess == right_guess(old(tester)@.first_unsafe_floor),
            final(tester)@ == old(tester)@.after(
                scan_tries(0, FLOORS.end as nat, old(tester)@.first_unsafe_floor),
                scan_broken(0, FLOORS.end as nat, old(tester)@.first_unsafe_floor),
            ),
    {
        scan(FLOORS.start, FLOORS.end, tester)
    }
}

} // verus!
