//! The building under test and the tester that hides its first unsafe floor.

use std::ops::Range;
use vstd::prelude::*;

verus! {

/// The floors of the building: an egg can be dropped from each floor in this range.
pub const FLOORS: Range<u32> = 0..100;

/// The number of floors of the building from `floor` up.
pub open spec fn floors_above(floor: nat) -> nat {
    if floor < FLOORS.end {
        (FLOORS.end - floor) as nat
    } else {
        0
    }
}

/// The guess that a search owes for a first unsafe floor: the floor itself, or
/// `FLOORS.end` for one that lies beyond the building.
pub open spec fn right_guess(first_unsafe_floor: nat) -> nat {
    if first_unsafe_floor <= FLOORS.end {
        first_unsafe_floor
    } else {
        FLOORS.end as nat
    }
}

/// What can be said of a [`Tester`] in specifications.
pub struct TesterView {
    /// The lowest floor from which an egg breaks. A value of `FLOORS.end` or more
    /// means that an egg survives a drop from every floor of the building.
    pub first_unsafe_floor: nat,
    /// How many eggs have been dropped so far.
    pub num_tries: nat,
    /// How many eggs are still whole.
    pub eggs_left: nat,
}

impl TesterView {
    /// The tester after `tries` further drops of which `broken` broke an egg.
    pub open spec fn after(self, tries: nat, broken: nat) -> TesterView {
        TesterView {
            first_unsafe_floor: self.first_unsafe_floor,
            num_tries: self.num_tries + tries,
            eggs_left: if broken <= self.eggs_left {
                (self.eggs_left - broken) as nat
            } else {
                0
            },
        }
    }
}

/// A search never takes a drop back, never makes an egg whole again and never
/// moves the first unsafe floor.
pub proof fn after_only_spends(before: TesterView, tries: nat, broken: nat)
    ensures
        before.after(tries, broken).first_unsafe_floor == before.first_unsafe_floor,
        before.after(tries, broken).num_tries >= before.num_tries,
        before.after(tries, broken).eggs_left <= before.eggs_left,
{
}

/// One trial against a hidden first unsafe floor.
///
/// The tester counts the drops and the eggs that are left. The hidden floor
/// can be named in specifications only; executable code learns of it through
/// [`Tester::breaks_from`] alone.
pub struct Tester {
    first_unsafe_floor: u32,
    num_tries: u32,
    eggs_left: u32,
}

impl View for Tester {
    type V = TesterView;

    closed spec fn view(&self) -> TesterView {
        TesterView {
            first_unsafe_floor: self.first_unsafe_floor as nat,
            num_tries: self.num_tries as nat,
            eggs_left: self.eggs_left as nat,
        }
    }
}

impl Tester {
    /// A fresh tester with two eggs and no drops made.
    pub fn new(first_unsafe_floor: u32) -> (tester: Self)
        ensures
            tester@ == (TesterView {
                first_unsafe_floor: first_unsafe_floor as nat,
                num_tries: 0,
                eggs_left: 2,
            }),
    {
        Self { first_unsafe_floor, num_tries: 0, eggs_left: 2 }
    }

    /// Drops an egg from `floor` and returns whether it broke.
    ///
    /// Every drop is counted; a drop that breaks the egg uses the egg up.
    pub fn breaks_from(&mut self, floor: u32) -> (breaks: bool)
        requires
            old(self)@.eggs_left > 0,
            old(self)@.num_tries < u32::MAX,
        ensures
            breaks == (floor >= old(self)@.first_unsafe_floor),
            final(self)@.first_unsafe_floor == old(self)@.first_unsafe_floor,
            final(self)@.num_tries == old(self)@.num_tries + 1,
            final(self)@.eggs_left == old(self)@.eggs_left - (if breaks { 1int } else { 0int }),
    {
        self.num_tries += 1;
        let breaks = floor >= self.first_unsafe_floor;
        if breaks {
            self.eggs_left -= 1;
        }
        breaks
    }

    /// The counts of a tester are machine integers.
    pub proof fn view_in_range(&self)
        ensures
            self@.first_unsafe_floor <= u32::MAX,
            self@.num_tries <= u32::MAX,
            self@.eggs_left <= u32::MAX,
    {
    }

    /// The number of eggs dropped so far.
    pub fn num_tries(&self) -> (n: u32)
        ensures
            n == self@.num_tries,
    {
        self.num_tries
    }

    /// The number of eggs that are still whole.
    pub fn eggs_left(&self) -> (n: u32)
        ensures
            n == self@.eggs_left,
    {
        self.eggs_left
    }
}

} // verus!
