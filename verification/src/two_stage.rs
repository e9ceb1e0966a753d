//! The search in two stages: a coarse first stage that spends one egg to
//! narrow the answer down, and a scan of what is left with the other egg.

use crate::strategy::{scan, scan_broken, scan_floor, scan_tries};
use crate::tester::{Tester, FLOORS};
use vstd::prelude::*;

verus! {

/// A source of floors for the first stage, handed out one at a time.
///
/// A source is used up by reading it; to start over, make a new one.
pub trait FirstStage {
    /// What the source needs to hold of itself.
    spec fn wf(&self) -> bool;

    /// The floors still to come, in the order in which they are handed out.
    spec fn floors(&self) -> Seq<nat>;

    /// Hands out the next floor, or `None` once there are no more.
    fn next_floor(&mut self) -> (next: Option<u32>)
        requires
            old(self).wf(),
        ensures
            final(self).wf(),
            match next {
                Some(floor) => {
                    &&& old(self).floors().len() > 0
                    &&& floor == old(self).floors().first()
                    &&& final(self).floors() == old(self).floors().drop_first()
                },
                None => old(self).floors().len() == 0 && final(self).floors().len() == 0,
            },
    ;
}

/// The number of floors at the front of `floors` that lie below
/// `first_unsafe_floor`: the position of the first drop that breaks an egg, or
/// the length of `floors` if an egg survives them all.
pub open spec fn safe_prefix(floors: Seq<nat>, first_unsafe_floor: nat) -> nat
    decreases floors.len(),
{
    if floors.len() == 0 || floors.first() >= first_unsafe_floor {
        0
    } else {
        1 + safe_prefix(floors.drop_first(), first_unsafe_floor)
    }
}

/// Whether the first stage breaks an egg.
pub open spec fn first_stage_breaks(floors: Seq<nat>, first_unsafe_floor: nat) -> bool {
    safe_prefix(floors, first_unsafe_floor) < floors.len()
}

/// The number of eggs that the first stage drops: one from each floor that
/// turns out safe, and one more if a floor breaks an egg.
pub open spec fn first_stage_tries(floors: Seq<nat>, first_unsafe_floor: nat) -> nat {
    if first_stage_breaks(floors, first_unsafe_floor) {
        safe_prefix(floors, first_unsafe_floor) + 1
    } else {
        floors.len()
    }
}

/// Where the second stage starts: one above the last floor that the first
/// stage found safe, or the ground floor if it found none.
pub open spec fn second_stage_low(floors: Seq<nat>, first_unsafe_floor: nat) -> nat {
    let safe = safe_prefix(floors, first_unsafe_floor);
    if safe == 0 {
        0
    } else {
        floors[safe - 1] + 1
    }
}

/// Where the second stage stops: the floor from which the first stage broke
/// its egg, or `FLOORS.end` if it broke none.
pub open spec fn second_stage_high(floors: Seq<nat>, first_unsafe_floor: nat) -> nat {
    if first_stage_breaks(floors, first_unsafe_floor) {
        floors[safe_prefix(floors, first_unsafe_floor) as int]
    } else {
        FLOORS.end as nat
    }
}

/// The guess of a two-stage search whose first stage drops from `floors`: the
/// first unsafe floor itself if it lies in the building or the first stage
/// reaches it, and `FLOORS.end` if not.
pub open spec fn two_stage_guess(floors: Seq<nat>, first_unsafe_floor: nat) -> nat {
    if first_unsafe_floor <= FLOORS.end || first_stage_breaks(floors, first_unsafe_floor) {
        first_unsafe_floor
    } else {
        FLOORS.end as nat
    }
}

/// The number of eggs that a two-stage search drops.
pub open spec fn two_stage_tries(floors: Seq<nat>, first_unsafe_floor: nat) -> nat {
    first_stage_tries(floors, first_unsafe_floor) + scan_tries(
        second_stage_low(floors, first_unsafe_floor),
        second_stage_high(floors, first_unsafe_floor),
        first_unsafe_floor,
    )
}

/// The number of eggs that a two-stage search breaks.
pub open spec fn two_stage_broken(floors: Seq<nat>, first_unsafe_floor: nat) -> nat {
    let first: nat = if first_stage_breaks(floors, first_unsafe_floor) {
        1
    } else {
        0
    };
    first + scan_broken(
        second_stage_low(floors, first_unsafe_floor),
        second_stage_high(floors, first_unsafe_floor),
        first_unsafe_floor,
    )
}

/// Every floor before the first that breaks an egg is safe, and the floor at
/// that position, if there is one, is not.
pub proof fn safe_prefix_splits(floors: Seq<nat>, first_unsafe_floor: nat)
    ensures
        safe_prefix(floors, first_unsafe_floor) <= floors.len(),
        forall|i: int|
            0 <= i < safe_prefix(floors, first_unsafe_floor) ==> floors[i] < first_unsafe_floor,
        first_stage_breaks(floors, first_unsafe_floor) ==> floors[safe_prefix(
            floors,
            first_unsafe_floor,
        ) as int] >= first_unsafe_floor,
    decreases floors.len(),
{
    if floors.len() != 0 && floors.first() < first_unsafe_floor {
        let rest = floors.drop_first();
        safe_prefix_splits(rest, first_unsafe_floor);
        assert forall|i: int|
            0 <= i < safe_prefix(floors, first_unsafe_floor) implies floors[i]
            < first_unsafe_floor by {
            if i > 0 {
                assert(floors[i] == rest[i - 1]);
            }
        }
        if first_stage_breaks(floors, first_unsafe_floor) {
            assert(floors[safe_prefix(floors, first_unsafe_floor) as int] == rest[safe_prefix(
                rest,
                first_unsafe_floor,
            ) as int]);
        }
    }
}

/// The second stage scans a stretch that holds the first unsafe floor or ends
/// on it, so the scan ends on that floor if it lies below `FLOORS.end`.
pub proof fn second_stage_finds(floors: Seq<nat>, first_unsafe_floor: nat)
    ensures
        second_stage_low(floors, first_unsafe_floor) <= first_unsafe_floor,
        first_stage_breaks(floors, first_unsafe_floor) ==> first_unsafe_floor <= second_stage_high(
            floors,
            first_unsafe_floor,
        ),
        scan_floor(
            second_stage_low(floors, first_unsafe_floor),
            second_stage_high(floors, first_unsafe_floor),
            first_unsafe_floor,
        ) == two_stage_guess(floors, first_unsafe_floor),
{
    safe_prefix_splits(floors, first_unsafe_floor);
}

/// A two-stage search breaks two eggs at most, whatever the floors of its
/// first stage. It drops no more than one egg for each of those floors and one
/// for each floor up to and including the first unsafe one.
pub proof fn two_stage_bounds(floors: Seq<nat>, first_unsafe_floor: nat)
    ensures
        two_stage_broken(floors, first_unsafe_floor) <= 2,
        two_stage_tries(floors, first_unsafe_floor) <= floors.len() + first_unsafe_floor + 1,
{
    safe_prefix_splits(floors, first_unsafe_floor);
}

/// The number of eggs that a two-stage search still drops when its first stage
/// has `floors` to come and its scan is to start at `low`: one for the next
/// floor of the first stage and those that follow a safe drop, or those of the
/// scan once the egg has broken or the floors have run out.
pub open spec fn tries_left(floors: Seq<nat>, first_unsafe_floor: nat, low: nat) -> nat
    decreases floors.len(),
{
    if floors.len() == 0 {
        scan_tries(low, FLOORS.end as nat, first_unsafe_floor)
    } else if floors.first() >= first_unsafe_floor {
        1 + scan_tries(low, floors.first(), first_unsafe_floor)
    } else {
        1 + tries_left(floors.drop_first(), first_unsafe_floor, floors.first() + 1)
    }
}

/// The drops of both stages, counted from a scan that would start at `low`
/// if the first stage found no floor safe, are the drops still to make.
proof fn tries_left_counts(floors: Seq<nat>, first_unsafe_floor: nat, low: nat)
    ensures
        tries_left(floors, first_unsafe_floor, low) == first_stage_tries(floors, first_unsafe_floor)
            + scan_tries(
            if safe_prefix(floors, first_unsafe_floor) == 0 {
                low
            } else {
                second_stage_low(floors, first_unsafe_floor)
            },
            second_stage_high(floors, first_unsafe_floor),
            first_unsafe_floor,
        ),
    decreases floors.len(),
{
    if floors.len() != 0 && floors.first() < first_unsafe_floor {
        let rest = floors.drop_first();
        let safe = safe_prefix(rest, first_unsafe_floor) as int;
        tries_left_counts(rest, first_unsafe_floor, floors.first() + 1);
        safe_prefix_splits(rest, first_unsafe_floor);
        if safe > 0 {
            assert(floors[safe] == rest[safe - 1]);
        }
        if safe < rest.len() {
            assert(floors[safe + 1] == rest[safe]);
        }
    }
}

/// The drops of a two-stage search, counted one floor of the first stage at a time.
pub proof fn two_stage_tries_unfold(floors: Seq<nat>, first_unsafe_floor: nat)
    ensures
        two_stage_tries(floors, first_unsafe_floor) == tries_left(floors, first_unsafe_floor, 0),
{
    tries_left_counts(floors, first_unsafe_floor, 0);
}

/// Skipping `done` safe floors at the front leaves the count of the rest.
proof fn safe_prefix_skips(floors: Seq<nat>, first_unsafe_floor: nat, done: nat)
    requires
        done <= floors.len(),
        forall|i: int| 0 <= i < done ==> floors[i] < first_unsafe_floor,
    ensures
        safe_prefix(floors, first_unsafe_floor) == done + safe_prefix(
            floors.skip(done as int),
            first_unsafe_floor,
        ),
    decreases done,
{
    if done == 0 {
        assert(floors.skip(0) =~= floors);
    } else {
        let rest = floors.drop_first();
        assert forall|i: int| 0 <= i < done - 1 implies rest[i] < first_unsafe_floor by {
            assert(rest[i] == floors[i + 1]);
        }
        safe_prefix_skips(rest, first_unsafe_floor, (done - 1) as nat);
        assert(rest.skip(done - 1) =~= floors.skip(done as int));
        assert(floors[0] < first_unsafe_floor);
    }
}

/// Searches in two stages.
///
/// The first stage drops one egg from each floor of `first_stage` in turn,
/// until the egg breaks or the floors run out. The first unsafe floor then
/// lies above the last floor that proved safe and no higher than the floor
/// from which the egg broke, and the second stage scans that stretch from the
/// bottom with the other egg.
pub fn two_stage<S: FirstStage>(first_stage: S, tester: &mut Tester) -> (guess: u32)
    requires
        first_stage.wf(),
        old(tester)@.eggs_left >= 2,
        old(tester)@.num_tries + two_stage_tries(
            first_stage.floors(),
            old(tester)@.first_unsafe_floor,
        ) <= u32::MAX,
    ensures
        guess == two_stage_guess(first_stage.floors(), old(tester)@.first_unsafe_floor),
        final(tester)@ == old(tester)@.after(
            two_stage_tries(first_stage.floors(), old(tester)@.first_unsafe_floor),
            two_stage_broken(first_stage.floors(), old(tester)@.first_unsafe_floor),
        ),
{
    let ghost floors = first_stage.floors();
    let ghost before = tester@;
    let ghost hidden = before.first_unsafe_floor;
    let ghost mut safe: nat = 0;
    let mut rest = first_stage;
    let mut low: u32 = 0;
    let mut high: u32 = FLOORS.end;
    proof {
        assert(floors.skip(0) =~= floors);
        tester.view_in_range();
    }
    loop
        invariant_except_break
            rest.wf(),
            rest.floors() == floors.skip(safe as int),
            high == FLOORS.end,
            tester@ == before.after(safe, 0),
        invariant
            before == old(tester)@,
            hidden == before.first_unsafe_floor,
            hidden <= u32::MAX,
            before.eggs_left >= 2,
            before.num_tries + two_stage_tries(floors, hidden) <= u32::MAX,
            safe <= floors.len(),
            forall|i: int| 0 <= i < safe ==> floors[i] < hidden,
            low == (if safe == 0 { 0 } else { floors[safe - 1] + 1 }),
        ensures
            safe_prefix(floors, hidden) == safe,
            first_stage_breaks(floors, hidden) ==> high == floors[safe as int] && tester@
                == before.after(safe + 1, 1),
            !first_stage_breaks(floors, hidden) ==> high == FLOORS.end && tester@ == before.after(
                safe,
                0,
            ),
        decreases rest.floors().len(),
    {
        proof {
            safe_prefix_skips(floors, hidden, safe);
        }
        match rest.next_floor() {
            None => {
                break ;
            },
            Some(floor) => {
                assert(floors.skip(safe as int).drop_first() =~= floors.skip(safe as int + 1));
                if tester.breaks_from(floor) {
                    high = floor;
                    break ;
                }
                low = floor + 1;
                proof {
                    safe = safe + 1;
                }
            },
        }
    }
    proof {
        second_stage_finds(floors, hidden);
    }
    scan(low, high, tester)
}

} // verus!
