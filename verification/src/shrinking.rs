//! The shrinking strategy: a first stage whose steps get shorter as it climbs.

use crate::strategy::Strategy;
use crate::tester::{floors_above, right_guess, Tester, FLOORS};
use crate::two_stage::{
    safe_prefix_splits, tries_left, two_stage, two_stage_broken, two_stage_tries,
    two_stage_tries_unfold, FirstStage,
};
use vstd::prelude::*;

verus! {

/// A step after it has shrunk by `shrink_by`; a step that is shorter than
/// that shrinks to nothing.
pub open spec fn shrunk(step: nat, shrink_by: nat) -> nat {
    if step >= shrink_by {
        (step - shrink_by) as nat
    } else {
        0
    }
}

/// The floors reached from `floor` by steps of `step`, then of `step` less
/// `shrink_by`, and so on, until the step has shrunk to nothing or would lead
/// out of the building.
pub open spec fn shrinking_floors(floor: nat, step: nat, shrink_by: nat) -> Seq<nat>
    decreases floors_above(floor),
{
    if step == 0 || floor + step >= FLOORS.end {
        Seq::empty()
    } else {
        seq![floor + step] + shrinking_floors(floor + step, shrunk(step, shrink_by), shrink_by)
    }
}

/// The steps climb: every floor they reach lies above `floor` and inside the
/// building, and each lies above the one before. So there are no more steps
/// than floors above `floor`.
pub proof fn shrinking_floors_climb(floor: nat, step: nat, shrink_by: nat)
    ensures
        shrinking_floors(floor, step, shrink_by).len() <= floors_above(floor),
        forall|i: int|
            0 <= i < shrinking_floors(floor, step, shrink_by).len() ==> floor < (
            #[trigger] shrinking_floors(floor, step, shrink_by)[i]) < FLOORS.end,
        forall|i: int, j: int|
            0 <= i < j < shrinking_floors(floor, step, shrink_by).len() ==> shrinking_floors(
                floor,
                step,
                shrink_by,
            )[i] < shrinking_floors(floor, step, shrink_by)[j],
    decreases floors_above(floor),
{
    if step != 0 && floor + step < FLOORS.end {
        let floors = shrinking_floors(floor, step, shrink_by);
        let rest = shrinking_floors(floor + step, shrunk(step, shrink_by), shrink_by);
        shrinking_floors_climb(floor + step, shrunk(step, shrink_by), shrink_by);
        assert forall|i: int| 0 <= i < floors.len() implies floor < (#[trigger] floors[i])
            < FLOORS.end by {
            if i > 0 {
                assert(floors[i] == rest[i - 1]);
            }
        }
        assert forall|i: int, j: int| 0 <= i < j < floors.len() implies floors[i] < floors[j] by {
            assert(floors[j] == rest[j - 1]);
            if i > 0 {
                assert(floors[i] == rest[i - 1]);
            }
        }
    }
}

/// Whether the steps from `floor` lead out of the building before they have
/// shrunk to nothing.
pub open spec fn steps_cover(floor: nat, step: nat, shrink_by: nat) -> bool
    decreases floors_above(floor),
{
    step > 0 && (floor + step >= FLOORS.end || steps_cover(
        floor + step,
        shrunk(step, shrink_by),
        shrink_by,
    ))
}

/// Steps that shrink by one floor at a time cover the building if they add up
/// to its height: steps of `step`, `step - 1` and so on down to one floor climb
/// `step * (step + 1) / 2` floors.
pub proof fn unit_steps_cover(floor: nat, step: nat)
    requires
        floor < FLOORS.end,
        2 * floor + step * (step + 1) >= 2 * FLOORS.end,
    ensures
        steps_cover(floor, step, 1),
    decreases floors_above(floor),
{
    assert(step > 0) by (nonlinear_arith)
        requires
            step * (step + 1) > 0,
    ;
    if floor + step < FLOORS.end {
        assert(2 * (floor + step) + (step - 1) * step == 2 * floor + step * (step + 1))
            by (nonlinear_arith);
        unit_steps_cover(floor + step, (step - 1) as nat);
    }
}

/// With steps that shrink and cover the building, the drops still to make
/// never exceed the length of the next step, given that the scan starts right
/// above `floor`; each floor by which it starts lower may cost one drop more.
proof fn covering_steps_bound(
    floor: nat,
    step: nat,
    shrink_by: nat,
    first_unsafe_floor: nat,
    low: nat,
)
    requires
        shrink_by > 0,
        steps_cover(floor, step, shrink_by),
        low <= floor + 1,
    ensures
        tries_left(shrinking_floors(floor, step, shrink_by), first_unsafe_floor, low) <= step
            + floor + 1 - low,
    decreases floors_above(floor),
{
    if floor + step < FLOORS.end && floor + step < first_unsafe_floor {
        covering_steps_bound(
            floor + step,
            shrunk(step, shrink_by),
            shrink_by,
            first_unsafe_floor,
            floor + step + 1,
        );
        let floors = shrinking_floors(floor, step, shrink_by);
        assert(floors.drop_first() =~= shrinking_floors(
            floor + step,
            shrunk(step, shrink_by),
            shrink_by,
        ));
    }
}

/// With steps that shrink and cover the building, the strategy never drops
/// more eggs than the first step is long, and one.
pub proof fn shrinking_tries_bound(first_size: nat, shrink_by: nat, first_unsafe_floor: nat)
    requires
        shrink_by > 0,
        steps_cover(0, first_size, shrink_by),
    ensures
        two_stage_tries(shrinking_floors(0, first_size, shrink_by), first_unsafe_floor)
            <= first_size + 1,
{
    two_stage_tries_unfold(shrinking_floors(0, first_size, shrink_by), first_unsafe_floor);
    covering_steps_bound(0, first_size, shrink_by, first_unsafe_floor, 0);
}

/// Hands out the floors reached by shrinking steps.
pub struct ShrinkingSteps {
    floor: u32,
    step: u32,
    shrink_by: u32,
}

impl ShrinkingSteps {
    /// The steps from the ground floor up, the first of `first_size` floors
    /// and each following one shorter by `shrink_by`.
    pub fn new(first_size: u32, shrink_by: u32) -> (steps: Self)
        ensures
            steps.wf(),
            steps.floors() == shrinking_floors(0, first_size as nat, shrink_by as nat),
            steps.floors().len() <= FLOORS.end,
    {
        proof {
            shrinking_floors_climb(0, first_size as nat, shrink_by as nat);
        }
        Self { floor: 0, step: first_size, shrink_by }
    }
}

impl FirstStage for ShrinkingSteps {
    closed spec fn wf(&self) -> bool {
        self.floor < FLOORS.end
    }

    closed spec fn floors(&self) -> Seq<nat> {
        shrinking_floors(self.floor as nat, self.step as nat, self.shrink_by as nat)
    }

    fn next_floor(&mut self) -> (next: Option<u32>) {
        if self.step == 0 || self.step >= FLOORS.end - self.floor {
            self.step = 0;
            return None;
        }
        self.floor += self.step;
        self.step = if self.step >= self.shrink_by {
            self.step - self.shrink_by
        } else {
            0
        };
        proof {
            let rest = shrinking_floors(
                self.floor as nat,
                self.step as nat,
                self.shrink_by as nat,
            );
            assert((seq![self.floor as nat] + rest).drop_first() =~= rest);
        }
        Some(self.floor)
    }
}

/// Drops the first egg after steps that shrink as it climbs, so that a late
/// break leaves a short stretch to scan.
///
/// The first step is `first_size` floors long and each one after it is shorter
/// by `shrink_by`; a step of `shrink_by` floors or fewer is the last. The first
/// stage ends there, or where a step would lead out of the building.
#[derive(Debug)]
pub struct ShrinkingChunks {
    /// The number of floors in the first step.
    pub first_size: u32,
    /// By how many floors each step is shorter than the one before.
    pub shrink_by: u32,
}

impl ShrinkingChunks {
    /// The floors from which the first stage drops its egg.
    pub open spec fn floors(&self) -> Seq<nat> {
        shrinking_floors(0, self.first_size as nat, self.shrink_by as nat)
    }
}

impl Strategy for ShrinkingChunks {
    open spec fn valid(&self) -> bool {
        true
    }

    open spec fn tries(&self, first_unsafe_floor: nat) -> nat {
        two_stage_tries(self.floors(), first_unsafe_floor)
    }

    proof fn tries_fit(&self, first_unsafe_floor: nat) {
        shrinking_floors_climb(0, self.first_size as nat, self.shrink_by as nat);
        safe_prefix_splits(self.floors(), first_unsafe_floor);
    }

    fn solve(&self, tester: &mut Tester) -> (guess: u32)
        ensures
            guess == right_guess(old(tester)@.first_unsafe_floor),
            final(tester)@ == old(tester)@.after(
                two_stage_tries(self.floors(), old(tester)@.first_unsafe_floor),
                two_stage_broken(self.floors(), old(tester)@.first_unsafe_floor),
            ),
    {
        proof {
            tester.view_in_range();
            self.tries_fit(tester@.first_unsafe_floor);
            shrinking_floors_climb(0, self.first_size as nat, self.shrink_by as nat);
            safe_prefix_splits(self.floors(), tester@.first_unsafe_floor);
        }
        two_stage(ShrinkingSteps::new(self.first_size, self.shrink_by), tester)
    }
}

} // verus!
