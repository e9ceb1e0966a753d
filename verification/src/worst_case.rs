//! The drop count of a strategy at its worst.

use crate::chunks::{chunk_count, chunk_reach, chunk_tries, chunk_tries_bound, Chunks};
use crate::shrinking::{shrinking_tries_bound, steps_cover, ShrinkingChunks};
use crate::strategy::{Linear, Strategy};
use crate::tester::{Tester, FLOORS};
use vstd::arithmetic::div_mod::{
    lemma_fundamental_div_mod, lemma_fundamental_div_mod_converse, lemma_mod_bound,
};
use vstd::prelude::*;

verus! {

/// The outcome of one trial: the hidden floor and what it cost to find it.
#[derive(Debug, PartialEq, Eq)]
pub struct Case {
    /// The first unsafe floor of the trial.
    pub floor: u32,
    /// The number of eggs that the strategy dropped.
    pub num_tries: u32,
}

/// Whether `case` is the trial of `strategy` on the first unsafe floor `floor`.
pub open spec fn is_case<S: Strategy>(strategy: &S, floor: nat, case: Case) -> bool {
    case.floor == floor && case.num_tries == strategy.tries(floor)
}

/// Whether `case` is the worst trial of `strategy`: a trial on a first unsafe
/// floor up to `FLOORS.end` that no other such trial exceeds in drops, and the
/// lowest such floor among those that cost as much.
pub open spec fn is_worst_case<S: Strategy>(strategy: &S, case: Case) -> bool {
    &&& case.floor <= FLOORS.end
    &&& is_case(strategy, case.floor as nat, case)
    &&& forall|floor: nat| floor <= FLOORS.end ==> strategy.tries(floor) <= case.num_tries
    &&& forall|floor: nat| floor < case.floor ==> strategy.tries(floor) < case.num_tries
}

/// A strategy has one worst case only.
pub proof fn worst_case_is_unique<S: Strategy>(strategy: &S, one: Case, other: Case)
    requires
        is_worst_case(strategy, one),
        is_worst_case(strategy, other),
    ensures
        one == other,
{
}

/// The linear strategy is at its worst when the first unsafe floor is the top
/// floor of the building: it then drops an egg from every floor. It drops as
/// many when no floor is unsafe.
pub proof fn linear_worst_case()
    ensures
        is_worst_case(&Linear, Case { floor: (FLOORS.end - 1) as u32, num_tries: FLOORS.end }),
        Linear.tries(FLOORS.end as nat) == FLOORS.end,
{
}

/// Chunks that divide the building evenly, of two floors or more, are at their
/// worst when the first unsafe floor is the one below the top floor: the first
/// egg then breaks from the top of the last chunk, and the second is dropped
/// from every other floor of that chunk. They drop as many eggs when the first
/// unsafe floor is the top floor itself.
pub proof fn chunks_worst_case(size: u32)
    requires
        size >= 2,
        FLOORS.end % size == 0,
    ensures
        is_worst_case(
            &Chunks { size },
            Case {
                floor: (FLOORS.end - 2) as u32,
                num_tries: (FLOORS.end / size + size - 1) as u32,
            },
        ),
        (Chunks { size }).tries((FLOORS.end - 1) as nat) == FLOORS.end / size + size - 1,
{
    let width = size as int;
    let count = FLOORS.end as int / width;
    let most = count + width - 1;
    lemma_fundamental_div_mod(FLOORS.end as int, width);
    assert(FLOORS.end - 1 == (count - 1) * width + (width - 1)) by (nonlinear_arith)
        requires
            FLOORS.end == width * count,
    ;
    lemma_fundamental_div_mod_converse(FLOORS.end - 1, width, count - 1, width - 1);
    assert(chunk_count(size as nat) == count);
    assert(chunk_reach(size as nat) == FLOORS.end) by (nonlinear_arith)
        requires
            FLOORS.end == width * count,
            chunk_reach(size as nat) == count * width,
    ;
    assert(FLOORS.end - 2 == (count - 1) * width + (width - 2)) by (nonlinear_arith)
        requires
            FLOORS.end == width * count,
    ;
    lemma_fundamental_div_mod_converse(FLOORS.end - 2, width, count - 1, width - 2);
    assert forall|floor: nat| floor <= FLOORS.end implies chunk_tries(size as nat, floor)
        <= most by {
        chunk_tries_bound(size as nat, floor);
    }
    assert forall|floor: nat| floor < FLOORS.end - 2 implies chunk_tries(size as nat, floor)
        < most by {
        let chunk = floor as int / width;
        let within = floor as int % width;
        lemma_fundamental_div_mod(floor as int, width);
        lemma_mod_bound(floor as int, width);
        assert(chunk <= count - 1 && (chunk == count - 1 ==> within < width - 2))
            by (nonlinear_arith)
            requires
                floor == width * chunk + within,
                0 <= within < width,
                floor < width * count - 2,
        ;
    }
}

/// Steps that shrink and cover the building, the first of them inside it, are
/// at their worst when the first unsafe floor is the one below the end of the
/// first step: the first egg then breaks at once, and the second is dropped
/// from every floor below. They drop as many eggs when the first unsafe floor
/// is the end of the first step itself.
pub proof fn shrinking_worst_case(first_size: u32, shrink_by: u32)
    requires
        0 < first_size < FLOORS.end,
        shrink_by > 0,
        steps_cover(0, first_size as nat, shrink_by as nat),
    ensures
        is_worst_case(
            &ShrinkingChunks { first_size, shrink_by },
            Case { floor: (first_size - 1) as u32, num_tries: (first_size + 1) as u32 },
        ),
        (ShrinkingChunks { first_size, shrink_by }).tries(first_size as nat) == first_size + 1,
{
    let strategy = ShrinkingChunks { first_size, shrink_by };
    assert(strategy.floors().first() == first_size);
    assert forall|floor: nat| floor <= FLOORS.end implies strategy.tries(floor) <= first_size
        + 1 by {
        shrinking_tries_bound(first_size as nat, shrink_by as nat, floor);
    }
}

/// Runs `strategy` against a fresh tester that hides `floor`, and records what
/// the search cost.
///
/// The guess of the strategy is not compared with `floor` when the program
/// runs: inside the building the contract of [`Strategy::solve`] makes the two
/// equal, and the assertion below is proved from it.
pub fn run_case<S: Strategy>(strategy: &S, floor: u32) -> (case: Case)
    requires
        strategy.valid(),
    ensures
        is_case(strategy, floor as nat, case),
{
    let mut tester = Tester::new(floor);
    let guess = strategy.solve(&mut tester);
    assert(floor <= FLOORS.end ==> guess == floor);
    Case { floor, num_tries: tester.num_tries() }
}

/// Tries `strategy` on every first unsafe floor from the ground floor to
/// `FLOORS.end`, the last of which stands for a building in which no floor
/// breaks an egg, and returns the trial with the most drops. Of several
/// trials with as many drops it returns the one on the lowest floor.
pub fn find_worst_case<S: Strategy>(strategy: &S) -> (worst: Case)
    requires
        strategy.valid(),
    ensures
        is_worst_case(strategy, worst),
{
    let mut worst = run_case(strategy, FLOORS.start);
    let mut floor: u32 = FLOORS.start;
    while floor < FLOORS.end
        invariant
            strategy.valid(),
            floor <= FLOORS.end,
            worst.floor <= floor,
            is_case(strategy, worst.floor as nat, worst),
            forall|below: nat| below <= floor ==> strategy.tries(below) <= worst.num_tries,
            forall|below: nat| below < worst.floor ==> strategy.tries(below) < worst.num_tries,
        decreases FLOORS.end - floor,
    {
        floor += 1;
        let case = run_case(strategy, floor);
        if case.num_tries > worst.num_tries {
            worst = case;
        }
    }
    worst
}

} // verus!
