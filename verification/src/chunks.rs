//! The chunked strategy: a first stage in steps of one fixed size.

use crate::strategy::Strategy;
use crate::tester::{floors_above, Tester, FLOORS};
use crate::two_stage::{
    safe_prefix, safe_prefix_splits, two_stage, two_stage_broken, two_stage_guess,
    two_stage_tries, FirstStage,
};
use vstd::arithmetic::div_mod::{
    lemma_basic_div, lemma_div_minus_one, lemma_div_pos_is_pos, lemma_fundamental_div_mod,
    lemma_fundamental_div_mod_converse, lemma_mod_bound,
};
use vstd::prelude::*;

verus! {

/// The top floors of the chunks of `size` floors that begin at `start`,
/// `start + size` and so on, for as long as a chunk begins inside the building.
pub open spec fn chunk_ends(start: nat, size: nat) -> Seq<nat>
    decreases floors_above(start),
{
    if size == 0 || start >= FLOORS.end {
        Seq::empty()
    } else {
        seq![(start + size - 1) as nat] + chunk_ends(start + size, size)
    }
}

/// The chunks that begin at `start` and above, in closed form: the chunk at
/// position `i` ends on floor `start + (i + 1) * size - 1`, and the last chunk
/// is the one that holds the top floor of the building. So each chunk ends
/// above the one before.
pub proof fn chunk_ends_from(start: nat, size: nat)
    requires
        size > 0,
    ensures
        chunk_ends(start, size).len() == (if start < FLOORS.end {
            (FLOORS.end - 1 - start) / (size as int) + 1
        } else {
            0
        }),
        forall|i: int|
            0 <= i < chunk_ends(start, size).len() ==> #[trigger] chunk_ends(start, size)[i]
                == start + (i + 1) * size - 1,
        forall|i: int, j: int|
            0 <= i < j < chunk_ends(start, size).len() ==> chunk_ends(start, size)[i]
                < chunk_ends(start, size)[j],
    decreases floors_above(start),
{
    if start < FLOORS.end {
        let ends = chunk_ends(start, size);
        let rest = chunk_ends(start + size, size);
        let left = FLOORS.end - 1 - start;
        chunk_ends_from(start + size, size);
        if start + size < FLOORS.end {
            lemma_div_minus_one(left, size as int);
        } else {
            lemma_basic_div(left, size as int);
        }
        assert forall|i: int| 0 <= i < ends.len() implies #[trigger] ends[i] == start + (i + 1)
            * size - 1 by {
            if i > 0 {
                assert(ends[i] == rest[i - 1]);
                assert(rest[i - 1] == start + size + (i - 1 + 1) * size - 1);
                assert((i + 1) * size == (i - 1 + 1) * size + size) by (nonlinear_arith);
            } else {
                assert((i + 1) * size == size) by (nonlinear_arith)
                    requires
                        i == 0,
                ;
            }
        }
        assert forall|i: int, j: int| 0 <= i < j < ends.len() implies ends[i] < ends[j] by {
            assert((i + 1) * size < (j + 1) * size) by (nonlinear_arith)
                requires
                    i < j,
                    size > 0,
            ;
        }
    }
}

/// The number of chunks of `size` floors that begin inside the building.
pub open spec fn chunk_count(size: nat) -> nat {
    if size == 0 {
        0
    } else {
        ((FLOORS.end - 1) / (size as int) + 1) as nat
    }
}

/// The number of floors that the chunks of `size` floors cover between them.
/// The last chunk may reach above the building.
pub open spec fn chunk_reach(size: nat) -> nat {
    chunk_count(size) * size
}

/// The guess of the chunked strategy: the first unsafe floor itself if it lies
/// in the building or in the last chunk, and `FLOORS.end` if not.
pub open spec fn chunk_guess(size: nat, first_unsafe_floor: nat) -> nat {
    if first_unsafe_floor <= FLOORS.end || first_unsafe_floor < chunk_reach(size) {
        first_unsafe_floor
    } else {
        FLOORS.end as nat
    }
}

/// The number of eggs that the chunked strategy drops.
///
/// For a first unsafe floor in one of the chunks: one from the top of each
/// chunk up to that one, then one from each floor of that chunk up to the
/// first unsafe floor, the top floor left out. For a first unsafe floor above
/// all chunks: one from the top of each chunk.
pub open spec fn chunk_tries(size: nat, first_unsafe_floor: nat) -> nat {
    if first_unsafe_floor >= chunk_reach(size) {
        chunk_count(size)
    } else if first_unsafe_floor % size == size - 1 {
        first_unsafe_floor / size + size
    } else {
        first_unsafe_floor / size + first_unsafe_floor % size + 2
    }
}

/// The number of eggs that the chunked strategy breaks: none if the first
/// unsafe floor lies above all chunks, one if it is the top floor of a chunk,
/// and two if not.
pub open spec fn chunk_broken(size: nat, first_unsafe_floor: nat) -> nat {
    if first_unsafe_floor >= chunk_reach(size) {
        0
    } else if first_unsafe_floor % size == size - 1 {
        1
    } else {
        2
    }
}

/// The chunks between them cover the building, and none begins above it.
pub proof fn chunks_cover(size: nat)
    requires
        size > 0,
    ensures
        0 < chunk_count(size) <= FLOORS.end,
        FLOORS.end <= chunk_reach(size) < FLOORS.end + size,
{
    let top = FLOORS.end - 1;
    lemma_fundamental_div_mod(top, size as int);
    lemma_mod_bound(top, size as int);
    lemma_div_pos_is_pos(top, size as int);
    assert(top / (size as int) <= top) by (nonlinear_arith)
        requires
            top == size * (top / (size as int)) + top % (size as int),
            top % (size as int) >= 0,
            top / (size as int) >= 0,
            size > 0,
    ;
    assert(chunk_count(size) * size == size * (top / (size as int)) + size) by (nonlinear_arith)
        requires
            chunk_count(size) == top / (size as int) + 1,
    ;
}

/// A two-stage search over the tops of the chunks of `size` floors guesses,
/// drops and breaks what the closed forms say.
pub proof fn chunks_in_closed_form(size: nat, first_unsafe_floor: nat)
    requires
        size > 0,
    ensures
        two_stage_guess(chunk_ends(0, size), first_unsafe_floor) == chunk_guess(
            size,
            first_unsafe_floor,
        ),
        two_stage_tries(chunk_ends(0, size), first_unsafe_floor) == chunk_tries(
            size,
            first_unsafe_floor,
        ),
        two_stage_broken(chunk_ends(0, size), first_unsafe_floor) == chunk_broken(
            size,
            first_unsafe_floor,
        ),
{
    let ends = chunk_ends(0, size);
    let hidden = first_unsafe_floor as int;
    let safe = safe_prefix(ends, first_unsafe_floor) as int;
    let width = size as int;
    chunk_ends_from(0, size);
    chunks_cover(size);
    safe_prefix_splits(ends, first_unsafe_floor);
    assert(ends.len() == chunk_count(size));
    if safe < ends.len() {
        assert(ends[safe] == (safe + 1) * width - 1);
        assert((safe + 1) * width == safe * width + width) by (nonlinear_arith);
        if safe > 0 {
            assert(ends[safe - 1] == (safe - 1 + 1) * width - 1);
        } else {
            assert(safe * width == 0) by (nonlinear_arith)
                requires
                    safe == 0,
            ;
        }
        assert(safe * width <= hidden < safe * width + width);
        lemma_fundamental_div_mod_converse(hidden, width, safe, hidden - safe * width);
        assert((safe + 1) * width <= chunk_count(size) * width) by (nonlinear_arith)
            requires
                safe + 1 <= chunk_count(size),
                width > 0,
        ;
    } else {
        assert(ends[safe - 1] == (safe - 1 + 1) * width - 1);
    }
}

/// The chunked strategy never drops more eggs than there are chunks and floors
/// in a chunk, less one, and drops that many when the first unsafe floor is
/// the top floor of the last chunk.
pub proof fn chunk_tries_bound(size: nat, first_unsafe_floor: nat)
    requires
        size > 0,
    ensures
        chunk_tries(size, first_unsafe_floor) <= chunk_count(size) + size - 1,
        chunk_tries(size, (chunk_reach(size) - 1) as nat) == chunk_count(size) + size - 1,
{
    let width = size as int;
    let count = chunk_count(size) as int;
    let hidden = first_unsafe_floor as int;
    chunks_cover(size);
    lemma_mod_bound(hidden, width);
    if hidden < chunk_reach(size) {
        lemma_fundamental_div_mod(hidden, width);
        assert(hidden / width < count) by (nonlinear_arith)
            requires
                hidden == width * (hidden / width) + hidden % width,
                0 <= hidden % width,
                hidden < count * width,
                width > 0,
        ;
    }
    let last = count * width - 1;
    assert(last == (count - 1) * width + (width - 1)) by (nonlinear_arith)
        requires
            last == count * width - 1,
    ;
    lemma_fundamental_div_mod_converse(last, width, count - 1, width - 1);
}

/// Hands out the top floor of one chunk after another.
pub struct ChunkEnds {
    next_start: u32,
    size: u32,
}

impl ChunkEnds {
    /// The chunks of `size` floors from the ground floor up.
    pub fn new(size: u32) -> (ends: Self)
        requires
            size > 0,
        ensures
            ends.wf(),
            ends.floors() == chunk_ends(0, size as nat),
            ends.floors().len() <= FLOORS.end,
    {
        proof {
            chunk_ends_from(0, size as nat);
            chunks_cover(size as nat);
        }
        Self { next_start: 0, size }
    }
}

impl FirstStage for ChunkEnds {
    closed spec fn wf(&self) -> bool {
        &&& self.size > 0
        &&& 0 < self.next_start < FLOORS.end ==> self.size <= self.next_start
    }

    closed spec fn floors(&self) -> Seq<nat> {
        chunk_ends(self.next_start as nat, self.size as nat)
    }

    fn next_floor(&mut self) -> (next: Option<u32>) {
        if self.next_start >= FLOORS.end {
            return None;
        }
        let end = self.next_start + (self.size - 1);
        proof {
            let rest = chunk_ends((self.next_start + self.size) as nat, self.size as nat);
            assert((seq![end as nat] + rest).drop_first() =~= rest);
            assert(chunk_ends(FLOORS.end as nat, self.size as nat).len() == 0);
        }
        if self.size >= FLOORS.end - self.next_start {
            self.next_start = FLOORS.end;
        } else {
            self.next_start += self.size;
        }
        Some(end)
    }
}

/// Drops the first egg from the top of each chunk of `size` floors, then scans
/// the chunk in which it broke.
#[derive(Debug)]
pub struct Chunks {
    /// The number of floors in a chunk.
    pub size: u32,
}

impl Strategy for Chunks {
    open spec fn valid(&self) -> bool {
        self.size > 0
    }

    open spec fn tries(&self, first_unsafe_floor: nat) -> nat {
        chunk_tries(self.size as nat, first_unsafe_floor)
    }

    proof fn tries_fit(&self, first_unsafe_floor: nat) {
        chunk_tries_bound(self.size as nat, first_unsafe_floor);
        chunks_cover(self.size as nat);
        if self.size >= FLOORS.end {
            lemma_basic_div(FLOORS.end - 1, self.size as int);
        }
    }

    fn solve(&self, tester: &mut Tester) -> (guess: u32)
        ensures
            guess == chunk_guess(self.size as nat, old(tester)@.first_unsafe_floor),
            final(tester)@ == old(tester)@.after(
                chunk_tries(self.size as nat, old(tester)@.first_unsafe_floor),
                chunk_broken(self.size as nat, old(tester)@.first_unsafe_floor),
            ),
    {
        proof {
            tester.view_in_range();
            self.tries_fit(tester@.first_unsafe_floor);
            chunks_in_closed_form(self.size as nat, tester@.first_unsafe_floor);
        }
        two_stage(ChunkEnds::new(self.size), tester)
    }
}

} // verus!
