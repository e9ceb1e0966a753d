//! Worst-case analysis of two-egg search strategies.
//!
//! A building has [`FLOORS`]`.end` floors, numbered from zero. Somewhere in it is
//! the first floor from which a dropped egg breaks; it may also be that no
//! floor breaks an egg. A [`Tester`] hides that floor and hands out two eggs.
//! A [`Strategy`] finds the floor by dropping eggs, and [`find_worst_case`]
//! finds the hidden floor that costs a strategy the most drops.

pub mod chunks;
pub mod shrinking;
pub mod strategy;
pub mod tester;
pub mod two_stage;
pub mod worst_case;

pub use chunks::{ChunkEnds, Chunks};
pub use shrinking::{ShrinkingChunks, ShrinkingSteps};
pub use strategy::{scan, Linear, Strategy};
pub use tester::{Tester, TesterView, FLOORS};
pub use two_stage::{two_stage, FirstStage};
pub use worst_case::{find_worst_case, run_case, Case};
