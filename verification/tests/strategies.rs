use egg_drop::{
    two_stage, ChunkEnds, Chunks, FirstStage, Linear, ShrinkingChunks, ShrinkingSteps, Strategy,
    Tester,
};

fn handed_out(mut stage: impl FirstStage) -> Vec<u32> {
    let mut floors = Vec::new();
    while let Some(floor) = stage.next_floor() {
        floors.push(floor);
    }
    assert_eq!(stage.next_floor(), None);
    floors
}

fn solve(strategy: &impl Strategy, first_unsafe_floor: u32) -> (u32, u32, u32) {
    let mut tester = Tester::new(first_unsafe_floor);
    let guess = strategy.solve(&mut tester);
    (guess, tester.num_tries(), tester.eggs_left())
}

fn guesses_every_floor(strategy: &impl Strategy) {
    for floor in 0..=100 {
        let (guess, _, _) = solve(strategy, floor);
        assert_eq!(guess, floor);
    }
}

#[test]
fn linear_guesses_every_floor() {
    guesses_every_floor(&Linear);
}

#[test]
fn linear_drops_once_per_floor_up_to_the_break() {
    assert_eq!(solve(&Linear, 0), (0, 1, 1));
    assert_eq!(solve(&Linear, 42), (42, 43, 1));
    assert_eq!(solve(&Linear, 99), (99, 100, 1));
}

#[test]
fn linear_keeps_both_eggs_when_nothing_breaks() {
    assert_eq!(solve(&Linear, 100), (100, 100, 2));
}

#[test]
fn linear_answers_the_end_of_the_building_for_floors_beyond_it() {
    assert_eq!(solve(&Linear, 101), (100, 100, 2));
    assert_eq!(solve(&Linear, u32::MAX), (100, 100, 2));
}

#[test]
fn chunk_ends_of_ten() {
    assert_eq!(
        handed_out(ChunkEnds::new(10)),
        vec![9, 19, 29, 39, 49, 59, 69, 79, 89, 99]
    );
}

#[test]
fn last_chunk_may_end_above_the_building() {
    assert_eq!(
        handed_out(ChunkEnds::new(7)),
        vec![6, 13, 20, 27, 34, 41, 48, 55, 62, 69, 76, 83, 90, 97, 104]
    );
    assert_eq!(handed_out(ChunkEnds::new(150)), vec![149]);
    assert_eq!(handed_out(ChunkEnds::new(100)), vec![99]);
    assert_eq!(handed_out(ChunkEnds::new(u32::MAX)), vec![u32::MAX - 1]);
}

#[test]
fn chunks_of_one_floor_end_on_every_floor() {
    let floors = handed_out(ChunkEnds::new(1));
    assert_eq!(floors, (0..100).collect::<Vec<u32>>());
}

#[test]
fn chunks_guess_every_floor() {
    for size in [1, 2, 3, 7, 10, 33, 50, 99, 100, 101, 150, u32::MAX] {
        guesses_every_floor(&Chunks { size });
    }
}

#[test]
fn chunks_of_ten_count_both_stages() {
    let chunks = Chunks { size: 10 };
    assert_eq!(solve(&chunks, 0), (0, 2, 0));
    assert_eq!(solve(&chunks, 9), (9, 10, 1));
    assert_eq!(solve(&chunks, 10), (10, 3, 0));
    assert_eq!(solve(&chunks, 42), (42, 8, 0));
    assert_eq!(solve(&chunks, 98), (98, 19, 0));
    assert_eq!(solve(&chunks, 99), (99, 19, 1));
    assert_eq!(solve(&chunks, 100), (100, 10, 2));
}

#[test]
fn chunks_find_a_floor_beyond_the_building_only_below_their_last_end() {
    let chunks = Chunks { size: 7 };
    assert_eq!(solve(&chunks, 103), (103, 21, 0));
    assert_eq!(solve(&chunks, 104), (104, 21, 1));
    assert_eq!(solve(&chunks, 105), (100, 15, 2));
}

#[test]
fn shrinking_steps_from_fourteen() {
    assert_eq!(
        handed_out(ShrinkingSteps::new(14, 1)),
        vec![14, 27, 39, 50, 60, 69, 77, 84, 90, 95, 99]
    );
}

#[test]
fn steps_that_do_not_shrink_go_on_to_the_top() {
    assert_eq!(
        handed_out(ShrinkingSteps::new(10, 0)),
        vec![10, 20, 30, 40, 50, 60, 70, 80, 90]
    );
}

#[test]
fn step_shorter_than_the_shrinkage_is_the_last() {
    assert_eq!(handed_out(ShrinkingSteps::new(14, 3)), vec![14, 25, 33, 38, 40]);
    assert_eq!(handed_out(ShrinkingSteps::new(50, 60)), vec![50]);
}

#[test]
fn steps_stop_when_they_shrink_to_nothing() {
    assert_eq!(handed_out(ShrinkingSteps::new(4, 2)), vec![4, 6]);
}

#[test]
fn steps_never_leave_the_building() {
    assert_eq!(handed_out(ShrinkingSteps::new(0, 1)), Vec::<u32>::new());
    assert_eq!(handed_out(ShrinkingSteps::new(100, 1)), Vec::<u32>::new());
    assert_eq!(handed_out(ShrinkingSteps::new(u32::MAX, 0)), Vec::<u32>::new());
    assert_eq!(handed_out(ShrinkingSteps::new(99, 98)), vec![99]);
    assert_eq!(handed_out(ShrinkingSteps::new(60, 20)), vec![60]);
}

#[test]
fn shrinking_chunks_guess_every_floor() {
    for (first_size, shrink_by) in
        [(14, 1), (14, 3), (10, 0), (0, 1), (1, 0), (50, 7), (99, 98), (100, 1), (u32::MAX, 5)]
    {
        guesses_every_floor(&ShrinkingChunks { first_size, shrink_by });
    }
}

#[test]
fn shrinking_chunks_count_both_stages() {
    let strategy = ShrinkingChunks { first_size: 14, shrink_by: 1 };
    assert_eq!(solve(&strategy, 0), (0, 2, 0));
    assert_eq!(solve(&strategy, 13), (13, 15, 0));
    assert_eq!(solve(&strategy, 14), (14, 15, 1));
    assert_eq!(solve(&strategy, 15), (15, 3, 0));
    assert_eq!(solve(&strategy, 27), (27, 14, 1));
    assert_eq!(solve(&strategy, 99), (99, 14, 1));
    assert_eq!(solve(&strategy, 100), (100, 11, 2));
}

#[test]
fn shrinking_chunks_answer_the_end_of_the_building_for_floors_beyond_it() {
    let strategy = ShrinkingChunks { first_size: 14, shrink_by: 1 };
    assert_eq!(solve(&strategy, 101), (100, 11, 2));
    assert_eq!(solve(&strategy, u32::MAX), (100, 11, 2));
}

#[test]
fn two_stage_scans_between_the_last_safe_floor_and_the_break() {
    let mut tester = Tester::new(42);
    assert_eq!(two_stage(ChunkEnds::new(10), &mut tester), 42);
    assert_eq!(tester.num_tries(), 5 + 3);
    assert_eq!(tester.eggs_left(), 0);
}

#[test]
fn two_stage_without_a_break_scans_to_the_top() {
    let mut tester = Tester::new(97);
    assert_eq!(two_stage(ShrinkingSteps::new(60, 20), &mut tester), 97);
    assert_eq!(tester.num_tries(), 1 + 37);
    assert_eq!(tester.eggs_left(), 1);
}

#[test]
fn two_stage_with_no_first_stage_is_a_scan_of_the_building() {
    let mut tester = Tester::new(30);
    assert_eq!(two_stage(ShrinkingSteps::new(0, 0), &mut tester), 30);
    assert_eq!(tester.num_tries(), 31);
    assert_eq!(tester.eggs_left(), 1);
}

#[test]
fn tries_add_up_when_one_tester_serves_several_searches() {
    let mut tester = Tester::new(100);
    assert_eq!(Linear.solve(&mut tester), 100);
    assert_eq!(tester.num_tries(), 100);
    assert_eq!(Chunks { size: 10 }.solve(&mut tester), 100);
    assert_eq!(tester.num_tries(), 110);
    let strategy = ShrinkingChunks { first_size: 14, shrink_by: 1 };
    assert_eq!(strategy.solve(&mut tester), 100);
    assert_eq!(tester.num_tries(), 121);
    assert_eq!(tester.eggs_left(), 2);
}
