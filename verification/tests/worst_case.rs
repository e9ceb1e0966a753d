use egg_drop::{
    find_worst_case, run_case, Case, Chunks, Linear, ShrinkingChunks, Strategy, Tester,
};

fn most_tries(strategy: &impl Strategy) -> u32 {
    (0..=100).map(|floor| run_case(strategy, floor).num_tries).max().unwrap()
}

// Each of the three strategies costs the most drops on two neighbouring floors:
// the worst case is the lower of the two, and the upper one costs as much.
#[test]
fn maintain_same() {
    assert_eq!(
        find_worst_case(&Linear),
        Case {
            floor: 99,
            num_tries: 100,
        },
    );
    assert_eq!(
        run_case(&Linear, 100),
        Case {
            floor: 100,
            num_tries: 100,
        },
    );
    assert_eq!(
        find_worst_case(&Chunks { size: 10 }),
        Case {
            floor: 98,
            num_tries: 19,
        },
    );
    assert_eq!(
        run_case(&Chunks { size: 10 }, 99),
        Case {
            floor: 99,
            num_tries: 19,
        },
    );
    assert_eq!(
        find_worst_case(&ShrinkingChunks {
            first_size: 14,
            shrink_by: 1
        }),
        Case {
            floor: 13,
            num_tries: 15,
        },
    );
    assert_eq!(
        run_case(
            &ShrinkingChunks {
                first_size: 14,
                shrink_by: 1
            },
            14
        ),
        Case {
            floor: 14,
            num_tries: 15,
        },
    );
}

#[test]
fn run_case_records_the_floor_and_the_tries() {
    assert_eq!(run_case(&Linear, 0), Case { floor: 0, num_tries: 1 });
    assert_eq!(run_case(&Chunks { size: 10 }, 42), Case { floor: 42, num_tries: 8 });
    assert_eq!(
        run_case(&ShrinkingChunks { first_size: 14, shrink_by: 1 }, 100),
        Case { floor: 100, num_tries: 11 }
    );
}

#[test]
fn worst_case_of_linear_costs_a_drop_per_floor() {
    assert_eq!(most_tries(&Linear), 100);
    assert_eq!(run_case(&Linear, 100).num_tries, 100);
    assert_eq!(find_worst_case(&Linear).num_tries, 100);
}

#[test]
fn worst_case_of_chunks_of_ten_costs_nineteen_drops() {
    let chunks = Chunks { size: 10 };
    assert_eq!(most_tries(&chunks), 19);
    assert_eq!(run_case(&chunks, 99).num_tries, 19);
    assert_eq!(find_worst_case(&chunks).num_tries, 19);
}

#[test]
fn worst_case_of_shrinking_chunks_from_fourteen_costs_fifteen_drops() {
    let strategy = ShrinkingChunks { first_size: 14, shrink_by: 1 };
    assert_eq!(most_tries(&strategy), 15);
    assert_eq!(run_case(&strategy, 14).num_tries, 15);
    assert_eq!(find_worst_case(&strategy).num_tries, 15);
}

#[test]
fn worst_case_is_the_lowest_floor_with_the_most_tries() {
    for size in [1, 7, 10, 100, 150] {
        let chunks = Chunks { size };
        let worst = find_worst_case(&chunks);
        assert_eq!(worst.num_tries, most_tries(&chunks));
        assert_eq!(run_case(&chunks, worst.floor), worst);
        for floor in 0..worst.floor {
            assert!(run_case(&chunks, floor).num_tries < worst.num_tries);
        }
    }
}

#[test]
fn worst_cases_of_other_sizes() {
    assert_eq!(find_worst_case(&Chunks { size: 7 }), Case { floor: 96, num_tries: 20 });
    assert_eq!(find_worst_case(&Chunks { size: 1 }), Case { floor: 99, num_tries: 100 });
    assert_eq!(find_worst_case(&Chunks { size: 150 }), Case { floor: 100, num_tries: 102 });
    assert_eq!(
        find_worst_case(&ShrinkingChunks { first_size: 10, shrink_by: 0 }),
        Case { floor: 89, num_tries: 18 }
    );
    assert_eq!(
        find_worst_case(&ShrinkingChunks { first_size: 14, shrink_by: 3 }),
        Case { floor: 99, num_tries: 64 }
    );
    assert_eq!(
        find_worst_case(&ShrinkingChunks { first_size: 0, shrink_by: 1 }),
        Case { floor: 99, num_tries: 100 }
    );
}

#[test]
fn worst_case_is_the_same_every_time() {
    assert_eq!(find_worst_case(&Linear), find_worst_case(&Linear));
    assert_eq!(find_worst_case(&Chunks { size: 10 }), find_worst_case(&Chunks { size: 10 }));
    let strategy = ShrinkingChunks { first_size: 14, shrink_by: 1 };
    assert_eq!(find_worst_case(&strategy), find_worst_case(&strategy));
}

#[test]
fn chunks_never_drop_more_than_there_are_chunks_and_floors_in_a_chunk() {
    for size in [1, 3, 7, 10, 33, 99, 100, 101, 150] {
        let chunks = (100 - 1) / size + 1;
        assert!(most_tries(&Chunks { size }) <= chunks + size - 1);
        let top_of_last_chunk = chunks * size - 1;
        let mut tester = Tester::new(top_of_last_chunk);
        assert_eq!(Chunks { size }.solve(&mut tester), top_of_last_chunk);
        assert_eq!(tester.num_tries(), chunks + size - 1);
    }
}

#[test]
fn chunks_that_divide_the_building_are_worst_below_the_top_floor() {
    for size in [2, 4, 5, 10, 20, 25, 50, 100] {
        let most = 100 / size + size - 1;
        assert_eq!(find_worst_case(&Chunks { size }), Case { floor: 98, num_tries: most });
        assert_eq!(run_case(&Chunks { size }, 99).num_tries, most);
    }
}

#[test]
fn covering_steps_are_worst_below_the_end_of_the_first_step() {
    for (first_size, shrink_by) in [(14, 1), (15, 1), (20, 2), (50, 7), (99, 1), (99, 98)] {
        let strategy = ShrinkingChunks { first_size, shrink_by };
        assert_eq!(
            find_worst_case(&strategy),
            Case { floor: first_size - 1, num_tries: first_size + 1 }
        );
        assert_eq!(run_case(&strategy, first_size).num_tries, first_size + 1);
    }
}

#[test]
fn steps_that_do_not_cover_the_building_can_cost_more() {
    assert_eq!(
        find_worst_case(&ShrinkingChunks { first_size: 14, shrink_by: 13 }),
        Case { floor: 99, num_tries: 86 }
    );
    assert_eq!(
        find_worst_case(&ShrinkingChunks { first_size: 13, shrink_by: 1 }),
        Case { floor: 99, num_tries: 21 }
    );
}
