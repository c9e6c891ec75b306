use turing_foam::ProgramStatus;
use turing_foam::TuringFoam;

fn all_programs(foam: &TuringFoam) -> Vec<Vec<u8>> {
    (0..foam.num_programs()).map(|i| foam.program(i)).collect()
}

#[test]
fn two_zero_programs_one_reaction() {
    let mut foam = TuringFoam::from_programs(vec![vec![0u8; 4]; 2], 1).unwrap();
    assert_eq!(foam.react_pair(0, 1, 0, 5), ProgramStatus::TimedOut);
    assert_eq!(all_programs(&foam), vec![vec![0u8; 4]; 2]);
    assert_eq!(foam.num_unique_tokens(), 4);
    let hist = foam.token_histogram();
    assert_eq!(hist.len(), 4);
    for row in &hist {
        assert_eq!(row.len(), 256);
        assert_eq!(row[0], 2);
        assert_eq!(row.iter().sum::<usize>(), 2);
    }
}

#[test]
fn reaction_writes_halves_back() {
    // Slot 0 increments the cell under cursor 0, which starts on itself.
    let programs = vec![vec![b'+', 0, 0, 0], vec![1, 2, 3, 4]];
    let mut foam = TuringFoam::from_programs(programs, 1).unwrap();
    assert_eq!(foam.react_pair(0, 1, 0, 1), ProgramStatus::TimedOut);
    assert_eq!(foam.program(0), vec![b',', 0, 0, 0]);
    assert_eq!(foam.program(1), vec![1, 2, 3, 4]);
}

#[test]
fn reaction_of_slot_with_itself() {
    // The tape is the program twice; its second half is what slot 0 keeps.
    let programs = vec![vec![b'+', 0, 0, 5]];
    let mut foam = TuringFoam::from_programs(programs, 1).unwrap();
    assert_eq!(foam.react_pair(0, 0, 0, 1), ProgramStatus::TimedOut);
    assert_eq!(foam.program(0), vec![b'+', 0, 0, 5]);
    // Writing the halves in the other order shows the first half's change.
    let programs = vec![vec![0, 0, 0, 5], vec![b'+', 0, 0, 0]];
    let mut foam = TuringFoam::from_programs(programs, 1).unwrap();
    assert_eq!(foam.react_pair(1, 0, 0, 1), ProgramStatus::TimedOut);
    assert_eq!(foam.program(1), vec![b',', 0, 0, 0]);
    assert_eq!(foam.program(0), vec![0, 0, 0, 5]);
}

#[test]
fn reaction_reports_unmatched_branch() {
    let programs = vec![vec![b']', 0, 0, 0], vec![0, 0, 0, 0]];
    let mut foam = TuringFoam::from_programs(programs.clone(), 1).unwrap();
    assert_eq!(foam.react_pair(0, 1, 0, 10), ProgramStatus::UnmatchedBranch);
    assert_eq!(all_programs(&foam), programs);
}

#[test]
fn reactions_keep_pool_shape() {
    let mut foam = TuringFoam::with_seed(5, 16, 7);
    for _ in 0..4 {
        let stats = foam.react_with_budget(50, 100);
        assert_eq!(stats.num_timed_out + stats.num_unmatched_branch, 50);
        assert_eq!(foam.num_programs(), 5);
        assert_eq!(foam.program_len(), 16);
        for p in all_programs(&foam) {
            assert_eq!(p.len(), 16);
        }
    }
}

#[test]
fn histogram_counts_add_up() {
    let mut foam = TuringFoam::with_seed(10, 8, 42);
    let stats = foam.react_with_budget(20, 1000);
    let hist = foam.token_histogram();
    let total: usize = hist.iter().map(|row| row.iter().sum::<usize>()).sum();
    assert_eq!(total, 80);
    let nonzero = hist.iter().map(|row| row.iter().filter(|&&c| c > 0).count()).sum::<usize>();
    assert_eq!(stats.num_unique_tokens, nonzero);
    assert_eq!(foam.num_unique_tokens(), nonzero);
    assert!(stats.num_unique_tokens <= 80);
    assert!(stats.num_unique_tokens >= 8);
}

#[test]
fn unique_tokens_bounded_by_byte_values() {
    let foam = TuringFoam::with_seed(1000, 2, 3);
    let unique = foam.num_unique_tokens();
    assert!(unique <= 2 * 256);
    let programs = (0..300u32).map(|i| vec![(i % 256) as u8, 0]).collect();
    let foam = TuringFoam::from_programs(programs, 0).unwrap();
    assert_eq!(foam.num_unique_tokens(), 256 + 1);
}

#[test]
fn same_seed_same_history() {
    let mut a = TuringFoam::with_seed(20, 64, 99);
    let mut b = TuringFoam::with_seed(20, 64, 99);
    assert_eq!(all_programs(&a), all_programs(&b));
    let sa = a.react(200);
    let sb = b.react(200);
    assert_eq!(sa, sb);
    assert_eq!(all_programs(&a), all_programs(&b));
}

#[test]
fn new_pool_has_reference_shape() {
    let mut foam = TuringFoam::new(3);
    assert_eq!(foam.num_programs(), 3);
    assert_eq!(foam.program_len(), 64);
    let stats = foam.react(10);
    assert_eq!(stats.num_timed_out + stats.num_unmatched_branch, 10);
    assert_eq!(foam.num_programs(), 3);
}

#[test]
fn single_slot_pool_reacts() {
    let mut foam = TuringFoam::with_seed(1, 4, 5);
    let stats = foam.react_with_budget(30, 50);
    assert_eq!(stats.num_timed_out + stats.num_unmatched_branch, 30);
    assert_eq!(foam.program(0).len(), 4);
}

#[test]
fn seeded_programs_are_not_all_zero() {
    let foam = TuringFoam::with_seed(4, 64, 11);
    assert!(all_programs(&foam).iter().any(|p| p.iter().any(|&c| c != 0)));
}

#[test]
fn empty_pool_has_no_tokens() {
    let foam = TuringFoam::with_seed(0, 8, 1);
    assert_eq!(foam.num_programs(), 0);
    assert_eq!(foam.num_unique_tokens(), 0);
}

#[test]
fn from_programs_rejects_bad_shapes() {
    assert!(TuringFoam::from_programs(Vec::new(), 0).is_none());
    assert!(TuringFoam::from_programs(vec![Vec::new(), Vec::new()], 0).is_none());
    assert!(TuringFoam::from_programs(vec![vec![1, 2], vec![3]], 0).is_none());
    let foam = TuringFoam::from_programs(vec![vec![1, 2], vec![3, 4]], 0).unwrap();
    assert_eq!(foam.num_programs(), 2);
    assert_eq!(foam.program_len(), 2);
    assert_eq!(foam.program(1), vec![3, 4]);
}
