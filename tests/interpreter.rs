use turing_foam::execute;
use turing_foam::ProgramStatus;

#[test]
fn zero_budget_times_out_and_leaves_tape() {
    let original: Vec<u8> = vec![b'+', b'[', b'-', b']', b'.', 7, 255, 0];
    for start in 0..original.len() {
        let mut tape = original.clone();
        assert_eq!(execute(&mut tape, start, 0), ProgramStatus::TimedOut);
        assert_eq!(tape, original);
    }
}

#[test]
fn no_op_tape_times_out_unchanged() {
    for k in [1usize, 5, 64, 1000] {
        let mut tape = vec![0u8; 32];
        assert_eq!(execute(&mut tape, 3, k), ProgramStatus::TimedOut);
        assert_eq!(tape, vec![0u8; 32]);
    }
    let original: Vec<u8> = (0u8..=255).filter(|c| !b"<>{}-+.,[]".contains(c)).collect();
    let mut tape = original.clone();
    assert_eq!(execute(&mut tape, 0, 10_000), ProgramStatus::TimedOut);
    assert_eq!(tape, original);
}

#[test]
fn open_bracket_without_partner_is_unmatched() {
    // '<' moves cursor 0 onto the zero byte at the end; '[' then finds no ']'.
    for budget in [2usize, 3, 10_000] {
        let original = vec![b'<', b'[', 0, 0, 0, 0];
        let mut tape = original.clone();
        assert_eq!(execute(&mut tape, 0, budget), ProgramStatus::UnmatchedBranch);
        assert_eq!(tape, original);
    }
}

#[test]
fn close_bracket_without_partner_is_unmatched_at_once() {
    // Cursor 0 starts on the ']' itself, a nonzero byte.
    for budget in [1usize, 2, 10_000] {
        let original = vec![b']', 0, 0, 0, 0, 0];
        let mut tape = original.clone();
        assert_eq!(execute(&mut tape, 0, budget), ProgramStatus::UnmatchedBranch);
        assert_eq!(tape, original);
    }
}

#[test]
fn forward_scan_does_not_wrap() {
    let original = vec![b']', 0, 0, 0, b'<', b'['];
    let mut tape = original.clone();
    assert_eq!(execute(&mut tape, 4, 100), ProgramStatus::UnmatchedBranch);
    assert_eq!(tape, original);
}

#[test]
fn backward_scan_after_increment_is_unmatched() {
    let mut tape = vec![b'<', b'+', b']', 0, 0, 0, 0, 0];
    assert_eq!(execute(&mut tape, 0, 100), ProgramStatus::UnmatchedBranch);
    assert_eq!(tape, vec![b'<', b'+', b']', 0, 0, 0, 0, 1]);
}

#[test]
fn same_inputs_same_result() {
    let original: Vec<u8> = (0..128u32).map(|i| (i * 37 % 256) as u8).collect();
    for start in [0usize, 17, 63] {
        let mut first = original.clone();
        let mut second = original.clone();
        let r1 = execute(&mut first, start, 10_000);
        let r2 = execute(&mut second, start, 10_000);
        assert_eq!(r1, r2);
        assert_eq!(first, second);
    }
}

#[test]
fn increment_changes_cell_under_cursor() {
    let mut tape = vec![b'+', 0, 0, 0];
    assert_eq!(execute(&mut tape, 0, 1), ProgramStatus::TimedOut);
    assert_eq!(tape, vec![b',', 0, 0, 0]);
}

#[test]
fn increment_wraps_at_255() {
    let mut tape = vec![0u8; 20];
    tape[0] = b'<';
    tape[1] = b'+';
    tape[19] = 255;
    assert_eq!(execute(&mut tape, 0, 2), ProgramStatus::TimedOut);
    assert_eq!(tape[19], 0);
}

#[test]
fn decrement_wraps_at_zero() {
    let mut tape = vec![0u8; 20];
    tape[0] = b'<';
    tape[1] = b'-';
    assert_eq!(execute(&mut tape, 0, 2), ProgramStatus::TimedOut);
    assert_eq!(tape[19], 255);
}

#[test]
fn right_angle_moves_cursor_back() {
    let mut tape = vec![0u8; 20];
    tape[0] = b'>';
    tape[1] = b'-';
    assert_eq!(execute(&mut tape, 0, 2), ProgramStatus::TimedOut);
    assert_eq!(tape[19], 255);
    assert_eq!(tape[1], b'-');
}

#[test]
fn copy_from_cursor0_to_cursor1() {
    let mut tape = vec![0u8; 20];
    tape[0] = b'.';
    assert_eq!(execute(&mut tape, 0, 1), ProgramStatus::TimedOut);
    assert_eq!(tape[16], b'.');
}

#[test]
fn copy_from_cursor1_to_cursor0() {
    let mut tape = vec![0u8; 20];
    tape[0] = b',';
    tape[16] = 7;
    assert_eq!(execute(&mut tape, 0, 1), ProgramStatus::TimedOut);
    assert_eq!(tape[0], 7);
}

#[test]
fn cursor1_moves_both_ways() {
    let mut tape = vec![0u8; 20];
    tape[0] = b'}';
    tape[1] = b'.';
    assert_eq!(execute(&mut tape, 0, 2), ProgramStatus::TimedOut);
    assert_eq!(tape[17], b'}');

    let mut tape = vec![0u8; 20];
    tape[0] = b'{';
    tape[1] = b'.';
    assert_eq!(execute(&mut tape, 0, 2), ProgramStatus::TimedOut);
    assert_eq!(tape[15], b'{');
}

#[test]
fn cursor1_start_wraps_on_short_tape() {
    let mut tape = vec![0u8; 10];
    tape[0] = b'.';
    assert_eq!(execute(&mut tape, 0, 1), ProgramStatus::TimedOut);
    assert_eq!(tape[6], b'.');
}

#[test]
fn open_bracket_jumps_past_partner() {
    let mut tape = vec![b'<', b'[', b'+', b']', 0, 0, 0, 0];
    assert_eq!(execute(&mut tape, 0, 3), ProgramStatus::TimedOut);
    assert_eq!(tape[7], 0);
}

#[test]
fn close_bracket_jumps_back_to_partner() {
    let mut tape = vec![b'<', b'+', b'[', b'+', b']', 0, 0, 0];
    assert_eq!(execute(&mut tape, 0, 8), ProgramStatus::TimedOut);
    assert_eq!(tape[7], 4);
}

#[test]
fn instruction_pointer_wraps_around() {
    // After the last byte the machine goes on from the first one.
    let mut tape = vec![b'<', 0, 0, b'+'];
    assert_eq!(execute(&mut tape, 1, 4), ProgramStatus::TimedOut);
    // '+' at 3 bumps the cell under cursor 0 (position 1), then '<' moves it.
    assert_eq!(tape, vec![b'<', 1, 0, b'+']);
}
