//! Concrete checks of the machine's arithmetic and input policies: cell and
//! pointer round trips, run-length folding, comment skipping, the
//! end-of-input rule, and the step budget.

const FUEL: u64 = u64::MAX;

fn interp(program: &[u8], input: &[u8]) -> Vec<u8> {
    bfjit::interpreter::run(program, input, FUEL).unwrap().unwrap()
}

#[test]
fn cell_round_trip_modulo_256() {
    let mut program = vec![b'+'; 256];
    program.push(b'.');
    assert_eq!(interp(&program, b"").as_slice(), &[0u8]);

    let mut program = vec![b'+'; 255];
    program.push(b'.');
    assert_eq!(interp(&program, b"").as_slice(), &[255u8]);
}

#[test]
fn pointer_round_trip_modulo_tape_length() {
    let mut program = vec![b'>'; 65536];
    program.push(b'+');
    program.push(b'<');
    program.push(b'.');
    // moving forward by the tape length lands on the starting cell, so the
    // final move backward reads the last cell, still zero
    assert_eq!(interp(&program, b"").as_slice(), &[0u8]);

    let mut program = vec![b'+'; 3];
    program.extend_from_slice(&vec![b'>'; 65536]);
    program.push(b'.');
    // the increments and the output both touch the starting cell
    assert_eq!(interp(&program, b"").as_slice(), &[3u8]);
}

#[test]
fn pointer_wraps_backward() {
    // one step back from the start is the last cell of the tape
    assert_eq!(interp(b"+<.", b"").as_slice(), &[0u8]);
    // moving forward from the last cell wraps to the first
    assert_eq!(interp(b"<+>+.", b"").as_slice(), &[1u8]);
}

#[test]
fn folded_runs_match_singles() {
    for n in [1usize, 5, 255, 256, 300] {
        let mut program = vec![b'+'; n];
        program.push(b'.');
        assert_eq!(interp(&program, b"").as_slice(), &[(n % 256) as u8]);
    }
}

#[test]
fn comments_are_skipped() {
    assert_eq!(interp(b"this adds one + and prints it .", b"").as_slice(), &[1u8]);
}

#[test]
fn exhausted_input_reads_zero() {
    assert_eq!(interp(b",.", b"").as_slice(), &[0u8]);
    assert_eq!(interp(b",.,.", b"A").as_slice(), &[b'A', 0u8]);
}

#[test]
fn empty_program_produces_no_output() {
    assert_eq!(interp(b"", b"").len(), 0);
}

#[test]
fn step_budget_reports_unfinished_run() {
    let r = bfjit::interpreter::run(b"+[]", b"", 10).unwrap();
    assert!(r.is_none());
    // the same program under the other engines' step budgets
    let r = bfjit::jit::machine::run(b"+[]", b"", 10).unwrap();
    assert!(r.is_none());
    // a budget just large enough lets a finite program finish
    let r = bfjit::interpreter::run(b"+.", b"", 3).unwrap();
    assert_eq!(r.unwrap().as_slice(), &[1u8]);
}
