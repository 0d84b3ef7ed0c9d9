use bf::{is_halted, parse_src, process, run, step, wants_input, Error, Op, Read, Tape};

const HELLO: &str = "++++++++[>++++[>++>+++>+++>+<<<<-]>+>+>->>+[<]<-]>>.>---.+++++++..+++.\
                     >>.<-.<.+++.------.--------.>>+.>++.";

/// Runs `src` to the end with no input and returns the tape it leaves.
fn final_tape(src: &str) -> (Tape, Vec<u8>) {
    let ops = parse_src(src).unwrap();
    let mut tape = Tape::new();
    let mut output = Vec::new();
    while !is_halted(&ops, &tape) {
        if let Some(b) = step(&ops, &mut tape, Read::Exhausted).unwrap() {
            output.push(b);
        }
    }
    (tape, output)
}

#[test]
fn eight_increments_then_output() {
    assert_eq!(run("++++++++.", &[], 100), Ok(Some(vec![8])));
}

#[test]
fn loop_moves_a_count_to_the_next_cell() {
    assert_eq!(run("+++[>+<-]>.", &[], 1000), Ok(Some(vec![3])));
    assert_eq!(run("+++[>+<-].", &[], 1000), Ok(Some(vec![0])));
    let (tape, output) = final_tape("+++[>+<-]");
    assert_eq!(tape.cells, vec![0, 3]);
    assert_eq!(tape.ptr, 0);
    assert_eq!(output, vec![]);
}

#[test]
fn leftward_move_at_the_first_cell_underflows() {
    assert_eq!(run("<", &[], 10), Err(Error::PointerUnderflow));
}

#[test]
fn unmatched_open_fails_before_any_execution() {
    assert_eq!(run("+[+", &[], 10), Err(Error::UnmatchedOpen));
    assert_eq!(run(".<[", &[], 10), Err(Error::UnmatchedOpen));
    assert_eq!(run("+[+", &[], 0), Err(Error::UnmatchedOpen));
}

#[test]
fn unmatched_close_fails_before_any_execution() {
    assert_eq!(run("<]", &[], 10), Err(Error::UnmatchedClose));
}

#[test]
fn moves_then_output_leave_one_cell_per_move_and_one() {
    for n in [0usize, 1, 2, 7, 300] {
        let src = format!("{}.", ">".repeat(n));
        let (tape, output) = final_tape(&src);
        assert_eq!(tape.cells, vec![0; n + 1]);
        assert_eq!(tape.ptr, n);
        assert_eq!(output, vec![0]);
        assert_eq!(run(&src, &[], n as u64 + 1), Ok(Some(vec![0])));
        assert_eq!(run(&src, &[], n as u64), Ok(None));
    }
}

#[test]
fn empty_program_halts_at_once_with_no_output() {
    assert_eq!(run("", &[], 0), Ok(Some(vec![])));
    assert_eq!(run("only a comment", &[1, 2], 0), Ok(Some(vec![])));
}

#[test]
fn limit_counts_executed_instructions() {
    assert_eq!(run("++++++++.", &[], 9), Ok(Some(vec![8])));
    assert_eq!(run("++++++++.", &[], 8), Ok(None));
    assert_eq!(run("++++++++.", &[], 0), Ok(None));
}

#[test]
fn larger_limit_gives_the_same_result() {
    let enough = run(HELLO, &[], 2_000);
    assert_eq!(enough, Ok(Some(b"Hello World!\n".to_vec())));
    assert_eq!(run(HELLO, &[], 2_000_000), enough);
    assert_eq!(run(HELLO, &[], u64::MAX), enough);
    assert_eq!(run("+<", &[], 2), Err(Error::PointerUnderflow));
    assert_eq!(run("+<", &[], u64::MAX), Err(Error::PointerUnderflow));
}

#[test]
fn endless_loop_is_cut_off_at_the_limit() {
    assert_eq!(run("+[]", &[], 10_000), Ok(None));
    assert_eq!(run(".+[.]", &[], 10_000), Ok(None));
}

#[test]
fn error_is_found_only_when_its_step_is_reached() {
    assert_eq!(run("+++<", &[], 3), Ok(None));
    assert_eq!(run("+++<", &[], 4), Err(Error::PointerUnderflow));
}

#[test]
fn failure_discards_the_output_written_so_far() {
    assert_eq!(run("+.+.<", &[], 100), Err(Error::PointerUnderflow));
}

#[test]
fn loop_over_a_zero_cell_is_skipped() {
    assert_eq!(run("[.]", &[], 100), Ok(Some(vec![])));
    assert_eq!(run("[+.<<<]+.", &[], 100), Ok(Some(vec![1])));
    assert_eq!(run("[.]", &[], 1), Ok(Some(vec![])));
}

#[test]
fn loop_runs_until_its_cell_is_zero() {
    assert_eq!(run("+++[.-]", &[], 100), Ok(Some(vec![3, 2, 1])));
    assert_eq!(run("-[.+]", &[], 100), Ok(Some(vec![255])));
}

#[test]
fn nested_loops_multiply() {
    assert_eq!(run("++[>+++[>+<-]<-]>>.", &[], 1000), Ok(Some(vec![6])));
}

#[test]
fn hello_world() {
    assert_eq!(run(HELLO, &[], 100_000), Ok(Some(b"Hello World!\n".to_vec())));
}

#[test]
fn input_bytes_are_consumed_in_order() {
    assert_eq!(run(",.,.,.", &[10, 20, 30], 100), Ok(Some(vec![10, 20, 30])));
    assert_eq!(run(",>,<.>.", b"ab", 100), Ok(Some(b"ab".to_vec())));
}

#[test]
fn input_left_over_is_ignored() {
    assert_eq!(run(",.", &[1, 2, 3], 100), Ok(Some(vec![1])));
    assert_eq!(run("+.", &[9], 100), Ok(Some(vec![1])));
}

#[test]
fn exhausted_input_leaves_the_cell_as_it_is() {
    assert_eq!(run(",.", &[], 100), Ok(Some(vec![0])));
    assert_eq!(run("+++,.", &[], 100), Ok(Some(vec![3])));
    assert_eq!(run(",.,.", &[7], 100), Ok(Some(vec![7, 7])));
}

#[test]
fn input_of_zero_byte_is_stored() {
    assert_eq!(run("+++,.", &[0], 100), Ok(Some(vec![0])));
}

#[test]
fn echo_until_a_zero_byte() {
    assert_eq!(run(",[.,]", &[104, 105, 0, 33], 100), Ok(Some(vec![104, 105])));
}

#[test]
fn process_executes_given_instructions() {
    let ops = vec![Op::IncCell, Op::IncCell, Op::Output, Op::MovePtrRight, Op::Output];
    assert_eq!(process(ops, &[], 100), Ok(Some(vec![2, 0])));
}

#[test]
fn process_agrees_with_run_on_parsed_source() {
    let src = "++[>+++[>+<-]<-]>>.,.";
    let ops = parse_src(src).unwrap();
    assert_eq!(process(ops, &[5], 1000), run(src, &[5], 1000));
}

#[test]
fn jump_out_of_the_program_halts() {
    assert_eq!(process(vec![Op::LoopOpen(7), Op::Output], &[], 100), Ok(Some(vec![])));
    assert_eq!(
        process(vec![Op::IncCell, Op::LoopClose(usize::MAX), Op::Output], &[], 100),
        Ok(Some(vec![]))
    );
    assert_eq!(
        process(vec![Op::LoopOpen(usize::MAX), Op::Output], &[], 100),
        Ok(Some(vec![]))
    );
}

#[test]
fn close_jumping_to_itself_never_halts() {
    assert_eq!(process(vec![Op::LoopClose(0)], &[], 1000), Ok(None));
}

#[test]
fn step_executes_one_instruction() {
    let ops = parse_src("+>.").unwrap();
    let mut tape = Tape::new();
    assert_eq!(step(&ops, &mut tape, Read::Exhausted), Ok(None));
    assert_eq!(tape, Tape { cells: vec![1], ptr: 0, pc: 1 });
    assert_eq!(step(&ops, &mut tape, Read::Exhausted), Ok(None));
    assert_eq!(tape, Tape { cells: vec![1, 0], ptr: 1, pc: 2 });
    assert_eq!(step(&ops, &mut tape, Read::Exhausted), Ok(Some(0)));
    assert_eq!(tape, Tape { cells: vec![1, 0], ptr: 1, pc: 3 });
    assert!(is_halted(&ops, &tape));
}

#[test]
fn step_on_a_halted_machine_does_nothing() {
    let ops = parse_src("+").unwrap();
    let mut tape = Tape { cells: vec![3], ptr: 0, pc: 1 };
    assert_eq!(step(&ops, &mut tape, Read::Byte(9)), Ok(None));
    assert_eq!(tape, Tape { cells: vec![3], ptr: 0, pc: 1 });
}

#[test]
fn step_jumps_forward_behind_the_loop_on_zero() {
    let ops = parse_src("[+]-").unwrap();
    let mut tape = Tape::new();
    assert_eq!(step(&ops, &mut tape, Read::Exhausted), Ok(None));
    assert_eq!(tape, Tape { cells: vec![0], ptr: 0, pc: 3 });
}

#[test]
fn step_enters_the_loop_on_nonzero() {
    let ops = parse_src("[+]-").unwrap();
    let mut tape = Tape { cells: vec![1], ptr: 0, pc: 0 };
    assert_eq!(step(&ops, &mut tape, Read::Exhausted), Ok(None));
    assert_eq!(tape, Tape { cells: vec![1], ptr: 0, pc: 1 });
}

#[test]
fn step_jumps_back_onto_the_open_bracket() {
    let ops = parse_src("-[+]-").unwrap();
    let mut tape = Tape { cells: vec![0], ptr: 0, pc: 3 };
    assert_eq!(step(&ops, &mut tape, Read::Exhausted), Ok(None));
    assert_eq!(tape, Tape { cells: vec![0], ptr: 0, pc: 1 });
    let mut tape = Tape { cells: vec![5], ptr: 0, pc: 3 };
    assert_eq!(step(&ops, &mut tape, Read::Exhausted), Ok(None));
    assert_eq!(tape, Tape { cells: vec![5], ptr: 0, pc: 1 });
}

#[test]
fn step_hands_the_read_to_an_input_instruction_only() {
    let ops = parse_src("+,").unwrap();
    let mut tape = Tape::new();
    assert!(!wants_input(&ops, &tape));
    assert_eq!(step(&ops, &mut tape, Read::Byte(50)), Ok(None));
    assert_eq!(tape.cells, vec![1]);
    assert!(wants_input(&ops, &tape));
    assert_eq!(step(&ops, &mut tape, Read::Byte(50)), Ok(None));
    assert_eq!(tape.cells, vec![50]);
    assert!(!wants_input(&ops, &tape));
    assert!(is_halted(&ops, &tape));
}

#[test]
fn step_ignores_a_failed_read_unless_it_reads() {
    let ops = parse_src("+").unwrap();
    let mut tape = Tape::new();
    assert_eq!(step(&ops, &mut tape, Read::Failed(String::from("unused"))), Ok(None));
    assert_eq!(tape.cells, vec![1]);
}

#[test]
fn step_fails_with_io_failure_when_the_read_failed() {
    let ops = parse_src("+,.").unwrap();
    let mut tape = Tape::new();
    assert_eq!(step(&ops, &mut tape, Read::Exhausted), Ok(None));
    assert_eq!(
        step(&ops, &mut tape, Read::Failed(String::from("device gone"))),
        Err(Error::IOFailure(String::from("device gone")))
    );
    assert_eq!(tape, Tape { cells: vec![1], ptr: 0, pc: 1 });
}

#[test]
fn step_fails_with_missing_cell_and_leaves_the_tape() {
    let ops = parse_src(".").unwrap();
    let mut tape = Tape { cells: vec![1], ptr: 5, pc: 0 };
    assert_eq!(step(&ops, &mut tape, Read::Exhausted), Err(Error::MissingCell));
    assert_eq!(tape, Tape { cells: vec![1], ptr: 5, pc: 0 });
}

#[test]
fn step_fails_with_pointer_underflow_and_leaves_the_tape() {
    let ops = parse_src("<").unwrap();
    let mut tape = Tape::new();
    assert_eq!(step(&ops, &mut tape, Read::Exhausted), Err(Error::PointerUnderflow));
    assert_eq!(tape, Tape::new());
}

#[test]
fn step_fails_with_pointer_overflow_and_leaves_the_tape() {
    let ops = parse_src(">").unwrap();
    let mut tape = Tape { cells: vec![1], ptr: usize::MAX, pc: 0 };
    assert_eq!(step(&ops, &mut tape, Read::Exhausted), Err(Error::PointerOverflow));
    assert_eq!(tape, Tape { cells: vec![1], ptr: usize::MAX, pc: 0 });
}

#[test]
fn tape_never_shrinks_during_a_run() {
    let ops = parse_src(HELLO).unwrap();
    let mut tape = Tape::new();
    let mut cells = tape.cells.len();
    while !is_halted(&ops, &tape) {
        step(&ops, &mut tape, Read::Exhausted).unwrap();
        assert!(tape.cells.len() == cells || tape.cells.len() == cells + 1);
        assert!(tape.ptr < tape.cells.len());
        cells = tape.cells.len();
    }
}
