use bfjit::interp::{Interpreter, RunStatus, TAPE_LEN};
use bfjit::ops::BfError;
use bfjit::parser::parse;

const FUEL: usize = 1_000_000;

fn run_program(src: &[u8], input: Vec<u8>) -> (Result<RunStatus, BfError>, Interpreter) {
    let ops = parse(src).unwrap();
    let mut it = Interpreter::new(ops, input);
    let r = it.run(FUEL);
    (r, it)
}

#[test]
fn eight_increments_output_eight() {
    let (r, it) = run_program(b"++++++++.", vec![]);
    assert_eq!(r, Ok(RunStatus::Completed));
    assert_eq!(it.output, vec![8]);
}

#[test]
fn pointer_motion_then_output() {
    let (r, it) = run_program(b">+.", vec![]);
    assert_eq!(r, Ok(RunStatus::Completed));
    assert_eq!(it.output, vec![1]);
    assert_eq!(it.cells[0], 0);
    assert_eq!(it.cells[1], 1);
}

#[test]
fn loop_zeroes_a_cell() {
    let (r, it) = run_program(b"+++[-].", vec![]);
    assert_eq!(r, Ok(RunStatus::Completed));
    assert_eq!(it.output, vec![0]);
}

#[test]
fn copy_loop_moves_a_value() {
    // moves the 2 from cell 0 into cell 1, then outputs cell 1
    let (r, it) = run_program(b"++[->+<]>.", vec![]);
    assert_eq!(r, Ok(RunStatus::Completed));
    assert_eq!(it.output, vec![2]);
    assert_eq!(it.cells[0], 0);
    assert_eq!(it.cells[1], 2);
}

#[test]
fn nested_loops_multiply() {
    // 4 * 3 into cell 1, then output it
    let (r, it) = run_program(b"++++[>+++<-]>.", vec![]);
    assert_eq!(r, Ok(RunStatus::Completed));
    assert_eq!(it.output, vec![12]);
}

#[test]
fn empty_program_is_a_no_op() {
    let (r, it) = run_program(b"", vec![]);
    assert_eq!(r, Ok(RunStatus::Completed));
    assert!(it.output.is_empty());
    assert!(it.cells.iter().all(|&c| c == 0));
}

#[test]
fn moving_left_of_cell_zero_underflows() {
    let (r, _) = run_program(b"<", vec![]);
    assert_eq!(r, Err(BfError::PointerUnderflow));
}

#[test]
fn underflow_reports_output_so_far() {
    let (r, it) = run_program(b"+.<", vec![]);
    assert_eq!(r, Err(BfError::PointerUnderflow));
    assert_eq!(it.output, vec![1]);
}

#[test]
fn input_byte_lands_in_current_cell() {
    let (r, it) = run_program(b",.", vec![65]);
    assert_eq!(r, Ok(RunStatus::Completed));
    assert_eq!(it.cells[0], 65);
    assert_eq!(it.output, vec![65]);
}

#[test]
fn reading_past_the_input_is_fatal() {
    let (r, _) = run_program(b",", vec![]);
    assert_eq!(r, Err(BfError::InputExhausted));
}

#[test]
fn second_read_past_the_input_is_fatal() {
    let (r, it) = run_program(b",.,", vec![7]);
    assert_eq!(r, Err(BfError::InputExhausted));
    assert_eq!(it.output, vec![7]);
}

#[test]
fn cell_decrement_wraps_to_255() {
    let (r, it) = run_program(b"-.", vec![]);
    assert_eq!(r, Ok(RunStatus::Completed));
    assert_eq!(it.output, vec![255]);
}

#[test]
fn cell_increment_wraps_to_zero() {
    let mut src = vec![b'+'; 256];
    src.push(b'.');
    let (r, it) = run_program(&src, vec![]);
    assert_eq!(r, Ok(RunStatus::Completed));
    assert_eq!(it.output, vec![0]);
}

#[test]
fn touching_a_cell_past_the_tape_overruns() {
    let mut src = vec![b'>'; TAPE_LEN];
    src.push(b'+');
    let (r, _) = run_program(&src, vec![]);
    assert_eq!(r, Err(BfError::TapeOverrun));
}

#[test]
fn moving_past_the_tape_without_touching_is_allowed() {
    let mut src = vec![b'>'; TAPE_LEN + 5];
    src.extend_from_slice(&vec![b'<'; TAPE_LEN + 5]);
    src.push(b'.');
    let (r, it) = run_program(&src, vec![]);
    assert_eq!(r, Ok(RunStatus::Completed));
    assert_eq!(it.output, vec![0]);
}

#[test]
fn endless_loop_runs_out_of_fuel() {
    let ops = parse(b"+[]").unwrap();
    let mut it = Interpreter::new(ops, vec![]);
    assert_eq!(it.run(1000), Ok(RunStatus::OutOfFuel));
}

#[test]
fn fresh_interpreter_has_a_zeroed_tape() {
    let it = Interpreter::new(vec![], vec![1, 2, 3]);
    assert_eq!(it.cells.len(), TAPE_LEN);
    assert!(it.cells.iter().all(|&c| c == 0));
    assert_eq!(it.in_pos, 0);
    assert!(it.output.is_empty());
    assert_eq!(it.input, vec![1, 2, 3]);
}
