use bfjit::codegen::{JitCompiler, MAX_OPS};
use bfjit::ops::Op;
use bfjit::parser::parse;

const RET: [u8; 4] = [0xC0, 0x03, 0x5F, 0xD6];
const LDRB: [u8; 4] = [0x01, 0x00, 0x40, 0x39];

fn compile_source(src: &[u8]) -> Vec<u8> {
    let ops = parse(src).unwrap();
    JitCompiler::new(ops).compile().unwrap()
}

#[test]
fn empty_program_compiles_to_a_bare_return() {
    assert_eq!(compile_source(b""), RET.to_vec());
}

#[test]
fn increment_compiles_to_load_add_store() {
    let mut expected = vec![
        0x01, 0x00, 0x40, 0x39, // LDRB W1, [X0]
        0x21, 0x04, 0x00, 0x11, // ADD W1, W1, #1
        0x01, 0x00, 0x00, 0x39, // STRB W1, [X0]
    ];
    expected.extend_from_slice(&RET);
    assert_eq!(compile_source(b"+"), expected);
}

#[test]
fn decrement_compiles_to_load_sub_store() {
    let mut expected = vec![
        0x01, 0x00, 0x40, 0x39, // LDRB W1, [X0]
        0x21, 0x04, 0x00, 0x51, // SUB W1, W1, #1
        0x01, 0x00, 0x00, 0x39, // STRB W1, [X0]
    ];
    expected.extend_from_slice(&RET);
    assert_eq!(compile_source(b"-"), expected);
}

#[test]
fn pointer_moves_compile_to_one_instruction_each() {
    let mut expected = vec![
        0x00, 0x04, 0x00, 0xD1, // SUB X0, X0, #1
        0x00, 0x04, 0x00, 0x91, // ADD X0, X0, #1
    ];
    expected.extend_from_slice(&RET);
    assert_eq!(compile_source(b"<>"), expected);
}

#[test]
fn output_compiles_to_a_write_call_preserving_the_pointer() {
    let mut expected = vec![
        0xE3, 0x03, 0x00, 0xAA, // MOV X3, X0
        0x20, 0x00, 0x80, 0xD2, // MOVZ X0, #1
        0xE1, 0x03, 0x03, 0xAA, // MOV X1, X3
        0x22, 0x00, 0x80, 0xD2, // MOVZ X2, #1
        0x90, 0x00, 0x80, 0xD2, // MOVZ X16, #4
        0x01, 0x00, 0x00, 0xD4, // SVC #0
        0xE0, 0x03, 0x03, 0xAA, // MOV X0, X3
    ];
    expected.extend_from_slice(&RET);
    assert_eq!(compile_source(b"."), expected);
}

#[test]
fn input_compiles_to_the_symmetric_read_call() {
    let mut expected = vec![
        0xE3, 0x03, 0x00, 0xAA, // MOV X3, X0
        0x00, 0x00, 0x80, 0xD2, // MOVZ X0, #0
        0xE1, 0x03, 0x03, 0xAA, // MOV X1, X3
        0x22, 0x00, 0x80, 0xD2, // MOVZ X2, #1
        0x70, 0x00, 0x80, 0xD2, // MOVZ X16, #3
        0x01, 0x00, 0x00, 0xD4, // SVC #0
        0xE0, 0x03, 0x03, 0xAA, // MOV X0, X3
    ];
    expected.extend_from_slice(&RET);
    assert_eq!(compile_source(b","), expected);
}

#[test]
fn brackets_compile_to_resolved_conditional_branches() {
    // layout: [0..8) CBZ pair, [8..20) decrement, [20..28) CBNZ pair, [28..32) RET
    let mut expected = Vec::new();
    expected.extend_from_slice(&LDRB);
    // CBZ W1, #+24 — from byte 4 to the RET at byte 28; imm19 = 6
    expected.extend_from_slice(&[0xC1, 0x00, 0x00, 0x34]);
    expected.extend_from_slice(&[
        0x01, 0x00, 0x40, 0x39, 0x21, 0x04, 0x00, 0x51, 0x01, 0x00, 0x00, 0x39,
    ]);
    expected.extend_from_slice(&LDRB);
    // CBNZ W1, #-16 — from byte 24 back to byte 8; imm19 = 2^19 - 4
    expected.extend_from_slice(&[0x81, 0xFF, 0xFF, 0x35]);
    expected.extend_from_slice(&RET);
    assert_eq!(compile_source(b"[-]"), expected);
}

#[test]
fn nested_brackets_branch_to_the_right_offsets() {
    // four branch pairs of 8 bytes each, then RET at byte 32
    let mut expected = Vec::new();
    expected.extend_from_slice(&LDRB);
    expected.extend_from_slice(&[0xE1, 0x00, 0x00, 0x34]); // CBZ W1, #+28 (to RET)
    expected.extend_from_slice(&LDRB);
    expected.extend_from_slice(&[0x61, 0x00, 0x00, 0x34]); // CBZ W1, #+12 (past inner pair)
    expected.extend_from_slice(&LDRB);
    expected.extend_from_slice(&[0xE1, 0xFF, 0xFF, 0x35]); // CBNZ W1, #-4 (inner reload)
    expected.extend_from_slice(&LDRB);
    expected.extend_from_slice(&[0x61, 0xFF, 0xFF, 0x35]); // CBNZ W1, #-20 (outer reload)
    expected.extend_from_slice(&RET);
    assert_eq!(compile_source(b"[[]]"), expected);
}

#[test]
fn compiling_twice_yields_identical_buffers() {
    let ops = parse(b"++[->+<]>.").unwrap();
    let first = JitCompiler::new(ops.clone()).compile().unwrap();
    let second = JitCompiler::new(ops).compile().unwrap();
    assert_eq!(first, second);
}

#[test]
fn out_of_range_target_is_refused() {
    let jit = JitCompiler::new(vec![Op::JumpIfZero(5)]);
    assert_eq!(jit.compile(), None);
}

#[test]
fn oversized_program_is_refused() {
    let jit = JitCompiler::new(vec![Op::Inc; MAX_OPS + 1]);
    assert_eq!(jit.compile(), None);
}

#[test]
fn largest_accepted_program_compiles() {
    let jit = JitCompiler::new(vec![Op::Output; MAX_OPS]);
    let code = jit.compile().unwrap();
    assert_eq!(code.len(), 28 * MAX_OPS + 4);
}
