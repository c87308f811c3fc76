use bfjit::ops::{BfError, Op};
use bfjit::parser::parse;

#[test]
fn parses_every_plain_instruction() {
    let ops = parse(b"+-<>.,").unwrap();
    assert_eq!(
        ops,
        vec![Op::Inc, Op::Dec, Op::Left, Op::Right, Op::Output, Op::Input]
    );
}

#[test]
fn ignores_non_instruction_characters() {
    let ops = parse(b"a + b .\n").unwrap();
    assert_eq!(ops, vec![Op::Inc, Op::Output]);
}

#[test]
fn bracket_targets_correspond() {
    // open at index 1 points one past the close at index 3; the close points
    // one past the open
    let ops = parse(b"+[-]").unwrap();
    assert_eq!(
        ops,
        vec![
            Op::Inc,
            Op::JumpIfZero(4),
            Op::Dec,
            Op::JumpIfNonZero(2)
        ]
    );
}

#[test]
fn nested_brackets_match_inside_out() {
    let ops = parse(b"[[]]").unwrap();
    assert_eq!(
        ops,
        vec![
            Op::JumpIfZero(4),
            Op::JumpIfZero(3),
            Op::JumpIfNonZero(2),
            Op::JumpIfNonZero(1)
        ]
    );
    // the forward/backward correspondence, checked explicitly
    for (i, op) in ops.iter().enumerate() {
        if let Op::JumpIfZero(t) = *op {
            assert_eq!(ops[t - 1], Op::JumpIfNonZero(i + 1));
        }
        if let Op::JumpIfNonZero(u) = *op {
            assert_eq!(ops[u - 1], Op::JumpIfZero(i + 1));
        }
    }
}

#[test]
fn stray_close_bracket_is_rejected() {
    assert_eq!(parse(b"]"), Err(BfError::UnbalancedBrackets));
}

#[test]
fn unclosed_opens_are_rejected() {
    assert_eq!(parse(b"[["), Err(BfError::UnbalancedBrackets));
}

#[test]
fn unclosed_open_with_stray_char_is_rejected() {
    assert_eq!(parse(b"[)"), Err(BfError::UnbalancedBrackets));
}

#[test]
fn empty_program_parses_to_nothing() {
    let ops = parse(b"").unwrap();
    assert!(ops.is_empty());
}
