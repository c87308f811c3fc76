use vstd::prelude::*;

verus! {

/// The eight Brainfuck instructions.
///
/// Bracket instructions carry an absolute index into the instruction
/// sequence, resolved by the parser: a `JumpIfZero` points just past its
/// matching `JumpIfNonZero`, and vice versa.
#[derive(Clone, Copy, Debug, PartialEq, Eq, Structural)]
pub enum Op {
    /// `+` — increment the byte at the data pointer by one (wrapping).
    Inc,
    /// `-` — decrement the byte at the data pointer by one (wrapping).
    Dec,
    /// `<` — move the data pointer one cell to the left.
    Left,
    /// `>` — move the data pointer one cell to the right.
    Right,
    /// `.` — output the byte at the data pointer.
    Output,
    /// `,` — read one byte of input into the cell at the data pointer.
    Input,
    /// `[` — if the byte at the data pointer is zero, jump to the carried
    /// index (the index just past the matching `]`); otherwise fall through.
    JumpIfZero(usize),
    /// `]` — if the byte at the data pointer is non-zero, jump to the carried
    /// index (the index just past the matching `[`); otherwise fall through.
    JumpIfNonZero(usize),
}

/// Every failure the tool chain can report.
#[derive(Clone, Copy, Debug, PartialEq, Eq, Structural)]
pub enum BfError {
    /// A `]` had no open `[` to match, or a `[` was never closed.
    UnbalancedBrackets,
    /// The program moved the data pointer left of cell zero.
    PointerUnderflow,
    /// An `,` instruction ran after the input was used up. Running out of
    /// input is treated as fatal rather than as a zero fill.
    InputExhausted,
    /// The program touched a cell at or past the end of the tape. Moving the
    /// pointer past the end is not itself checked; touching a cell there is.
    TapeOverrun,
    /// Mapping an executable page failed; carries the platform's error code.
    /// Reported by the unverified memory manager around this library.
    AllocationFailed(i32),
}

} // verus!
