use vstd::prelude::*;

use crate::ops::{BfError, Op};

verus! {

/// Number of cells on the reference interpreter's tape.
pub const TAPE_LEN: usize = 1000;

/// Machine state of the small-step semantics: instruction pointer, data
/// pointer, tape contents, how much input is consumed, and output so far.
pub struct VmState {
    pub ip: int,
    pub dp: int,
    pub cells: Seq<u8>,
    pub in_pos: int,
    pub out: Seq<u8>,
}

/// What one instruction does to a machine state.
pub enum StepResult {
    Next(VmState),
    Halted,
    Failed(BfError),
}

/// The effect of the instruction under the instruction pointer. Cell
/// arithmetic wraps at 8 bits; a cell access at or past the tape end fails
/// with `TapeOverrun`; moving left of cell zero fails with
/// `PointerUnderflow`; reading past the end of the input fails with
/// `InputExhausted`.
pub open spec fn step(ops: Seq<Op>, input: Seq<u8>, s: VmState) -> StepResult {
    if !(0 <= s.ip < ops.len()) {
        StepResult::Halted
    } else {
        match ops[s.ip] {
            Op::Inc => if 0 <= s.dp < s.cells.len() {
                StepResult::Next(
                    VmState {
                        ip: s.ip + 1,
                        dp: s.dp,
                        cells: s.cells.update(s.dp, (((s.cells[s.dp] + 1) % 256) as u8)),
                        in_pos: s.in_pos,
                        out: s.out,
                    },
                )
            } else {
                StepResult::Failed(BfError::TapeOverrun)
            },
            Op::Dec => if 0 <= s.dp < s.cells.len() {
                StepResult::Next(
                    VmState {
                        ip: s.ip + 1,
                        dp: s.dp,
                        cells: s.cells.update(s.dp, (((s.cells[s.dp] + 255) % 256) as u8)),
                        in_pos: s.in_pos,
                        out: s.out,
                    },
                )
            } else {
                StepResult::Failed(BfError::TapeOverrun)
            },
            Op::Left => if s.dp > 0 {
                StepResult::Next(
                    VmState { ip: s.ip + 1, dp: s.dp - 1, cells: s.cells, in_pos: s.in_pos, out: s.out },
                )
            } else {
                StepResult::Failed(BfError::PointerUnderflow)
            },
            Op::Right => StepResult::Next(
                VmState { ip: s.ip + 1, dp: s.dp + 1, cells: s.cells, in_pos: s.in_pos, out: s.out },
            ),
            Op::Output => if 0 <= s.dp < s.cells.len() {
                StepResult::Next(
                    VmState {
                        ip: s.ip + 1,
                        dp: s.dp,
                        cells: s.cells,
                        in_pos: s.in_pos,
                        out: s.out.push(s.cells[s.dp]),
                    },
                )
            } else {
                StepResult::Failed(BfError::TapeOverrun)
            },
            Op::Input => if 0 <= s.dp < s.cells.len() {
                if s.in_pos < input.len() {
                    StepResult::Next(
                        VmState {
                            ip: s.ip + 1,
                            dp: s.dp,
                            cells: s.cells.update(s.dp, input[s.in_pos]),
                            in_pos: s.in_pos + 1,
                            out: s.out,
                        },
                    )
                } else {
                    StepResult::Failed(BfError::InputExhausted)
                }
            } else {
                StepResult::Failed(BfError::TapeOverrun)
            },
            Op::JumpIfZero(t) => if 0 <= s.dp < s.cells.len() {
                StepResult::Next(
                    VmState {
                        ip: if s.cells[s.dp] == 0 {
                            t as int
                        } else {
                            s.ip + 1
                        },
                        dp: s.dp,
                        cells: s.cells,
                        in_pos: s.in_pos,
                        out: s.out,
                    },
                )
            } else {
                StepResult::Failed(BfError::TapeOverrun)
            },
            Op::JumpIfNonZero(t) => if 0 <= s.dp < s.cells.len() {
                StepResult::Next(
                    VmState {
                        ip: if s.cells[s.dp] != 0 {
                            t as int
                        } else {
                            s.ip + 1
                        },
                        dp: s.dp,
                        cells: s.cells,
                        in_pos: s.in_pos,
                        out: s.out,
                    },
                )
            } else {
                StepResult::Failed(BfError::TapeOverrun)
            },
        }
    }
}

/// Outcome of running with a bounded number of steps.
pub enum RunEnd {
    /// The instruction pointer reached the end of the program.
    Done(VmState),
    /// A fatal condition stopped the run in the given state.
    Fail(BfError, VmState),
    /// The step budget ran out in the given state.
    Out(VmState),
}

/// Big-step semantics with a step budget: the state after at most `fuel`
/// instructions, or the failure that ended the run.
pub open spec fn run_spec(ops: Seq<Op>, input: Seq<u8>, s: VmState, fuel: nat) -> RunEnd
    decreases fuel,
{
    if !(0 <= s.ip < ops.len()) {
        RunEnd::Done(s)
    } else if fuel == 0 {
        RunEnd::Out(s)
    } else {
        match step(ops, input, s) {
            StepResult::Halted => RunEnd::Done(s),
            StepResult::Failed(e) => RunEnd::Fail(e, s),
            StepResult::Next(s2) => run_spec(ops, input, s2, (fuel - 1) as nat),
        }
    }
}

/// How `run` reports the end of a run that did not fail.
#[derive(Clone, Copy, Debug, PartialEq, Eq, Structural)]
pub enum RunStatus {
    /// The instruction pointer reached the end of the program.
    Completed,
    /// The step budget ran out before the program ended.
    OutOfFuel,
}

/// The tree-walking reference interpreter: an instruction sequence, a tape of
/// `TAPE_LEN` cells, the remaining input bytes, and the output collected so
/// far. The caller supplies the input bytes and reads the output bytes back;
/// the interpreter itself does no I/O.
pub struct Interpreter {
    pub ops: Vec<Op>,
    pub cells: Vec<u8>,
    pub input: Vec<u8>,
    pub in_pos: usize,
    pub output: Vec<u8>,
}

/// A fresh zero-initialized tape.
pub open spec fn zero_tape() -> Seq<u8> {
    Seq::new(TAPE_LEN as nat, |i: int| 0u8)
}

/// The machine state a run starts from: both pointers at zero, the
/// interpreter's tape, input position and output as they stand.
pub open spec fn start_state(it: Interpreter) -> VmState {
    VmState { ip: 0, dp: 0, cells: it.cells@, in_pos: it.in_pos as int, out: it.output@ }
}

/// The interpreter shows exactly the tape, input position and output of a
/// machine state.
pub open spec fn observes(it: Interpreter, s: VmState) -> bool {
    &&& it.cells@ == s.cells
    &&& it.in_pos as int == s.in_pos
    &&& it.output@ == s.out
}

impl Interpreter {
    /// A fresh interpreter over `ops`, with a zeroed tape, the given input
    /// still unread, and no output yet.
    pub fn new(ops: Vec<Op>, input: Vec<u8>) -> (r: Interpreter)
        ensures
            r.ops@ == ops@,
            r.input@ == input@,
            r.cells@ == zero_tape(),
            r.in_pos == 0,
            r.output@ == Seq::<u8>::empty(),
    {
        let mut cells: Vec<u8> = Vec::new();
        let mut i: usize = 0;
        while i < TAPE_LEN
            invariant
                i <= TAPE_LEN,
                cells@.len() == i,
                forall|j: int| 0 <= j < i ==> cells@[j] == 0u8,
            decreases TAPE_LEN - i,
        {
            cells.push(0);
            i = i + 1;
        }
        proof {
            assert(cells@ =~= zero_tape());
        }
        Interpreter { ops, cells, input, in_pos: 0, output: Vec::new() }
    }

    /// Executes at most `fuel` instructions, starting with both pointers at
    /// zero. The result and the final tape, input position and output are
    /// exactly those of the big-step semantics `run_spec`.
    pub fn run(&mut self, fuel: usize) -> (r: Result<RunStatus, BfError>)
        ensures
            final(self).ops@ == old(self).ops@,
            final(self).input@ == old(self).input@,
            match run_spec(old(self).ops@, old(self).input@, start_state(*old(self)), fuel as nat) {
                RunEnd::Done(s) => r == Ok::<RunStatus, BfError>(RunStatus::Completed) && observes(
                    *final(self),
                    s,
                ),
                RunEnd::Out(s) => r == Ok::<RunStatus, BfError>(RunStatus::OutOfFuel) && observes(
                    *final(self),
                    s,
                ),
                RunEnd::Fail(e, s) => r == Err::<RunStatus, BfError>(e) && observes(
                    *final(self),
                    s,
                ),
            },
    {
        let ghost g_ops = self.ops@;
        let ghost g_input = self.input@;
        let ghost g_start = start_state(*self);
        let mut ip: usize = 0;
        let mut dp: usize = 0;
        let mut fuel_left: usize = fuel;
        loop
            invariant
                self.ops@ == g_ops,
                self.input@ == g_input,
                g_ops == old(self).ops@,
                g_input == old(self).input@,
                g_start == start_state(*old(self)),
                fuel_left <= fuel,
                dp + fuel_left <= fuel,
                run_spec(g_ops, g_input, g_start, fuel as nat) == run_spec(
                    g_ops,
                    g_input,
                    VmState {
                        ip: ip as int,
                        dp: dp as int,
                        cells: self.cells@,
                        in_pos: self.in_pos as int,
                        out: self.output@,
                    },
                    fuel_left as nat,
                ),
            decreases fuel_left,
        {
            let ghost s1 = VmState {
                ip: ip as int,
                dp: dp as int,
                cells: self.cells@,
                in_pos: self.in_pos as int,
                out: self.output@,
            };
            if ip >= self.ops.len() {
                return Ok(RunStatus::Completed);
            }
            if fuel_left == 0 {
                return Ok(RunStatus::OutOfFuel);
            }
            let op = self.ops[ip];
            match op {
                Op::Inc => {
                    if dp >= self.cells.len() {
                        return Err(BfError::TapeOverrun);
                    }
                    let v = self.cells[dp];
                    let nv: u8 = if v == 255 {
                        0
                    } else {
                        v + 1
                    };
                    self.cells.set(dp, nv);
                    ip = ip + 1;
                },
                Op::Dec => {
                    if dp >= self.cells.len() {
                        return Err(BfError::TapeOverrun);
                    }
                    let v = self.cells[dp];
                    let nv: u8 = if v == 0 {
                        255
                    } else {
                        v - 1
                    };
                    self.cells.set(dp, nv);
                    ip = ip + 1;
                },
                Op::Left => {
                    if dp == 0 {
                        return Err(BfError::PointerUnderflow);
                    }
                    dp = dp - 1;
                    ip = ip + 1;
                },
                Op::Right => {
                    dp = dp + 1;
                    ip = ip + 1;
                },
                Op::Output => {
                    if dp >= self.cells.len() {
                        return Err(BfError::TapeOverrun);
                    }
                    let v = self.cells[dp];
                    self.output.push(v);
                    ip = ip + 1;
                },
                Op::Input => {
                    if dp >= self.cells.len() {
                        return Err(BfError::TapeOverrun);
                    }
                    if self.in_pos >= self.input.len() {
                        return Err(BfError::InputExhausted);
                    }
                    let b = self.input[self.in_pos];
                    self.cells.set(dp, b);
                    self.in_pos = self.in_pos + 1;
                    ip = ip + 1;
                },
                Op::JumpIfZero(t) => {
                    if dp >= self.cells.len() {
                        return Err(BfError::TapeOverrun);
                    }
                    if self.cells[dp] == 0 {
                        ip = t;
                    } else {
                        ip = ip + 1;
                    }
                },
                Op::JumpIfNonZero(t) => {
                    if dp >= self.cells.len() {
                        return Err(BfError::TapeOverrun);
                    }
                    if self.cells[dp] != 0 {
                        ip = t;
                    } else {
                        ip = ip + 1;
                    }
                },
            }
            fuel_left = fuel_left - 1;
            proof {
                let s2 = VmState {
                    ip: ip as int,
                    dp: dp as int,
                    cells: self.cells@,
                    in_pos: self.in_pos as int,
                    out: self.output@,
                };
                assert(step(g_ops, g_input, s1) == StepResult::Next(s2));
                assert(run_spec(g_ops, g_input, s1, (fuel_left + 1) as nat) == run_spec(
                    g_ops,
                    g_input,
                    s2,
                    fuel_left as nat,
                ));
            }
        }
    }
}

} // verus!
